use leo_zap::value::SymValue;

#[test]
fn test_sym_value_to_leo_string() {
    assert_eq!(SymValue::U64(100).to_leo_string(), "100u64");
    assert_eq!(SymValue::U32(42).to_leo_string(), "42u32");
    assert_eq!(SymValue::I64(-5).to_leo_string(), "-5i64");
    assert_eq!(SymValue::Bool(true).to_leo_string(), "true");

    let addr = SymValue::Address("aleo1abc123".to_string());
    assert_eq!(addr.to_leo_string(), "aleo1abc123");
}

#[test]
fn test_sym_value_extract_amount() {
    assert_eq!(SymValue::U64(100).extract_amount(), Some(100));

    let fields = vec![
        ("owner".to_string(), SymValue::Address("aleo1test".to_string())),
        ("amount".to_string(), SymValue::U64(500)),
    ];
    let record = SymValue::Record {
        record_type: "token".to_string(),
        fields,
    };
    assert_eq!(record.extract_amount(), Some(500));

    let record2 = SymValue::Record {
        record_type: "token".to_string(),
        fields: vec![],
    };
    assert_eq!(record2.extract_amount(), None);
}

// ---------------------------------------------------------------------------
// Further cases
// ---------------------------------------------------------------------------

#[test]
fn record_text_and_debug() {
    let record = SymValue::Record {
        record_type: "token".to_string(),
        fields: vec![
            ("owner".to_string(), SymValue::Address("aleo1o".to_string())),
            ("amount".to_string(), SymValue::U64(5)),
        ],
    };
    assert_eq!(record.to_leo_string(), "token { owner: aleo1o, amount: 5u64, _nonce: 0group }");
    assert_eq!(
        record.debug_string(),
        "Record { record_type: \"token\", fields: {\"owner\": Address(\"aleo1o\"), \"amount\": U64(5)} }"
    );
    assert_eq!(SymValue::I8(-3).debug_string(), "I8(-3)");
    assert_eq!(SymValue::Unknown.to_leo_string(), "<unknown>");
    assert_eq!(SymValue::U128(u128::MAX).to_leo_string(), "340282366920938463463374607431768211455u128");
    assert_eq!(SymValue::I128(i128::MIN).to_leo_string(), "-170141183460469231731687303715884105728i128");
}

#[test]
fn record_fields_and_equality() {
    let a = SymValue::Record {
        record_type: "t".to_string(),
        fields: vec![("x".to_string(), SymValue::U64(1)), ("y".to_string(), SymValue::Bool(true))],
    };
    let b = SymValue::Record {
        record_type: "t".to_string(),
        fields: vec![("y".to_string(), SymValue::Bool(true)), ("x".to_string(), SymValue::U64(1))],
    };
    // records compare as maps from field names to values
    assert_eq!(a, b);
    assert_ne!(a, SymValue::U64(1));
    assert_eq!(a.get_field("y"), Some(&SymValue::Bool(true)));
    assert_eq!(a.get_field("z"), None);
    assert_eq!(SymValue::U64(3).get_field("x"), None);
    assert_eq!(SymValue::U64(3).as_u64(), Some(3));
    assert_eq!(SymValue::U32(3).as_u64(), None);
    assert_eq!(a.clone(), a);
    assert_eq!(SymValue::U32(1).extract_amount(), None);
}
