use leo_zap::generator::{address_from_bytes, GeneratorConfig, InputGenerator};
use leo_zap::parser::{FunctionDef, Param, RecordDef, RecordField, Visibility};
use leo_zap::value::SymValue;

fn make_record_def() -> RecordDef {
    RecordDef {
        name: "token".to_string(),
        fields: vec![
            RecordField {
                name: "owner".to_string(),
                ty: "address".to_string(),
                visibility: Visibility::Private,
            },
            RecordField {
                name: "amount".to_string(),
                ty: "u64".to_string(),
                visibility: Visibility::Private,
            },
        ],
    }
}

fn make_function(name: &str, inputs: Vec<Param>) -> FunctionDef {
    FunctionDef {
        name: name.to_string(),
        inputs,
        outputs: vec![],
    }
}

fn field<'a>(fields: &'a [(String, SymValue)], name: &str) -> Option<&'a SymValue> {
    fields.iter().find(|(k, _)| k == name).map(|(_, v)| v)
}

#[test]
fn test_gen_address() {
    let mut gen = InputGenerator::new(42);
    let addr = gen.gen_address();
    match &addr {
        SymValue::Address(a) => {
            assert!(a.starts_with("aleo1"), "Address should start with aleo1: {}", a);
            assert_eq!(a.len(), 56, "Address should be 56 chars (aleo1 + 51 base58): {}", a.len());
        }
        _ => panic!("Expected Address, got {:?}", addr),
    }
}

#[test]
fn test_gen_u64() {
    let mut gen = InputGenerator::new(42);
    let val = gen.gen_u64();
    assert!(matches!(val, SymValue::U64(_)));
}

#[test]
fn test_gen_record() {
    let mut gen = InputGenerator::new(42);
    let record_def = make_record_def();
    let record = gen.gen_record(&record_def);
    match &record {
        SymValue::Record { record_type, fields, .. } => {
            assert_eq!(record_type, "token");
            assert!(field(fields, "owner").is_some());
            assert!(field(fields, "amount").is_some());
            match field(fields, "owner").unwrap() {
                SymValue::Address(a) => assert!(a.starts_with("aleo1")),
                _ => panic!("owner should be Address"),
            }
            match field(fields, "amount").unwrap() {
                SymValue::U64(_) => {}
                _ => panic!("amount should be U64"),
            }
        }
        _ => panic!("Expected Record, got {:?}", record),
    }
}

#[test]
fn test_gen_inputs_for_function() {
    let mut gen = InputGenerator::new(42);
    let records = vec![make_record_def()];

    let func = make_function(
        "transfer_private",
        vec![
            Param {
                register: "r0".to_string(),
                ty: "token.record".to_string(),
                visibility: Visibility::Unspecified,
            },
            Param {
                register: "r1".to_string(),
                ty: "address".to_string(),
                visibility: Visibility::Private,
            },
            Param {
                register: "r2".to_string(),
                ty: "u64".to_string(),
                visibility: Visibility::Private,
            },
        ],
    );

    let inputs = gen.generate_inputs(&func, &records);
    assert_eq!(inputs.len(), 3);
    assert_eq!(inputs[0].0, "r0");
    assert!(matches!(inputs[0].1, SymValue::Record { .. }));
    assert_eq!(inputs[1].0, "r1");
    assert!(matches!(inputs[1].1, SymValue::Address(_)));
    assert_eq!(inputs[2].0, "r2");
    assert!(matches!(inputs[2].1, SymValue::U64(_)));
}

#[test]
fn test_deterministic_output() {
    let mut gen1 = InputGenerator::new(12345);
    let mut gen2 = InputGenerator::new(12345);

    let val1 = gen1.gen_u64();
    let val2 = gen2.gen_u64();
    assert_eq!(val1, val2, "Same seed should produce same output");
}

#[test]
fn test_different_seed_different_output() {
    let mut gen1 = InputGenerator::new(42);
    let mut gen2 = InputGenerator::new(99);

    let vals1: Vec<_> = (0..10).map(|_| gen1.gen_u64()).collect();
    let vals2: Vec<_> = (0..10).map(|_| gen2.gen_u64()).collect();
    assert_ne!(vals1, vals2, "Different seeds should produce different output");
}

#[test]
fn test_edge_cases_included() {
    let mut gen = InputGenerator::with_config(
        42,
        GeneratorConfig {
            include_edge_cases: true,
            edge_case_ratio: (1, 1),
        },
    );

    for _ in 0..20 {
        let val = gen.gen_scalar("u64");
        if let SymValue::U64(v) = val {
            assert!(
                v == 0 || v == 1 || v == u64::MAX || v == u64::MAX - 1 || v == u64::MAX / 2,
                "Expected edge case, got {}",
                v
            );
        }
    }
}

#[test]
fn test_edge_cases_disabled() {
    let mut gen = InputGenerator::with_config(
        42,
        GeneratorConfig {
            include_edge_cases: false,
            ..Default::default()
        },
    );

    let mut found_non_edge = false;
    for _ in 0..100 {
        let val = gen.gen_scalar("u64");
        if let SymValue::U64(v) = val {
            if v != 0 && v != 1 && v != u64::MAX && v != u64::MAX - 1 && v != u64::MAX / 2 {
                found_non_edge = true;
                break;
            }
        }
    }
    assert!(found_non_edge, "Should find non-edge values when edge cases disabled");
}

#[test]
fn test_gen_future_param() {
    let mut gen = InputGenerator::new(42);
    let param = Param {
        register: "r0".to_string(),
        ty: "token.aleo/mint_public.future".to_string(),
        visibility: Visibility::Unspecified,
    };
    let val = gen.gen_param_value(&param, &vec![]);
    match val {
        SymValue::Future(s) => assert!(s.contains(".future"), "Future should contain .future"),
        _ => panic!("Expected Future, got {:?}", val),
    }
}

// ---------------------------------------------------------------------------
// Further cases
// ---------------------------------------------------------------------------

#[test]
fn scalar_variants_follow_type() {
    let mut gen = InputGenerator::new(7);
    assert!(matches!(gen.gen_scalar("u8"), SymValue::U8(_)));
    assert!(matches!(gen.gen_scalar("u16"), SymValue::U16(_)));
    assert!(matches!(gen.gen_scalar("u32"), SymValue::U32(_)));
    assert!(matches!(gen.gen_scalar("u128"), SymValue::U128(_)));
    assert!(matches!(gen.gen_scalar("i8"), SymValue::I8(_)));
    assert!(matches!(gen.gen_scalar("i16"), SymValue::I16(_)));
    assert!(matches!(gen.gen_scalar("i32"), SymValue::I32(_)));
    assert!(matches!(gen.gen_scalar("i64"), SymValue::I64(_)));
    assert!(matches!(gen.gen_scalar("i128"), SymValue::I128(_)));
    assert!(matches!(gen.gen_scalar("bool"), SymValue::Bool(_)));
    assert!(matches!(gen.gen_scalar("field"), SymValue::U128(_)));
    assert!(matches!(gen.gen_scalar("group"), SymValue::U128(_)));
    assert!(matches!(gen.gen_scalar("scalar"), SymValue::U64(_)));
    assert!(matches!(gen.gen_scalar("my_u32_type"), SymValue::U32(_)));
    assert!(matches!(gen.gen_scalar("an_address"), SymValue::Address(_)));
    assert_eq!(gen.gen_specific_u64(5), SymValue::U64(5));
}

#[test]
fn edge_cases_per_type() {
    let mut gen = InputGenerator::new(3);
    for _ in 0..10 {
        match gen.gen_edge_case("i8") {
            Some(SymValue::I8(v)) => assert!([0, 1, -1, i8::MAX, i8::MIN].contains(&v)),
            other => panic!("unexpected {:?}", other),
        }
        match gen.gen_edge_case("bool") {
            Some(SymValue::Bool(_)) => {}
            other => panic!("unexpected {:?}", other),
        }
    }
    assert!(gen.gen_edge_case("address").is_none());
    assert!(gen.gen_edge_case("field").is_none());
}

#[test]
fn unknown_record_gets_owner_and_amount() {
    let mut gen = InputGenerator::new(1);
    let param = Param {
        register: "r0".to_string(),
        ty: "coin.record".to_string(),
        visibility: Visibility::Unspecified,
    };
    match gen.gen_param_value(&param, &vec![make_record_def()]) {
        SymValue::Record { record_type, fields } => {
            assert_eq!(record_type, "coin");
            assert_eq!(fields.len(), 2);
            assert_eq!(fields[0].0, "owner");
            assert!(matches!(fields[0].1, SymValue::Address(_)));
            assert_eq!(fields[1].0, "amount");
            assert!(matches!(fields[1].1, SymValue::U64(_)));
        }
        other => panic!("unexpected {:?}", other),
    }
}

#[test]
fn address_from_fixed_bytes() {
    let a = address_from_bytes(&[0u8; 32]);
    assert_eq!(a.len(), 56);
    // byte 0 and step 7 pick charset[(7 * i) % 58]
    let charset: Vec<char> = "123456789abcdefghijkmnopqrstuvwxyzABCDEFGHJKLMNPQRSTUVWXYZ".chars().collect();
    let expected: String = (0..51).map(|i| charset[(i * 7) % 58]).collect();
    assert_eq!(a, format!("aleo1{}", expected));
}
