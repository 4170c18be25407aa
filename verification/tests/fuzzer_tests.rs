use leo_zap::fuzzer::{FuzzConfig, FuzzOutcome, FuzzResult, FuzzRunner, highlighted_violations, is_block_header};
use leo_zap::instruction::{parse_instruction, parse_operand, Instruction, Operand};
use leo_zap::symbolic::{execute_instruction, parse_literal, SymbolicState};
use leo_zap::value::SymValue;

#[test]
fn test_parse_simple_operand() {
    assert_eq!(parse_operand("r0"), Operand::Register("r0".to_string()));
    assert_eq!(parse_operand("r5"), Operand::Register("r5".to_string()));
    assert_eq!(
        parse_operand("r0.amount"),
        Operand::FieldAccess {
            register: "r0".to_string(),
            field: "amount".to_string()
        }
    );
    assert_eq!(parse_operand("self.caller"), Operand::SelfCaller);
    assert_eq!(parse_operand("0u64"), Operand::Literal("0u64".to_string()));
    assert_eq!(parse_operand("100u64"), Operand::Literal("100u64".to_string()));
}

#[test]
fn test_parse_add_instruction() {
    let inst = parse_instruction("add r2 r1 into r3;").unwrap();
    assert_eq!(
        inst,
        Instruction::Add {
            lhs: Operand::Register("r2".to_string()),
            rhs: Operand::Register("r1".to_string()),
            dest: "r3".to_string()
        }
    );
}

#[test]
fn test_parse_sub_instruction() {
    let inst = parse_instruction("sub r0.amount r2 into r3;").unwrap();
    assert_eq!(
        inst,
        Instruction::Sub {
            lhs: Operand::FieldAccess {
                register: "r0".to_string(),
                field: "amount".to_string()
            },
            rhs: Operand::Register("r2".to_string()),
            dest: "r3".to_string()
        }
    );
}

#[test]
fn test_parse_cast_instruction() {
    let inst = parse_instruction("cast r0.owner r3 into r4 as token.record;").unwrap();
    match inst {
        Instruction::Cast { fields, dest, as_type } => {
            assert_eq!(fields.len(), 2);
            assert_eq!(dest, "r4");
            assert_eq!(as_type, "token.record");
        }
        _ => panic!("Expected Cast, got {:?}", inst),
    }
}

#[test]
fn test_parse_get_or_use() {
    let inst = parse_instruction("get.or_use account[r0] 0u64 into r2;").unwrap();
    match inst {
        Instruction::GetOrUse { mapping, key, default, dest } => {
            assert_eq!(mapping, "account");
            assert_eq!(key, "r0");
            assert_eq!(default, "0u64");
            assert_eq!(dest, "r2");
        }
        _ => panic!("Expected GetOrUse, got {:?}", inst),
    }
}

#[test]
fn test_parse_set() {
    let inst = parse_instruction("set r3 into account[r0];").unwrap();
    match inst {
        Instruction::MappingSet { value, mapping, key } => {
            assert_eq!(value, "r3");
            assert_eq!(mapping, "account");
            assert_eq!(key, "r0");
        }
        _ => panic!("Expected Set, got {:?}", inst),
    }
}

#[test]
fn test_parse_async() {
    let inst = parse_instruction("async mint_public r0 r1 into r2;").unwrap();
    match inst {
        Instruction::Async { func, args, dest } => {
            assert_eq!(func, "mint_public");
            assert_eq!(args, vec!["r0", "r1"]);
            assert_eq!(dest, "r2");
        }
        _ => panic!("Expected Async, got {:?}", inst),
    }
}

#[test]
fn test_parse_async_with_self_caller() {
    let inst = parse_instruction("async transfer_public self.caller r0 r1 into r2;").unwrap();
    match inst {
        Instruction::Async { func, args, dest } => {
            assert_eq!(func, "transfer_public");
            assert_eq!(args, vec!["self.caller", "r0", "r1"]);
            assert_eq!(dest, "r2");
        }
        _ => panic!("Expected Async, got {:?}", inst),
    }
}

#[test]
fn test_parse_assert_eq() {
    let inst = parse_instruction("assert.eq edition 0u16;").unwrap();
    assert!(matches!(inst, Instruction::AssertEq { .. }));
}

#[test]
fn test_parse_output() {
    let inst = parse_instruction("output r2 as token.record;").unwrap();
    match inst {
        Instruction::Output { src, ty } => {
            assert_eq!(src, "r2");
            assert_eq!(ty, "token.record");
        }
        _ => panic!("Expected Output, got {:?}", inst),
    }
}

#[test]
fn test_parse_output_future() {
    let inst = parse_instruction("output r2 as token.aleo/mint_public.future;").unwrap();
    match inst {
        Instruction::Output { src, ty } => {
            assert_eq!(src, "r2");
            assert_eq!(ty, "token.aleo/mint_public.future");
        }
        _ => panic!("Expected Output, got {:?}", inst),
    }
}

#[test]
fn test_parse_literal_u64() {
    assert_eq!(parse_literal("0u64"), Some(SymValue::U64(0)));
    assert_eq!(parse_literal("100u64"), Some(SymValue::U64(100)));
    assert_eq!(parse_literal("18446744073709551615u64"), Some(SymValue::U64(u64::MAX)));
}

#[test]
fn test_parse_literal_other() {
    assert_eq!(parse_literal("0u32"), Some(SymValue::U32(0)));
    assert_eq!(parse_literal("255u8"), Some(SymValue::U8(255)));
    assert_eq!(parse_literal("true"), Some(SymValue::Bool(true)));
    assert_eq!(parse_literal("false"), Some(SymValue::Bool(false)));
    assert_eq!(parse_literal("0group"), Some(SymValue::U64(0)));
}

#[test]
fn test_symbolic_add() {
    let mut state = SymbolicState::new();
    state.set("r0", SymValue::U64(10));
    state.set("r1", SymValue::U64(20));

    let inst = Instruction::Add {
        lhs: Operand::Register("r0".to_string()),
        rhs: Operand::Register("r1".to_string()),
        dest: "r2".to_string(),
    };

    let violations = execute_instruction(&inst, &mut state, "test");
    assert!(violations.is_empty());
    assert_eq!(state.get("r2"), Some(&SymValue::U64(30)));
}

#[test]
fn test_symbolic_add_overflow() {
    let mut state = SymbolicState::new();
    state.set("r0", SymValue::U64(u64::MAX));
    state.set("r1", SymValue::U64(1));

    let inst = Instruction::Add {
        lhs: Operand::Register("r0".to_string()),
        rhs: Operand::Register("r1".to_string()),
        dest: "r2".to_string(),
    };

    let violations = execute_instruction(&inst, &mut state, "test");
    assert_eq!(violations.len(), 1);
    assert!(violations[0].contains("OVERFLOW"));
}

#[test]
fn test_symbolic_sub_normal() {
    let mut state = SymbolicState::new();
    state.set("r0", SymValue::U64(100));
    state.set("r1", SymValue::U64(30));

    let inst = Instruction::Sub {
        lhs: Operand::Register("r0".to_string()),
        rhs: Operand::Register("r1".to_string()),
        dest: "r2".to_string(),
    };

    let violations = execute_instruction(&inst, &mut state, "test");
    assert!(violations.is_empty());
    assert_eq!(state.get("r2"), Some(&SymValue::U64(70)));
}

#[test]
fn test_symbolic_sub_underflow() {
    let mut state = SymbolicState::new();
    state.set("r0", SymValue::U64(50));
    state.set("r1", SymValue::U64(100));

    let inst = Instruction::Sub {
        lhs: Operand::Register("r0".to_string()),
        rhs: Operand::Register("r1".to_string()),
        dest: "r2".to_string(),
    };

    let violations = execute_instruction(&inst, &mut state, "test");
    assert_eq!(violations.len(), 1);
    assert!(violations[0].contains("UNDERFLOW"));
    assert_eq!(state.get("r2"), Some(&SymValue::U64(50u64.wrapping_sub(100))));
}

#[test]
fn test_symbolic_field_access_sub_underflow() {
    let mut state = SymbolicState::new();
    let fields = vec![
        ("owner".to_string(), SymValue::Address("aleo1test".to_string())),
        ("amount".to_string(), SymValue::U64(50)),
    ];
    state.set(
        "r0",
        SymValue::Record {
            record_type: "token".to_string(),
            fields,
        },
    );
    state.set("r2", SymValue::U64(100));

    let inst = Instruction::Sub {
        lhs: Operand::FieldAccess {
            register: "r0".to_string(),
            field: "amount".to_string(),
        },
        rhs: Operand::Register("r2".to_string()),
        dest: "r3".to_string(),
    };

    let violations = execute_instruction(&inst, &mut state, "transfer_private");
    assert_eq!(violations.len(), 1);
    assert!(violations[0].contains("UNDERFLOW"), "Expected underflow, got: {}", violations[0]);
}

#[test]
fn test_symbolic_cast() {
    let mut state = SymbolicState::new();
    let fields = vec![
        ("owner".to_string(), SymValue::Address("aleo1owner".to_string())),
        ("amount".to_string(), SymValue::U64(100)),
    ];
    state.set(
        "r0",
        SymValue::Record {
            record_type: "token".to_string(),
            fields,
        },
    );
    state.set("r3", SymValue::U64(70));

    let inst = Instruction::Cast {
        fields: vec![
            Operand::FieldAccess {
                register: "r0".to_string(),
                field: "owner".to_string(),
            },
            Operand::Register("r3".to_string()),
        ],
        dest: "r4".to_string(),
        as_type: "token.record".to_string(),
    };

    let violations = execute_instruction(&inst, &mut state, "test");
    assert!(violations.is_empty());

    let record = state.get("r4").unwrap();
    assert!(matches!(record, SymValue::Record { .. }));
    if let SymValue::Record { fields, .. } = record {
        assert!(fields.iter().any(|(k, _)| k == "owner"));
        assert!(fields.iter().any(|(k, _)| k == "amount"));
        let amount = fields.iter().find(|(k, _)| k == "amount").map(|(_, v)| v).unwrap();
        assert_eq!(amount, &SymValue::U64(70));
    }
}

#[test]
fn test_symbolic_gt() {
    let mut state = SymbolicState::new();
    state.set("r0", SymValue::U64(100));
    state.set("r1", SymValue::U64(50));

    let inst = Instruction::Gt {
        lhs: Operand::Register("r0".to_string()),
        rhs: Operand::Register("r1".to_string()),
        dest: "r2".to_string(),
    };

    let violations = execute_instruction(&inst, &mut state, "test");
    assert!(violations.is_empty());
    assert_eq!(state.get("r2"), Some(&SymValue::Bool(true)));
}

#[test]
fn test_extract_instructions_from_content() {
    let content = r#"function mint_private:
    input r0 as address.private;
    input r1 as u64.private;
    cast r0 r1 into r2 as token.record;
    output r2 as token.record;

function transfer_private:
    input r0 as token.record;
    input r1 as address.private;
    input r2 as u64.private;
    sub r0.amount r2 into r3;
    cast r0.owner r3 into r4 as token.record;
    cast r1 r2 into r5 as token.record;
    output r4 as token.record;
    output r5 as token.record;
"#;

    let insts = FuzzRunner::extract_instructions_from_content(content, "transfer_private");
    assert!(insts.len() >= 6, "Expected at least 6 instructions, got {}", insts.len());
    let recognized: Vec<_> = insts.iter().filter(|i| !matches!(i, Instruction::Unknown(_))).collect();
    assert!(matches!(recognized[0], Instruction::Sub { .. }), "First recognized instruction should be Sub");
}

// ---------------------------------------------------------------------------
// Further cases
// ---------------------------------------------------------------------------

#[test]
fn messages_read_exactly() {
    let mut state = SymbolicState::new();
    state.set("r0", SymValue::U64(u64::MAX));
    state.set("r1", SymValue::U64(2));
    let add = Instruction::Add {
        lhs: Operand::Register("r0".to_string()),
        rhs: Operand::Register("r1".to_string()),
        dest: "r2".to_string(),
    };
    let v = execute_instruction(&add, &mut state, "f");
    assert_eq!(
        v,
        vec!["OVERFLOW in f: add rr0 rr1 — 18446744073709551615 + 2 overflows u64".to_string()]
    );
    assert_eq!(state.get("r2"), Some(&SymValue::U64(1)));

    let sub = Instruction::Sub {
        lhs: Operand::Register("r1".to_string()),
        rhs: Operand::Literal("5u64".to_string()),
        dest: "r3".to_string(),
    };
    let v = execute_instruction(&sub, &mut state, "f");
    assert_eq!(
        v,
        vec!["UNDERFLOW in f: sub r1 5u64 — 2 < 5 would underflow u64 (wraps to 18446744073709551613)".to_string()]
    );

    let eq = Instruction::AssertEq {
        lhs: Operand::Register("r1".to_string()),
        rhs: Operand::Literal("3u64".to_string()),
    };
    let v = execute_instruction(&eq, &mut state, "f");
    assert_eq!(v, vec!["ASSERTION FAILED in f: assert.eq r1 3u64 — U64(2) != U64(3)".to_string()]);

    let neq = Instruction::AssertNeq {
        lhs: Operand::SelfCaller,
        rhs: Operand::SelfCaller,
    };
    let v = execute_instruction(&neq, &mut state, "f");
    assert_eq!(
        v,
        vec!["ASSERTION FAILED in f: assert.neq self.caller self.caller — Address(\"aleo1selfcaller0000000000000000000000000000000000000000\") == Address(\"aleo1selfcaller0000000000000000000000000000000000000000\")".to_string()]
    );
}

#[test]
fn other_instructions_write_their_register_only() {
    let mut state = SymbolicState::new();
    state.set("r0", SymValue::Bool(true));
    let get = Instruction::GetOrUse {
        mapping: "account".to_string(),
        key: "r0".to_string(),
        default: "7u32".to_string(),
        dest: "r1".to_string(),
    };
    assert!(execute_instruction(&get, &mut state, "f").is_empty());
    assert_eq!(state.get("r1"), Some(&SymValue::U32(7)));
    let get_unknown = Instruction::GetOrUse {
        mapping: "account".to_string(),
        key: "r0".to_string(),
        default: "xyz".to_string(),
        dest: "r2".to_string(),
    };
    execute_instruction(&get_unknown, &mut state, "f");
    assert_eq!(state.get("r2"), Some(&SymValue::U64(0)));
    let fut = Instruction::Async { func: "g".to_string(), args: vec![], dest: "r3".to_string() };
    execute_instruction(&fut, &mut state, "f");
    assert_eq!(state.get("r3"), Some(&SymValue::Future("future".to_string())));
    let gt = Instruction::Gt {
        lhs: Operand::Register("r0".to_string()),
        rhs: Operand::Register("r9".to_string()),
        dest: "r4".to_string(),
    };
    execute_instruction(&gt, &mut state, "f");
    assert_eq!(state.get("r4"), Some(&SymValue::Bool(false)));
    assert_eq!(state.get("r0"), Some(&SymValue::Bool(true)));
    assert_eq!(state.registers().len(), 5);
}

#[test]
fn literals_read_back_what_values_write() {
    let values = vec![
        SymValue::U8(255),
        SymValue::U16(7),
        SymValue::U32(0),
        SymValue::U64(u64::MAX),
        SymValue::U128(u128::MAX),
        SymValue::I8(-128),
        SymValue::I16(-5),
        SymValue::I32(i32::MAX),
        SymValue::I64(i64::MIN),
        SymValue::Bool(false),
    ];
    for v in values {
        assert_eq!(parse_literal(&v.to_leo_string()), Some(v.clone()));
    }
    // i128 literals are not read
    assert_eq!(parse_literal(&SymValue::I128(1).to_leo_string()), None);
    assert_eq!(parse_literal("256u8"), None);
    assert_eq!(parse_literal("+5u8"), Some(SymValue::U8(5)));
    assert_eq!(parse_literal("-0i8"), Some(SymValue::I8(0)));
    assert_eq!(parse_literal("5u64u64"), Some(SymValue::U64(5)));
    assert_eq!(parse_literal("abc"), None);
}

#[test]
fn cast_builds_record_type_and_fields() {
    let mut state = SymbolicState::with_inputs(vec![
        ("r0".to_string(), SymValue::Address("aleo1x".to_string())),
        ("r1".to_string(), SymValue::U64(9)),
    ]);
    let inst = Instruction::Cast {
        fields: vec![
            Operand::Register("r0".to_string()),
            Operand::Register("r1".to_string()),
            Operand::Literal("1u8".to_string()),
            Operand::Register("r7".to_string()),
        ],
        dest: "r2".to_string(),
        as_type: "token.aleo/token.record".to_string(),
    };
    execute_instruction(&inst, &mut state, "f");
    let expected = SymValue::Record {
        record_type: "token.aleo/token".to_string(),
        fields: vec![
            ("owner".to_string(), SymValue::Address("aleo1x".to_string())),
            ("amount".to_string(), SymValue::U64(9)),
            ("unknown".to_string(), SymValue::U8(1)),
        ],
    };
    assert_eq!(state.get("r2"), Some(&expected));
}

#[test]
fn body_extraction_stops_at_next_block() {
    let content = "function a:\n    add r0 r1 into r2;\n// note\n\nfunction b:\n    sub r0 r1 into r2;\n";
    let insts = FuzzRunner::extract_instructions_from_content(content, "a");
    assert_eq!(insts.len(), 1);
    assert!(matches!(insts[0], Instruction::Add { .. }));
    assert!(FuzzRunner::extract_instructions_from_content(content, "c").is_empty());
    assert!(is_block_header("finalize a:"));
    assert!(!is_block_header("sub r0 r1 into r2;"));
}

#[test]
fn unknown_instructions_keep_their_text() {
    assert_eq!(
        parse_instruction("  hash.bhp256 r0 into r1;"),
        Some(Instruction::Unknown("hash.bhp256 r0 into r1".to_string()))
    );
    // The semicolon is only stripped at the very end of the line.
    assert_eq!(
        parse_instruction("  hash.bhp256 r0 into r1;  "),
        Some(Instruction::Unknown("hash.bhp256 r0 into r1;".to_string()))
    );
    assert_eq!(
        parse_instruction("add r0 r1;"),
        Some(Instruction::Unknown("add r0 r1".to_string()))
    );
    assert_eq!(parse_instruction("   ;"), None);
    assert_eq!(parse_instruction("cast r0 r1"), None);
}

fn violation(detail: &str) -> FuzzResult {
    FuzzResult {
        function: "f".to_string(),
        inputs: vec![],
        input_strings: vec![],
        outcome: FuzzOutcome::Violation {
            invariant_name: "symbolic".to_string(),
            detail: detail.to_string(),
        },
    }
}

#[test]
fn reports_list_underflows_first() {
    let results = vec![
        violation("BALANCE_MISMATCH"),
        violation("OVERFLOW in f"),
        violation("UNDERFLOW in f"),
        FuzzResult {
            function: "f".to_string(),
            inputs: vec![],
            input_strings: vec![],
            outcome: FuzzOutcome::Pass,
        },
        violation("UNDERFLOW again"),
    ];
    assert_eq!(highlighted_violations(&results, 5), vec![2, 4, 1, 0]);
    assert_eq!(highlighted_violations(&results, 2), vec![2, 4]);
    assert!(results[0].outcome.is_violation());
    assert!(results[3].outcome.is_pass());
    let config = FuzzConfig::default();
    assert_eq!(config.runs, 1000);
    assert!(config.project_dir.is_none());
}

#[test]
fn overflowing_add_stores_the_wrapped_sum() {
    let mut state = SymbolicState::new();
    state.set("r0", SymValue::U64(u64::MAX - 1));
    state.set("r1", SymValue::U64(5));
    let inst = Instruction::Add {
        lhs: Operand::Register("r0".to_string()),
        rhs: Operand::Register("r1".to_string()),
        dest: "r2".to_string(),
    };
    let violations = execute_instruction(&inst, &mut state, "mint");
    assert_eq!(violations.len(), 1);
    assert!(violations[0].starts_with("OVERFLOW in mint: add rr0 rr1"));
    assert_eq!(state.get("r2"), Some(&SymValue::U64(3)));

    let inst = Instruction::Sub {
        lhs: Operand::Register("r1".to_string()),
        rhs: Operand::Register("r1".to_string()),
        dest: "r3".to_string(),
    };
    assert!(execute_instruction(&inst, &mut state, "mint").is_empty());
    assert_eq!(state.get("r3"), Some(&SymValue::U64(0)));
}

#[test]
fn malformed_lines_pass_through_as_unknown() {
    assert_eq!(
        parse_instruction("cast r0 r1 as token.record into"),
        Some(Instruction::Unknown("cast r0 r1 as token.record into".to_string()))
    );
    assert_eq!(
        parse_instruction("async f into"),
        Some(Instruction::Unknown("async f into".to_string()))
    );
    assert_eq!(
        parse_instruction("async into r1;"),
        Some(Instruction::Unknown("async into r1".to_string()))
    );
    assert_eq!(
        parse_instruction("set r0 into account[;"),
        Some(Instruction::Unknown("set r0 into account[".to_string()))
    );
    assert_eq!(
        parse_instruction("get.or_use account[ 0u64 into r2;"),
        Some(Instruction::Unknown("get.or_use account[ 0u64 into r2".to_string()))
    );
    assert_eq!(
        parse_instruction("set r0 into account[é];"),
        Some(Instruction::MappingSet { value: "r0".to_string(), mapping: "account".to_string(), key: "é".to_string() })
    );
}

#[test]
fn out_of_range_literals_read_as_nothing() {
    assert_eq!(parse_literal("256u8"), None);
    assert_eq!(parse_literal("255u8"), Some(SymValue::U8(255)));
    assert_eq!(parse_literal("4294967296u32"), None);
}
