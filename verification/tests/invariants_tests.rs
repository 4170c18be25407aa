use leo_zap::invariants::{
    check_amount_conserved_custom, check_balance_conservation, check_field_set, check_function_invariants, check_no_field_none,
    check_owner_integrity, check_private_param_usage, check_range, check_record_consumption,
    check_zero_amount, has_record_input, is_transfer_function,
};
use leo_zap::parser::{Contract, FunctionDef, Param, Visibility};
use leo_zap::spec::{AssertionDef, AssertionType, ContractMeta, InvariantSettings, InvariantSpec, InvariantToggle};
use leo_zap::symbolic::SymbolicState;
use leo_zap::value::SymValue;

fn make_state_with_record(reg: &str, owner: &str, amount: u64) -> SymbolicState {
    let mut state = SymbolicState::new();
    let fields = vec![
        ("owner".to_string(), SymValue::Address(owner.to_string())),
        ("amount".to_string(), SymValue::U64(amount)),
    ];
    state.set(
        reg,
        SymValue::Record {
            record_type: "token".to_string(),
            fields,
        },
    );
    state
}

fn make_transfer_func(name: &str) -> FunctionDef {
    FunctionDef {
        name: name.to_string(),
        inputs: vec![],
        outputs: vec![],
    }
}

fn make_param(register: &str, ty: &str) -> Param {
    Param {
        register: register.to_string(),
        ty: ty.to_string(),
        visibility: Visibility::Unspecified,
    }
}

fn make_dummy_contract() -> Contract {
    Contract {
        program: "token.aleo".to_string(),
        records: vec![],
        mappings: vec![],
        functions: vec![],
        finalizes: vec![],
    }
}

fn make_spec_with_balance(enabled: bool) -> InvariantSpec {
    InvariantSpec {
        contract: ContractMeta {
            name: "token.aleo".to_string(),
        },
        invariants: InvariantSettings {
            default: InvariantToggle {
                balance_conservation: Some(enabled),
                owner_integrity: Some(false),
                zero_amount: Some(false),
                ..Default::default()
            },
            functions: vec![],
        },
        assertions: vec![],
    }
}

fn make_spec_with_zero_amount(enabled: bool) -> InvariantSpec {
    InvariantSpec {
        contract: ContractMeta {
            name: "token.aleo".to_string(),
        },
        invariants: InvariantSettings {
            default: InvariantToggle {
                balance_conservation: Some(false),
                owner_integrity: Some(false),
                zero_amount: Some(enabled),
                ..Default::default()
            },
            functions: vec![],
        },
        assertions: vec![],
    }
}

fn make_state_with_record_fields(state: &mut SymbolicState, reg: &str, owner: &str, amount: u64) {
    let fields = vec![
        ("owner".to_string(), SymValue::Address(owner.to_string())),
        ("amount".to_string(), SymValue::U64(amount)),
    ];
    state.set(
        reg,
        SymValue::Record {
            record_type: "token".to_string(),
            fields,
        },
    );
}

#[test]
fn test_check_without_spec_defaults() {
    let state = make_state_with_record("r4", "aleo1owner", 50);
    let func = make_transfer_func("transfer_private");
    let violations = check_function_invariants(&func, &state, &make_dummy_contract(), None);
    assert!(violations.is_none(), "Expected no violations, got {:?}", violations);
}

#[test]
fn test_check_without_spec_on_non_transfer() {
    let state = SymbolicState::new();
    let func = FunctionDef {
        name: "mint_private".to_string(),
        inputs: vec![],
        outputs: vec![],
    };
    let violations = check_function_invariants(&func, &state, &make_dummy_contract(), None);
    assert!(violations.is_none());
}

#[test]
fn test_check_with_spec_disabled_balance() {
    let mut state = SymbolicState::new();
    let in_fields = vec![
        ("owner".to_string(), SymValue::Address("aleo1sender".to_string())),
        ("amount".to_string(), SymValue::U64(100)),
    ];
    state.set(
        "r0",
        SymValue::Record {
            record_type: "token".to_string(),
            fields: in_fields,
        },
    );
    state.set("r2", SymValue::U64(50));

    let func = FunctionDef {
        name: "transfer_private".to_string(),
        inputs: vec![
            make_param("r0", "token.record"),
            make_param("r1", "address"),
            make_param("r2", "u64"),
        ],
        outputs: vec![make_param("r4", "token.record"), make_param("r5", "token.record")],
    };

    let spec = make_spec_with_balance(false);
    let violations = check_function_invariants(&func, &state, &make_dummy_contract(), Some(&spec));
    assert!(violations.is_none(), "Expected no violations with balance disabled, got {:?}", violations);
}

#[test]
fn test_check_with_spec_enabled_balance() {
    let mut state = SymbolicState::new();
    let in_fields = vec![
        ("owner".to_string(), SymValue::Address("aleo1sender".to_string())),
        ("amount".to_string(), SymValue::U64(100)),
    ];
    state.set(
        "r0",
        SymValue::Record {
            record_type: "token".to_string(),
            fields: in_fields,
        },
    );
    state.set("r2", SymValue::U64(100));

    let func = FunctionDef {
        name: "transfer_private".to_string(),
        inputs: vec![
            make_param("r0", "token.record"),
            make_param("r1", "address"),
            make_param("r2", "u64"),
        ],
        outputs: vec![make_param("r4", "token.record"), make_param("r5", "token.record")],
    };

    let spec = make_spec_with_balance(true);
    let violations = check_function_invariants(&func, &state, &make_dummy_contract(), Some(&spec));
    assert!(violations.is_none(), "Expected no violations, got {:?}", violations);
}

#[test]
fn test_check_with_spec_enabled_zero_amount() {
    let mut state = SymbolicState::new();
    state.set("r2", SymValue::U64(0));
    state.set("r3", SymValue::U64(100));

    let func = FunctionDef {
        name: "transfer_public".to_string(),
        inputs: vec![],
        outputs: vec![],
    };

    let spec = make_spec_with_zero_amount(true);
    let violations = check_function_invariants(&func, &state, &make_dummy_contract(), Some(&spec));
    assert!(violations.is_some(), "Expected zero-amount violation");
    let v = violations.unwrap();
    assert!(v[0].contains("ZERO_AMOUNT"), "Expected ZERO_AMOUNT, got: {}", v[0]);
}

#[test]
fn test_check_with_spec_disabled_zero_amount() {
    let mut state = SymbolicState::new();
    state.set("r2", SymValue::U64(0));

    let func = make_transfer_func("transfer_public");
    let spec = make_spec_with_zero_amount(false);

    let violations = check_function_invariants(&func, &state, &make_dummy_contract(), Some(&spec));
    assert!(violations.is_none(), "Zero amount check disabled, expected no violation");
}

#[test]
fn test_custom_field_set_passes() {
    let state = make_state_with_record("r4", "aleo1owner", 50);
    let func = FunctionDef {
        name: "mint_private".to_string(),
        inputs: vec![],
        outputs: vec![make_param("r4", "token.record")],
    };

    let assertion = AssertionDef {
        assertion_type: AssertionType::FieldSet,
        function: "mint_private".to_string(),
        description: "amount field must be set".to_string(),
        field: Some("amount".to_string()),
        min: None,
        max: None,
    };

    let violations = check_field_set(&assertion, &func, &state);
    assert!(violations.is_none(), "Expected no violations, got {:?}", violations);
}

#[test]
fn test_custom_field_set_fails() {
    let mut state = SymbolicState::new();
    state.set(
        "r4",
        SymValue::Record {
            record_type: "token".to_string(),
            fields: vec![],
        },
    );

    let func = FunctionDef {
        name: "mint_private".to_string(),
        inputs: vec![],
        outputs: vec![make_param("r4", "token.record")],
    };

    let assertion = AssertionDef {
        assertion_type: AssertionType::FieldSet,
        function: "mint_private".to_string(),
        description: "".to_string(),
        field: Some("amount".to_string()),
        min: None,
        max: None,
    };

    let violations = check_field_set(&assertion, &func, &state);
    assert!(violations.is_some());
    let v = violations.unwrap();
    assert!(v[0].contains("FIELD_NOT_SET"), "Expected FIELD_NOT_SET: {}", v[0]);
}

#[test]
fn test_custom_amount_conserved() {
    let mut state = SymbolicState::new();
    let in_fields = vec![
        ("owner".to_string(), SymValue::Address("aleo1sender".to_string())),
        ("amount".to_string(), SymValue::U64(100)),
    ];
    state.set(
        "r0",
        SymValue::Record {
            record_type: "token".to_string(),
            fields: in_fields,
        },
    );
    state.set("r2", SymValue::U64(50));

    make_state_with_record_fields(&mut state, "r4", "aleo1sender", 50);
    make_state_with_record_fields(&mut state, "r5", "aleo1receiver", 50);

    let func = FunctionDef {
        name: "transfer_private".to_string(),
        inputs: vec![
            make_param("r0", "token.record"),
            make_param("r1", "address"),
            make_param("r2", "u64"),
        ],
        outputs: vec![make_param("r4", "token.record"), make_param("r5", "token.record")],
    };

    let violations = check_amount_conserved_custom(&func, &state);
    assert!(violations.is_none(), "Expected balanced, got {:?}", violations);

    make_state_with_record_fields(&mut state, "r5", "aleo1receiver", 30);
    let violations = check_amount_conserved_custom(&func, &state);
    assert!(violations.is_some());
    let v = violations.unwrap();
    assert!(v[0].contains("AMOUNT_NOT_CONSERVED"), "Expected AMOUNT_NOT_CONSERVED: {}", v[0]);
}

#[test]
fn test_custom_no_field_none() {
    let state = make_state_with_record("r4", "aleo1owner", 50);
    let func = FunctionDef {
        name: "transfer_private".to_string(),
        inputs: vec![],
        outputs: vec![make_param("r4", "token.record")],
    };

    let assertion = AssertionDef {
        assertion_type: AssertionType::NoFieldNone,
        function: "transfer_private".to_string(),
        description: "".to_string(),
        field: Some("owner".to_string()),
        min: None,
        max: None,
    };
    let violations = check_no_field_none(&assertion, &func, &state);
    assert!(violations.is_none(), "Expected no violation, got {:?}", violations);
}

#[test]
fn test_custom_no_field_none_missing() {
    let state = SymbolicState::new();
    let func = FunctionDef {
        name: "transfer_private".to_string(),
        inputs: vec![],
        outputs: vec![make_param("r4", "token.record")],
    };

    let assertion = AssertionDef {
        assertion_type: AssertionType::NoFieldNone,
        function: "transfer_private".to_string(),
        description: "".to_string(),
        field: Some("nonexistent".to_string()),
        min: None,
        max: None,
    };
    let violations = check_no_field_none(&assertion, &func, &state);
    assert!(violations.is_none(), "No record in state should pass silently");
}

#[test]
fn test_custom_range_check_pass() {
    let state = make_state_with_record("r4", "aleo1owner", 100);
    let func = FunctionDef {
        name: "transfer_private".to_string(),
        inputs: vec![],
        outputs: vec![make_param("r4", "token.record")],
    };

    let assertion = AssertionDef {
        assertion_type: AssertionType::RangeCheck,
        function: "transfer_private".to_string(),
        description: "".to_string(),
        field: Some("amount".to_string()),
        min: Some(1),
        max: Some(1000),
    };
    let violations = check_range(&assertion, &func, &state);
    assert!(violations.is_none(), "Expected no violation, got {:?}", violations);
}

#[test]
fn test_custom_range_check_violation() {
    let state = make_state_with_record("r4", "aleo1owner", 0);
    let func = FunctionDef {
        name: "transfer_private".to_string(),
        inputs: vec![],
        outputs: vec![make_param("r4", "token.record")],
    };

    let assertion = AssertionDef {
        assertion_type: AssertionType::RangeCheck,
        function: "transfer_private".to_string(),
        description: "".to_string(),
        field: Some("amount".to_string()),
        min: Some(1),
        max: None,
    };
    let violations = check_range(&assertion, &func, &state);
    assert!(violations.is_some());
    let v = violations.unwrap();
    assert!(v[0].contains("RANGE_VIOLATION"), "Expected RANGE_VIOLATION: {}", v[0]);
}

#[test]
fn test_custom_assertion_wrong_function() {
    let state = make_state_with_record("r4", "aleo1owner", 0);
    let func = FunctionDef {
        name: "mint_private".to_string(),
        inputs: vec![],
        outputs: vec![make_param("r4", "token.record")],
    };

    let assertions = vec![AssertionDef {
        assertion_type: AssertionType::RangeCheck,
        function: "transfer_private".to_string(),
        description: "".to_string(),
        field: Some("amount".to_string()),
        min: Some(1),
        max: None,
    }];

    let spec = InvariantSpec {
        contract: ContractMeta {
            name: "token.aleo".to_string(),
        },
        invariants: InvariantSettings::default(),
        assertions,
    };

    let violations = check_function_invariants(&func, &state, &make_dummy_contract(), Some(&spec));
    assert!(violations.is_none(), "Assertion for other function should not fire");
}

#[test]
fn test_check_with_spec_mint_skips_balance() {
    let state = make_state_with_record("r2", "aleo1owner", 1000);
    let func = FunctionDef {
        name: "mint_private".to_string(),
        inputs: vec![make_param("r0", "address"), make_param("r1", "u64")],
        outputs: vec![make_param("r2", "token.record")],
    };

    let spec = make_spec_with_balance(false);
    let violations = check_function_invariants(&func, &state, &make_dummy_contract(), Some(&spec));
    assert!(violations.is_none(), "Mint should skip balance check: {:?}", violations);
}

#[test]
fn test_owner_integrity_valid() {
    let state = make_state_with_record("r4", "aleo1owner", 50);
    let func = FunctionDef {
        name: "transfer_private".to_string(),
        inputs: vec![],
        outputs: vec![make_param("r4", "token.record")],
    };

    let violations = check_owner_integrity(&func, &state);
    assert!(violations.is_none(), "Should be no violations, got {:?}", violations);
}

#[test]
fn test_owner_integrity_missing_owner() {
    let mut state = SymbolicState::new();
    state.set(
        "r4",
        SymValue::Record {
            record_type: "token".to_string(),
            fields: vec![],
        },
    );
    let func = FunctionDef {
        name: "transfer_private".to_string(),
        inputs: vec![],
        outputs: vec![make_param("r4", "token.record")],
    };

    let violations = check_owner_integrity(&func, &state);
    assert!(violations.is_some());
    let v = violations.unwrap();
    assert!(v[0].contains("MISSING_OWNER"));
}

#[test]
fn test_is_transfer_function() {
    assert!(is_transfer_function("transfer_private"));
    assert!(is_transfer_function("transfer_public"));
    assert!(is_transfer_function("transfer_private_to_public"));
    assert!(!is_transfer_function("mint_private"));
    assert!(!is_transfer_function("mint_public"));
}

// ---------------------------------------------------------------------------
// Further cases
// ---------------------------------------------------------------------------

#[test]
fn balance_mismatch_reported_for_created_tokens() {
    let mut state = make_state_with_record("r0", "aleo1a", 10);
    make_state_with_record_fields(&mut state, "r4", "aleo1a", 2_000_000_000);
    let func = FunctionDef {
        name: "transfer_private".to_string(),
        inputs: vec![make_param("r0", "token.record")],
        outputs: vec![make_param("r4", "token.record")],
    };
    let v = check_function_invariants(&func, &state, &make_dummy_contract(), None).unwrap();
    assert_eq!(
        v,
        vec!["BALANCE_MISMATCH in transfer_private: input total ~10, output total ~2000000000".to_string()]
    );
    assert!(has_record_input(&func));
}

#[test]
fn balance_mismatch_reported_for_lost_tokens() {
    let mut state = make_state_with_record("r0", "aleo1a", 100);
    make_state_with_record_fields(&mut state, "r1", "aleo1b", 50);
    let func = FunctionDef {
        name: "transfer_private".to_string(),
        inputs: vec![make_param("r0", "token.record")],
        outputs: vec![make_param("r1", "token.record")],
    };
    let v = check_balance_conservation(&func, &state).unwrap();
    assert_eq!(v, vec!["BALANCE_MISMATCH in transfer_private: input total ~100, output total ~50".to_string()]);
}

#[test]
fn balance_holds_when_records_split() {
    let mut state = make_state_with_record("r0", "aleo1a", 100);
    state.set("r2", SymValue::U64(30));
    make_state_with_record_fields(&mut state, "r4", "aleo1b", 30);
    make_state_with_record_fields(&mut state, "r5", "aleo1a", 70);
    let func = FunctionDef {
        name: "transfer_private".to_string(),
        inputs: vec![make_param("r0", "token.record"), make_param("r2", "u64")],
        outputs: vec![make_param("r4", "token.record"), make_param("r5", "token.record")],
    };
    assert_eq!(check_balance_conservation(&func, &state), None);
}

#[test]
fn zero_amount_messages() {
    let mut state = make_state_with_record("r1", "aleo1a", 0);
    state.set("r0", SymValue::U8(0));
    let v = check_zero_amount(&state).unwrap();
    assert_eq!(
        v,
        vec![
            "ZERO_AMOUNT: output record in r1 has amount = 0".to_string(),
            "ZERO_AMOUNT: register r0 holds zero (0u8)".to_string(),
        ]
    );
}

#[test]
fn consumption_and_private_params() {
    let mut state = make_state_with_record("r0", "aleo1a", 5);
    make_state_with_record_fields(&mut state, "r3", "aleo1a", 5);
    let func = FunctionDef {
        name: "transfer_private".to_string(),
        inputs: vec![
            make_param("r0", "token.record"),
            Param {
                register: "r1".to_string(),
                ty: "u64".to_string(),
                visibility: Visibility::Private,
            },
        ],
        outputs: vec![make_param("r3", "token.record")],
    };
    assert_eq!(
        check_record_consumption(&func, &state).unwrap(),
        vec!["RECORD_NOT_CONSUMED in transfer_private: input r0 and output r3 have identical owner+amount — possible double-spend".to_string()]
    );
    assert_eq!(
        check_private_param_usage(&func, &state).unwrap(),
        vec!["UNUSED_PRIVATE_PARAM in transfer_private: private param r1 (u64) was never accessed".to_string()]
    );
}

#[test]
fn range_compares_the_amount() {
    let state = make_state_with_record("r4", "aleo1owner", u64::MAX);
    let func = FunctionDef {
        name: "f".to_string(),
        inputs: vec![],
        outputs: vec![make_param("r4", "token.record")],
    };
    let assertion = AssertionDef {
        assertion_type: AssertionType::RangeCheck,
        function: "f".to_string(),
        description: "".to_string(),
        field: Some("amount".to_string()),
        min: Some(0),
        max: Some(1000),
    };
    assert_eq!(
        check_range(&assertion, &func, &state).unwrap(),
        vec!["RANGE_VIOLATION in f: output r4 field 'amount' = 18446744073709551615 (max = 1000)".to_string()]
    );
}
