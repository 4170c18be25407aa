use leo_zap::parser::{Contract, FunctionDef};
use leo_zap::spec::{
    validate_spec, AssertionDef, AssertionType, ContractMeta, InvariantSettings, InvariantSpec,
    InvariantToggle,
};

#[test]
fn test_toggle_resolve_no_override() {
    let settings = InvariantSettings {
        default: InvariantToggle {
            balance_conservation: Some(true),
            zero_amount: Some(false),
            ..Default::default()
        },
        functions: vec![],
    };

    let resolved = settings.resolve("any_function");
    assert_eq!(resolved.balance_conservation, Some(true));
    assert_eq!(resolved.zero_amount, Some(false));
}

#[test]
fn test_toggle_resolve_with_override() {
    let functions = vec![(
        "mint_private".to_string(),
        InvariantToggle {
            balance_conservation: Some(false),
            ..Default::default()
        },
    )];

    let settings = InvariantSettings {
        default: InvariantToggle {
            balance_conservation: Some(true),
            owner_integrity: Some(true),
            ..Default::default()
        },
        functions,
    };

    let resolved = settings.resolve("mint_private");
    assert_eq!(resolved.balance_conservation, Some(false));
    assert_eq!(resolved.owner_integrity, Some(true));
}

#[test]
fn test_toggle_resolve_partial_override() {
    let functions = vec![(
        "transfer_private".to_string(),
        InvariantToggle {
            zero_amount: Some(true),
            ..Default::default()
        },
    )];

    let settings = InvariantSettings {
        default: InvariantToggle {
            balance_conservation: Some(true),
            owner_integrity: Some(true),
            zero_amount: Some(false),
            overflow_check: Some(true),
            ..Default::default()
        },
        functions,
    };

    let resolved = settings.resolve("transfer_private");
    assert_eq!(resolved.balance_conservation, Some(true));
    assert_eq!(resolved.owner_integrity, Some(true));
    assert_eq!(resolved.zero_amount, Some(true));
    assert_eq!(resolved.overflow_check, Some(true));
}

#[test]
fn test_is_enabled_defaults() {
    let toggle = InvariantToggle::default();

    assert!(toggle.is_enabled("balance_conservation"));
    assert!(toggle.is_enabled("owner_integrity"));
    assert!(toggle.is_enabled("overflow_check"));

    assert!(!toggle.is_enabled("zero_amount"));
    assert!(!toggle.is_enabled("self_transfer"));

    assert!(toggle.is_enabled("some_unknown_check"));
}

#[test]
fn test_is_enabled_explicit() {
    let toggle = InvariantToggle {
        balance_conservation: Some(false),
        zero_amount: Some(true),
        ..Default::default()
    };

    assert!(!toggle.is_enabled("balance_conservation"));
    assert!(toggle.is_enabled("zero_amount"));
    assert!(toggle.is_enabled("owner_integrity"));
}

fn make_test_contract() -> Contract {
    Contract {
        program: "token.aleo".to_string(),
        records: vec![],
        mappings: vec![],
        functions: vec![
            FunctionDef {
                name: "mint_private".to_string(),
                inputs: vec![],
                outputs: vec![],
            },
            FunctionDef {
                name: "transfer_private".to_string(),
                inputs: vec![],
                outputs: vec![],
            },
        ],
        finalizes: vec![],
    }
}

#[test]
fn test_validate_spec_valid() {
    let spec = InvariantSpec {
        contract: ContractMeta {
            name: "token.aleo".to_string(),
        },
        invariants: InvariantSettings::default(),
        assertions: vec![AssertionDef {
            assertion_type: AssertionType::AmountConserved,
            function: "transfer_private".to_string(),
            description: "".to_string(),
            field: None,
            min: None,
            max: None,
        }],
    };

    let warnings = validate_spec(&spec, &make_test_contract());
    assert!(warnings.is_empty(), "expected no warnings, got {:?}", warnings);
}

#[test]
fn test_validate_spec_name_mismatch() {
    let spec = InvariantSpec {
        contract: ContractMeta {
            name: "wrong.aleo".to_string(),
        },
        invariants: InvariantSettings::default(),
        assertions: vec![],
    };

    let warnings = validate_spec(&spec, &make_test_contract());
    assert_eq!(warnings.len(), 1);
    assert!(warnings[0].contains("does not match"));
}

#[test]
fn test_validate_spec_unknown_function() {
    let functions = vec![("nonexistent_func".to_string(), InvariantToggle::default())];
    let spec = InvariantSpec {
        contract: ContractMeta {
            name: "token.aleo".to_string(),
        },
        invariants: InvariantSettings {
            default: InvariantToggle::default(),
            functions,
        },
        assertions: vec![AssertionDef {
            assertion_type: AssertionType::FieldSet,
            function: "also_nonexistent".to_string(),
            description: "".to_string(),
            field: None,
            min: None,
            max: None,
        }],
    };

    let warnings = validate_spec(&spec, &make_test_contract());
    assert_eq!(warnings.len(), 2);
    assert!(warnings[0].contains("nonexistent_func"));
    assert!(warnings[1].contains("also_nonexistent"));
}

// ---------------------------------------------------------------------------
// Further cases
// ---------------------------------------------------------------------------

#[test]
fn validation_warnings_read_exactly() {
    let spec = InvariantSpec {
        contract: ContractMeta {
            name: "wrong.aleo".to_string(),
        },
        invariants: InvariantSettings {
            default: InvariantToggle::default(),
            functions: vec![("ghost".to_string(), InvariantToggle::default())],
        },
        assertions: vec![],
    };
    let warnings = validate_spec(&spec, &make_test_contract());
    assert_eq!(
        warnings,
        vec![
            "spec contract name 'wrong.aleo' does not match contract program 'token.aleo'".to_string(),
            "function 'ghost' in spec.invariants.functions not found in contract".to_string(),
        ]
    );
}

#[test]
fn override_sets_only_what_it_names() {
    let settings = InvariantSettings {
        default: InvariantToggle {
            zero_amount: Some(true),
            self_transfer: Some(true),
            ..Default::default()
        },
        functions: vec![(
            "f".to_string(),
            InvariantToggle {
                self_transfer: Some(false),
                private_param_usage: Some(true),
                ..Default::default()
            },
        )],
    };
    let t = settings.resolve("f");
    assert_eq!(t.zero_amount, Some(true));
    assert_eq!(t.self_transfer, Some(false));
    assert_eq!(t.private_param_usage, Some(true));
    assert_eq!(t.balance_conservation, None);
    assert!(t.is_enabled("private_param_usage"));
    assert!(!t.is_enabled("self_transfer"));
    assert!(t.is_enabled("record_consumption"));
    assert!(!InvariantToggle::default().is_enabled("private_param_usage"));
    assert_eq!(AssertionType::RangeCheck.label(), "rangecheck");
    assert_eq!(AssertionType::NoFieldNone.label(), "nofieldnone");
}
