use leo_zap::fuzzer::{FuzzConfig, FuzzOutcome, FuzzReport, FuzzResult};
use leo_zap::parser::parse;
use leo_zap::report::{check_report_segments, contract_segments, report_segments, Style};
use leo_zap::spec::{AssertionDef, AssertionType, ContractMeta, InvariantSettings, InvariantSpec, InvariantToggle};

fn text(segments: &[(String, Style)]) -> String {
    segments.iter().map(|(t, _)| t.as_str()).collect()
}

fn rates(report: &FuzzReport) -> Vec<String> {
    report
        .per_function
        .iter()
        .map(|(_, runs, passed, _)| if *runs > 0 { format!("{}", passed * 100 / runs) } else { "100".to_string() })
        .collect()
}

fn output(report: &FuzzReport) -> String {
    text(&report_segments(report, &rates(report)))
}

#[test]
fn test_fuzz_report_empty() {
    let report = FuzzReport {
        config: FuzzConfig::default(),
        total_runs: 100,
        passed: 100,
        violations: 0,
        errors: 0,
        per_function: vec![("mint_private".to_string(), 100, 100, 0)],
        violation_results: vec![],
        zk_verifications: 0,
        zk_proofs_generated: 0,
        zk_mismatches: 0,
        zk_mismatch_details: vec![],
    };

    let output = output(&report);
    assert!(output.contains("⚡ Fuzz Report"));
    assert!(output.contains("mint_private"));
    assert!(output.contains("100"));
}

#[test]
fn test_fuzz_report_with_violations() {
    let report = FuzzReport {
        config: FuzzConfig::default(),
        total_runs: 200,
        passed: 180,
        violations: 20,
        errors: 0,
        per_function: vec![("transfer_private".to_string(), 200, 180, 20)],
        violation_results: vec![FuzzResult {
            function: "transfer_private".to_string(),
            inputs: vec![],
            input_strings: vec!["token { ... }".to_string(), "aleo1...".to_string(), "100u64".to_string()],
            outcome: FuzzOutcome::Violation {
                invariant_name: "fuzz".to_string(),
                detail: "UNDERFLOW in transfer_private: sub r0.amount r2 — 50 < 100 would underflow u64".to_string(),
            },
        }],
        zk_verifications: 0,
        zk_proofs_generated: 0,
        zk_mismatches: 0,
        zk_mismatch_details: vec![],
    };

    let output = output(&report);
    assert!(output.contains("UNDERFLOW"));
    assert!(output.contains("transfer_private"));
    assert!(output.contains("20 violations"));
}

#[test]
fn test_fuzz_report_with_zk_stats() {
    let report = FuzzReport {
        config: FuzzConfig::default(),
        total_runs: 100,
        passed: 95,
        violations: 5,
        errors: 0,
        per_function: vec![("mint_private".to_string(), 100, 95, 5)],
        violation_results: vec![],
        zk_verifications: 50,
        zk_proofs_generated: 47,
        zk_mismatches: 3,
        zk_mismatch_details: vec![],
    };

    let output = output(&report);
    assert!(output.contains("Privacy Capability Used"));
    assert!(output.contains("50 ZK proof verifications"));
    assert!(output.contains("47 ZK proofs generated"));
    assert!(output.contains("3 Mismatches"));
}

fn violation(function: &str, detail: &str) -> FuzzResult {
    FuzzResult {
        function: function.to_string(),
        inputs: vec![],
        input_strings: vec!["1u64".to_string(), "2u64".to_string()],
        outcome: FuzzOutcome::Violation { invariant_name: "symbolic".to_string(), detail: detail.to_string() },
    }
}

#[test]
fn report_layout_is_exact() {
    let mut results = vec![violation("f", "BALANCE_MISMATCH x")];
    for _ in 0..6 {
        results.push(violation("g", "UNDERFLOW y"));
    }
    let report = FuzzReport {
        config: FuzzConfig { seed: 9, ..FuzzConfig::default() },
        total_runs: 10,
        passed: 3,
        violations: 7,
        errors: 0,
        per_function: vec![("f".to_string(), 4, 3, 1), ("g".to_string(), 6, 0, 6)],
        violation_results: results,
        zk_verifications: 0,
        zk_proofs_generated: 0,
        zk_mismatches: 0,
        zk_mismatch_details: vec![],
    };
    let segs = report_segments(&report, &vec!["75".to_string(), "0".to_string()]);
    let underflow = "  ▸ g: UNDERFLOW y\n    inputs: 1u64, 2u64\n";
    let expected = format!(
        "⚡ Fuzz Report (seed: 9, runs: 10)\n\n  ⚠️  f: 3/4 passed (75%) — 1 violations\n  ⚠️  g: 0/6 passed (0%) — 6 violations\n\nViolations:\n{}  ... and 2 more violations\n\nSummary:\n  Total runs: 10\n  3 Passed\n  7 Violations\n",
        underflow.repeat(5)
    );
    assert_eq!(text(&segs), expected);
    assert!(segs.contains(&("Violations:".to_string(), Style::RedBold)));
    assert!(segs.contains(&("f".to_string(), Style::Magenta)));
}

#[test]
fn check_report_lists_checks_and_assertions() {
    let spec = InvariantSpec {
        contract: ContractMeta { name: "token.aleo".to_string() },
        invariants: InvariantSettings {
            default: InvariantToggle::default(),
            functions: vec![(
                "mint".to_string(),
                InvariantToggle { balance_conservation: Some(false), ..InvariantToggle::default() },
            )],
        },
        assertions: vec![AssertionDef {
            assertion_type: AssertionType::AmountConserved,
            function: "transfer".to_string(),
            description: "amounts add up".to_string(),
            field: None,
            min: None,
            max: None,
        }],
    };
    let report = FuzzReport {
        config: FuzzConfig { seed: 4, ..FuzzConfig::default() },
        total_runs: 2,
        passed: 1,
        violations: 1,
        errors: 0,
        per_function: vec![("mint".to_string(), 1, 1, 0), ("transfer".to_string(), 1, 0, 1)],
        violation_results: vec![violation("transfer", "AMOUNT_NOT_CONSERVED z")],
        zk_verifications: 0,
        zk_proofs_generated: 0,
        zk_mismatches: 0,
        zk_mismatch_details: vec![],
    };
    let segs = check_report_segments(&report, &vec!["100".to_string(), "0".to_string()], &spec);
    assert_eq!(
        text(&segs),
        "Invariant Check Report (spec: token.aleo)\n\nRan 2 runs (seed: 4)\n\n  PASS mint: 1/1 (100%)  invariants: [owner, overflow]\n  FAIL transfer: 0/1 (0%)  invariants: [balance, owner, overflow]\n\nCustom Assertions: (1 defined)\n  ▸ [amountconserved] transfer — amounts add up\n\nViolations:\n  ▸ [symbolic] transfer: AMOUNT_NOT_CONSERVED z\n\nResult: 1 passed, 1 violations\n"
    );
}

#[test]
fn contract_listing_shows_blocks() {
    let c = parse(
        "program token.aleo;\nrecord token:\n    owner as address.private;\n    amount as u64.private;\nmapping account:\n    key as address.public;\n    value as u64.public;\nfunction mint:\n    input r0 as u64.public;\n    output r1 as token.record;\nfunction burn:\n    input r0 as token.record;\nfinalize mint:\n    input r0 as address.public;\n",
    )
    .unwrap();
    assert_eq!(
        text(&contract_segments(&c)),
        "📊 Contract: token.aleo\n\nRecords:\n  token (owner: address.private, amount: u64.private)\n\nMappings:\n  account (key: address.public, value: u64.public)\n\nFunctions:\n  mint(u64.public) → token.record\n  burn(token.record) → ()\n\nFinalizes:\n  mint(address)\n"
    );
}
