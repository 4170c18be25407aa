use leo_zap::leo_runner::{
    compare_results, extract_transaction_id, leo_run_result, parse_output_records, snarkvm_result,
    LeoRunResult, MismatchKind,
};

#[test]
fn test_parse_output_records() {
    let sample = r#"
 ➡️  Output

 • {
  owner: aleo1abc.private,
  amount: 100u64.private,
  _nonce: 12345group.public,
  _version: 1u8.public
}
"#;
    let records = parse_output_records(sample);
    assert_eq!(records.len(), 1);
    assert_eq!(records[0].record_type, "token");
    assert_eq!(records[0].fields.len(), 4);
    assert_eq!(records[0].fields[0].0, "owner");
    assert!(records[0].fields[0].1.contains("aleo1"));
    assert_eq!(records[0].fields[1].0, "amount");
    assert!(records[0].fields[1].1.contains("100"));
}

#[test]
fn test_parse_empty_output() {
    let records = parse_output_records("no output here");
    assert!(records.is_empty());
}

#[test]
fn test_compare_results_both_pass() {
    let leo = LeoRunResult {
        exit_code: 0,
        stdout: "Output\nowner: aleo1...".to_string(),
        stderr: "".to_string(),
        proof_generated: true,
        output_records: vec![],
        elapsed_ms: 100,
    };
    let mismatches = compare_results(true, &[], &leo);
    assert!(mismatches.is_empty(), "Expected no mismatches, got: {:?}", mismatches);
}

#[test]
fn test_compare_results_leo_crashed() {
    let leo = LeoRunResult {
        exit_code: 101,
        stdout: "".to_string(),
        stderr: "thread main panicked at snarkvm...".to_string(),
        proof_generated: false,
        output_records: vec![],
        elapsed_ms: 100,
    };
    let mismatches = compare_results(true, &[], &leo);
    assert_eq!(mismatches.len(), 1);
    assert_eq!(mismatches[0].kind, MismatchKind::SymbolicPassedButLeoCrashed);
}

#[test]
fn test_compare_results_false_positive() {
    let leo = LeoRunResult {
        exit_code: 0,
        stdout: "Output".to_string(),
        stderr: "".to_string(),
        proof_generated: true,
        output_records: vec![],
        elapsed_ms: 100,
    };
    let violations = vec!["UNDERFLOW".to_string()];
    let mismatches = compare_results(false, &violations, &leo);
    assert_eq!(mismatches.len(), 1);
    assert_eq!(mismatches[0].kind, MismatchKind::SymbolicFailedButLeoPassed);
}

// ---------------------------------------------------------------------------
// Further cases
// ---------------------------------------------------------------------------

#[test]
fn crash_detail_and_panic_lines() {
    let leo = LeoRunResult {
        exit_code: 3,
        stdout: "".to_string(),
        stderr: "a\nb\nc\nd".to_string(),
        proof_generated: false,
        output_records: vec![],
        elapsed_ms: 1,
    };
    let m = compare_results(true, &[], &leo);
    assert_eq!(m.len(), 1);
    assert_eq!(m[0].detail, "Symbolic execution passed, but leo run crashed (exit 3): a; b; c");

    let leo2 = LeoRunResult {
        exit_code: 1,
        stdout: "".to_string(),
        stderr: "x\nthread panicked here\nError: one\nError: two".to_string(),
        proof_generated: false,
        output_records: vec![],
        elapsed_ms: 1,
    };
    let m2 = compare_results(false, &["V".to_string()], &leo2);
    assert_eq!(m2.len(), 1);
    assert_eq!(m2[0].kind, MismatchKind::ProofGenerationFailed);
    assert_eq!(m2[0].detail, "leo run panicked during ZK proof generation: thread panicked here; Error: one");
    assert_eq!(m2[0].kind.name(), "ProofGenerationFailed");
}

#[test]
fn clean_run_without_proof() {
    let leo = leo_run_result(0, "nothing".to_string(), "".to_string(), 5);
    assert!(!leo.proof_generated);
    let m = compare_results(true, &[], &leo);
    assert_eq!(m.len(), 1);
    assert_eq!(m[0].detail, "leo run succeeded but no ZK proof was generated");

    let ok = leo_run_result(0, "x _nonce: 1".to_string(), "".to_string(), 5);
    assert!(ok.proof_generated);
    let failed = leo_run_result(1, "Output".to_string(), "".to_string(), 5);
    assert!(!failed.proof_generated);
}

#[test]
fn transaction_ids() {
    let id = format!("at1{}", "q".repeat(60));
    let out = format!("line one\n  transaction_id: {} done\n", id);
    assert_eq!(extract_transaction_id(&out), Some(id.clone()));
    assert_eq!(extract_transaction_id("at1short"), None);
    let r = snarkvm_result(0, format!("✅ {}", id), "".to_string(), 9);
    assert!(r.proof_valid);
    assert_eq!(r.transaction_id, Some(id));
    assert!(r.records.is_empty());
}

#[test]
fn several_records_and_types() {
    let out = " ➡️  Output\n • {\n  foo: 1u8,\n}\n {\n  owner: aleo1x.private,\n}\n}\n";
    let records = parse_output_records(out);
    assert_eq!(records.len(), 2);
    assert_eq!(records[0].record_type, "");
    assert_eq!(records[0].fields, vec![("foo".to_string(), "1u8".to_string())]);
    assert_eq!(records[1].record_type, "token");
}
