use leo_zap::fuzzer::{CaseRecord, FuzzConfig, FuzzOutcome, FuzzReport, FuzzRunner, FuzzStep};
use leo_zap::leo_runner::{leo_run_result, LeoRunResult};
use leo_zap::parser::parse;

const BANK: &str = r#"program bank.aleo;

function deposit:
    input r0 as u64.public;
    input r1 as u64.public;
    add r0 r1 into r2;
    output r2 as u64.public;

function withdraw:
    input r0 as u64.public;
    input r1 as u64.public;
    sub r0 r1 into r2;
    output r2 as u64.public;
"#;

fn runner(config: FuzzConfig) -> FuzzRunner {
    let contract = parse(BANK).unwrap();
    FuzzRunner::new(config, contract, BANK.to_string())
}

fn config(runs: u32, seed: u64) -> FuzzConfig {
    FuzzConfig { runs, seed, ..FuzzConfig::default() }
}

/// Runs every case, answering each request for `leo run` with `answer`.
fn drive(r: &FuzzRunner, answer: &dyn Fn(&str) -> Option<LeoRunResult>) -> (FuzzReport, Vec<CaseRecord>, u32) {
    let mut p = r.start();
    let mut leo = None;
    let mut records = Vec::new();
    let mut asked = 0;
    loop {
        match r.step(&mut p, leo.take()) {
            FuzzStep::VerifyWithLeo { function, .. } => {
                asked += 1;
                leo = answer(&function);
            }
            FuzzStep::Recorded(rec) => records.push(rec),
            FuzzStep::Finished => break,
        }
    }
    assert!(matches!(r.step(&mut p, None), FuzzStep::Finished));
    let again = FuzzRunner::new(r.config.clone(), r.contract.clone(), r.raw_content.clone());
    (again.finish(p), records, asked)
}

#[test]
fn run_accounts_for_every_case() {
    let r = runner(config(11, 42));
    let (report, records, asked) = drive(&r, &|_: &str| None);
    assert_eq!(asked, 0);
    assert_eq!(records.len(), 22);
    assert_eq!(report.total_runs, 22);
    assert_eq!(report.errors, 0);
    assert_eq!(report.passed + report.violations, 22);
    assert_eq!(report.per_function.len(), 2);
    assert_eq!(report.per_function[0].0, "deposit");
    assert_eq!(report.per_function[0].1, 11);
    assert_eq!(report.per_function[1].0, "withdraw");
    assert_eq!(report.per_function[1].1, 11);
    for (_, runs, passed, violations) in &report.per_function {
        assert_eq!(passed + violations, *runs);
    }
    assert_eq!(report.violation_results.len() as u32, report.violations);
    assert_eq!((report.zk_verifications, report.zk_proofs_generated, report.zk_mismatches), (0, 0, 0));
    for rec in &records {
        assert_eq!(rec.counted_pass, rec.violations.is_empty());
        assert_eq!(rec.symbolic_pass, rec.violations.is_empty());
        assert_eq!(rec.input_strings.len(), 2);
    }
    let recorded_passes = records.iter().filter(|c| c.counted_pass).count() as u32;
    assert_eq!(recorded_passes, report.passed);
    for res in &report.violation_results {
        match &res.outcome {
            FuzzOutcome::Violation { invariant_name, detail } => {
                assert_eq!(invariant_name, "symbolic");
                if res.function == "deposit" {
                    assert!(detail.starts_with("OVERFLOW"));
                } else {
                    assert!(detail.starts_with("UNDERFLOW"));
                }
            }
            _ => panic!("only violations are recorded"),
        }
    }
}

#[test]
fn same_seed_same_report() {
    let (a, _, _) = drive(&runner(config(40, 7)), &|_: &str| None);
    let (b, _, _) = drive(&runner(config(40, 7)), &|_: &str| None);
    assert_eq!(a.per_function, b.per_function);
    assert_eq!(a.passed, b.passed);
    assert_eq!(a.violations, b.violations);
    let strings = |r: &FuzzReport| r.violation_results.iter().map(|x| x.input_strings.clone()).collect::<Vec<_>>();
    assert_eq!(strings(&a), strings(&b));
}

#[test]
fn filter_keeps_one_function() {
    let mut c = config(9, 3);
    c.function_filter = Some("withdraw".to_string());
    let (report, records, _) = drive(&runner(c), &|_: &str| None);
    assert_eq!(report.per_function.len(), 1);
    assert_eq!(report.per_function[0].0, "withdraw");
    assert_eq!(report.per_function[0].1, 9);
    assert!(records.iter().all(|rec| rec.function == "withdraw"));
}

#[test]
fn unknown_filter_runs_nothing() {
    let mut c = config(9, 3);
    c.function_filter = Some("nope".to_string());
    let (report, records, _) = drive(&runner(c), &|_: &str| None);
    assert_eq!(report.total_runs, 0);
    assert!(report.per_function.is_empty());
    assert!(records.is_empty());
}

#[test]
fn leo_results_are_folded_in() {
    let mut c = config(10, 5);
    c.project_dir = Some("/nonexistent/project".to_string());
    c.verify_all_with_leo = true;
    // Every run of `leo run` passes with a proof.
    let ok = |_: &str| Some(leo_run_result(0, "➡️  Output\n\n • 5u64\n".to_string(), String::new(), 3));
    let (report, records, asked) = drive(&runner(c), &ok);
    assert_eq!(asked, 20);
    assert_eq!(report.zk_verifications, 20);
    assert_eq!(report.zk_proofs_generated, 20);
    assert!(records.iter().all(|rec| rec.verified && rec.proof_generated));
    // Every case that failed symbolically is a false positive now, and
    // counts as a violation through its mismatch.
    let failed = records.iter().filter(|rec| !rec.symbolic_pass).count() as u32;
    assert_eq!(report.zk_mismatches, failed);
    assert_eq!(report.violations, failed);
    for res in &report.violation_results {
        match &res.outcome {
            FuzzOutcome::Violation { invariant_name, .. } => {
                assert_eq!(invariant_name, "zk_mismatch:SymbolicFailedButLeoPassed")
            }
            _ => panic!("only violations are recorded"),
        }
    }
}

#[test]
fn missing_leo_leaves_cases_unverified() {
    let mut c = config(4, 5);
    c.project_dir = Some("/nonexistent/project".to_string());
    c.verify_all_with_leo = true;
    let (report, records, asked) = drive(&runner(c), &|_: &str| None);
    assert_eq!(asked, 8);
    assert_eq!(report.zk_verifications, 0);
    assert!(records.iter().all(|rec| !rec.verified));
    assert_eq!(report.passed + report.violations, 8);
}

#[test]
fn runs_must_fit_in_a_count() {
    assert!(runner(config(u32::MAX / 2, 1)).runs_fit());
    assert!(!runner(config(u32::MAX / 2 + 1, 1)).runs_fit());
    let mut c = config(u32::MAX, 1);
    c.function_filter = Some("deposit".to_string());
    assert!(runner(c).runs_fit());
}
