use leo_zap::web::{effective_seed, filled_in, FuzzRequest};

fn request() -> FuzzRequest {
    FuzzRequest {
        file_path: "build/token.aleo".to_string(),
        spec_path: Some(String::new()),
        project_dir: Some(String::new()),
        source_dir: None,
        runs: 50,
        seed: 7,
        function_filter: Some("mint_public".to_string()),
        verify_all: true,
    }
}

#[test]
fn seed_zero_takes_the_clock() {
    assert_eq!(effective_seed(0, Some(1_700_000_000)), 1_700_000_000);
    assert_eq!(effective_seed(0, None), 42);
    assert_eq!(effective_seed(9, Some(1_700_000_000)), 9);
    assert_eq!(effective_seed(9, None), 9);
}

#[test]
fn empty_fields_count_as_absent() {
    assert_eq!(filled_in(&None), None);
    assert_eq!(filled_in(&Some(String::new())), None);
    assert_eq!(filled_in(&Some("a".to_string())), Some("a".to_string()));
}

#[test]
fn request_configures_the_run() {
    let req = request();
    assert_eq!(req.spec_file(), None);
    let config = req.config(7, None);
    assert_eq!(config.runs, 50);
    assert_eq!(config.seed, 7);
    assert_eq!(config.function_filter, Some("mint_public".to_string()));
    assert!(config.include_edge_cases);
    assert!(config.spec.is_none());
    assert!(config.project_dir.is_none());
    assert!(config.verify_all_with_leo);
    assert!(config.source_dir.is_none());
}

#[test]
fn filled_request_fields_are_kept() {
    let mut req = request();
    req.spec_path = Some("spec.toml".to_string());
    req.project_dir = Some("contracts/token".to_string());
    req.source_dir = Some(String::new());
    req.function_filter = Some(String::new());
    assert_eq!(req.spec_file(), Some("spec.toml".to_string()));
    let config = req.config(3, None);
    assert_eq!(config.project_dir, Some("contracts/token".to_string()));
    assert_eq!(config.source_dir, Some(String::new()));
    assert_eq!(config.function_filter, None);
}
