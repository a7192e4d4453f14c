use convergio_longrunning::types::{
    is_terminal_text, same_text, stage_or_running, validate_execution_id, ExecutionStage,
    ProtocolError, MAX_EXECUTION_ID_LEN,
};

#[test]
fn execution_stage_roundtrip() {
    let stages = [
        ExecutionStage::Starting,
        ExecutionStage::Running,
        ExecutionStage::Checkpointing,
        ExecutionStage::Paused,
        ExecutionStage::Resuming,
        ExecutionStage::Completing,
        ExecutionStage::Failed,
        ExecutionStage::Reaped,
    ];
    for stage in &stages {
        let s = stage.as_str();
        let parsed = ExecutionStage::parse(s).unwrap();
        assert_eq!(&parsed, stage);
        assert_eq!(stage.to_string(), s);
    }
}

#[test]
fn execution_stage_parse_invalid() {
    assert!(ExecutionStage::parse("bogus").is_none());
}

#[test]
fn terminal_stages() {
    assert!(!ExecutionStage::Running.is_terminal());
    assert!(ExecutionStage::Completing.is_terminal());
    assert!(ExecutionStage::Failed.is_terminal());
    assert!(ExecutionStage::Reaped.is_terminal());
}

#[test]
fn stage_names_are_lowercase_words() {
    assert_eq!(ExecutionStage::Starting.as_str(), "starting");
    assert_eq!(ExecutionStage::Checkpointing.as_str(), "checkpointing");
    assert_eq!(ExecutionStage::Reaped.to_string(), "reaped");
}

#[test]
fn parse_is_case_sensitive_and_exact() {
    assert!(ExecutionStage::parse("Running").is_none());
    assert!(ExecutionStage::parse("running ").is_none());
    assert!(ExecutionStage::parse("").is_none());
    assert_eq!(ExecutionStage::parse("paused"), Some(ExecutionStage::Paused));
}

#[test]
fn non_terminal_stages() {
    assert!(!ExecutionStage::Starting.is_terminal());
    assert!(!ExecutionStage::Checkpointing.is_terminal());
    assert!(!ExecutionStage::Paused.is_terminal());
    assert!(!ExecutionStage::Resuming.is_terminal());
}

#[test]
fn unknown_stage_reads_as_running() {
    assert_eq!(stage_or_running("bogus"), ExecutionStage::Running);
    assert_eq!(stage_or_running("failed"), ExecutionStage::Failed);
}

#[test]
fn terminal_text_matches_terminal_names_only() {
    assert!(is_terminal_text("completing"));
    assert!(is_terminal_text("failed"));
    assert!(is_terminal_text("reaped"));
    assert!(!is_terminal_text("running"));
    assert!(!is_terminal_text("bogus"));
    assert!(!is_terminal_text("Reaped"));
}

#[test]
fn same_text_compares_whole_strings() {
    assert!(same_text("abc", "abc"));
    assert!(!same_text("abc", "abcd"));
    assert!(!same_text("abc", "abd"));
}

fn invalid_detail(r: Result<(), ProtocolError>) -> String {
    match r {
        Err(ProtocolError::InvalidInput(m)) => m,
        _ => panic!("expected an invalid-input refusal"),
    }
}

#[test]
fn validate_accepts_plain_ids() {
    assert!(validate_execution_id("e1").is_ok());
    assert!(validate_execution_id("child-1.v2_final").is_ok());
    assert!(validate_execution_id(&"a".repeat(MAX_EXECUTION_ID_LEN)).is_ok());
}

#[test]
fn validate_rejects_empty_id() {
    let m = invalid_detail(validate_execution_id(""));
    assert!(m.contains("must not be empty"));
}

#[test]
fn validate_rejects_long_id() {
    let m = invalid_detail(validate_execution_id(&"a".repeat(MAX_EXECUTION_ID_LEN + 1)));
    assert!(m.contains("too long"));
}

#[test]
fn validate_rejects_path_characters() {
    let m = invalid_detail(validate_execution_id("../etc/passwd"));
    assert!(m.contains("invalid characters"));
    assert!(validate_execution_id("a b").is_err());
    assert!(validate_execution_id("é").is_err());
}

#[test]
fn protocol_error_displays_kind_and_detail() {
    let e = ProtocolError::NotFound("nope".to_string());
    assert_eq!(e.to_string(), "not found: nope");
    assert_eq!(e.detail(), "nope");
    let e = ProtocolError::InvalidInput("bad".to_string());
    assert_eq!(e.to_string(), "invalid input: bad");
}

#[test]
fn stored_stage_reads_back() {
    for stage in [
        ExecutionStage::Starting,
        ExecutionStage::Running,
        ExecutionStage::Checkpointing,
        ExecutionStage::Paused,
        ExecutionStage::Resuming,
        ExecutionStage::Completing,
        ExecutionStage::Failed,
        ExecutionStage::Reaped,
    ] {
        assert_eq!(stage_or_running(stage.as_str()), stage);
        assert_eq!(is_terminal_text(stage.as_str()), stage.is_terminal());
    }
}
