use convergio_longrunning::ext::{health_verdict, HealthStatus};
use convergio_longrunning::routes::{error_response, http_status, kind_of, FailureKind};
use convergio_longrunning::types::ProtocolError;

#[test]
fn client_errors_are_explained() {
    assert_eq!(
        error_response(FailureKind::NotFound, "not found: e1".to_string()),
        (404, "not found: e1".to_string())
    );
    assert_eq!(http_status(FailureKind::InvalidInput), 400);
    assert_eq!(
        error_response(FailureKind::BudgetExceeded, "budget exceeded".to_string()),
        (402, "budget exceeded".to_string())
    );
}

#[test]
fn internal_errors_are_hidden() {
    for kind in [
        FailureKind::Database,
        FailureKind::Pool,
        FailureKind::Json,
        FailureKind::Stale,
        FailureKind::Internal,
    ] {
        assert_eq!(
            error_response(kind, "database: disk I/O error".to_string()),
            (500, "internal server error".to_string())
        );
    }
}

#[test]
fn refusals_map_to_their_kind() {
    assert_eq!(kind_of(&ProtocolError::NotFound("x".to_string())), FailureKind::NotFound);
    assert_eq!(
        kind_of(&ProtocolError::InvalidInput("x".to_string())),
        FailureKind::InvalidInput
    );
}

#[test]
fn health_ok_with_memory_pool() {
    assert!(matches!(health_verdict(None, true), HealthStatus::Healthy));
}

#[test]
fn health_degraded_or_down() {
    match health_verdict(None, false) {
        HealthStatus::Degraded(r) => assert_eq!(r, "lr_executions table inaccessible"),
        other => panic!("unexpected {:?}", other),
    }
    match health_verdict(Some("timed out".to_string()), true) {
        HealthStatus::Down(r) => assert_eq!(r, "pool error: timed out"),
        other => panic!("unexpected {:?}", other),
    }
}
