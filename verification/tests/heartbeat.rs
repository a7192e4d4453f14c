use convergio_longrunning::heartbeat::{
    beat_outcome, find_stale, registration_interval, HeartbeatAge,
};
use convergio_longrunning::types::ProtocolError;

fn age(id: &str, interval_s: i64, elapsed_s: i64) -> HeartbeatAge {
    HeartbeatAge { execution_id: id.to_string(), interval_s, elapsed_s }
}

#[test]
fn register_and_beat() {
    assert_eq!(registration_interval("e1", 30).unwrap(), 30);
    assert!(beat_outcome("e1", 1).is_ok());
}

#[test]
fn register_zero_interval_rejected() {
    let err = registration_interval("e1", 0).unwrap_err();
    assert!(err.to_string().contains("interval_secs must be > 0"));
}

#[test]
fn register_empty_id_rejected() {
    let err = registration_interval("", 30).unwrap_err();
    assert!(err.to_string().contains("must not be empty"));
}

#[test]
fn register_huge_interval_rejected() {
    let err = registration_interval("e1", u64::MAX).unwrap_err();
    assert!(err.to_string().contains("overflows i64"));
    assert_eq!(registration_interval("e1", i64::MAX as u64).unwrap(), i64::MAX);
}

#[test]
fn register_checks_id_before_interval() {
    let err = registration_interval("", 0).unwrap_err();
    assert!(err.to_string().contains("must not be empty"));
}

#[test]
fn beat_unknown_errors() {
    let err = beat_outcome("nonexistent", 0).unwrap_err();
    assert!(err.to_string().contains("no heartbeat registration"));
    match err {
        ProtocolError::NotFound(m) => assert_eq!(m, "no heartbeat registration for nonexistent"),
        _ => panic!("expected not found"),
    }
}

#[test]
fn beat_refreshing_nothing_is_not_found() {
    let err = beat_outcome("e1", 0).unwrap_err();
    assert!(err.to_string().contains("no heartbeat"));
}

#[test]
fn find_stale_empty_when_fresh() {
    let stale = find_stale(&vec![age("e1", 30, 0)]);
    assert!(stale.is_empty(), "fresh heartbeat should not be stale");
}

#[test]
fn stale_after_three_intervals() {
    let rows = vec![age("a", 10, 30), age("b", 10, 31), age("c", 60, 5), age("d", 10, 300)];
    let stale = find_stale(&rows);
    assert_eq!(
        stale,
        vec![("b".to_string(), 31, 30), ("d".to_string(), 300, 30)]
    );
}

#[test]
fn stale_report_keeps_row_order() {
    let rows = vec![age("z", 1, 100), age("a", 1, 100)];
    let stale = find_stale(&rows);
    assert_eq!(stale[0].0, "z");
    assert_eq!(stale[1].0, "a");
}
