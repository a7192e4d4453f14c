use convergio_longrunning::delegation::ExecutionRow;
use convergio_longrunning::heartbeat::{find_stale, HeartbeatAge};
use convergio_longrunning::reaper::{heartbeats_to_remove, plan_reap_cycle, reap_reports};

fn row(id: &str, parent: Option<&str>, stage: &str) -> ExecutionRow {
    ExecutionRow {
        id: id.to_string(),
        parent_id: parent.map(|p| p.to_string()),
        stage: stage.to_string(),
    }
}

#[test]
fn reap_cycle_empty_when_no_stale() {
    let rows: Vec<ExecutionRow> = Vec::new();
    let stale = find_stale(&Vec::new());
    let (targets, reports, heartbeats) = plan_reap_cycle(&rows, &stale);
    assert!(targets.is_empty());
    assert!(heartbeats.is_empty());
    assert!(reports.is_empty());
}

#[test]
fn reap_cycle_marks_stale_as_reaped() {
    let mut rows = vec![row("stale-1", None, "running")];
    let beats = vec![HeartbeatAge {
        execution_id: "stale-1".to_string(),
        interval_s: 10,
        elapsed_s: 300,
    }];
    let stale = find_stale(&beats);
    let (targets, reaped, heartbeats) = plan_reap_cycle(&rows, &stale);
    assert_eq!(heartbeats, vec!["stale-1".to_string()]);
    assert_eq!(reaped.len(), 1);
    assert_eq!(reaped[0].execution_id, "stale-1");
    for &i in &targets {
        rows[i].stage = "reaped".to_string();
    }
    assert_eq!(rows[0].stage, "reaped");
}

#[test]
fn reap_cycle_cascades_to_all_descendants() {
    let rows = vec![
        row("p", None, "completing"),
        row("c1", Some("p"), "running"),
        row("c2", Some("p"), "failed"),
        row("g", Some("c1"), "running"),
        row("gg", Some("c2"), "paused"),
        row("q", None, "running"),
    ];
    let stale = vec![("p".to_string(), 100, 30)];
    let (targets, reports, heartbeats) = plan_reap_cycle(&rows, &stale);
    // the stale execution whatever its stage, and every non-terminal
    // descendant (also below a failed child); not the failed child itself,
    // not the unrelated row
    assert_eq!(targets, vec![0, 1, 3, 4]);
    assert_eq!(reports[0].elapsed_secs, 100);
    assert_eq!(reports[0].max_secs, 30);
    assert_eq!(heartbeats, vec!["p".to_string()]);
}

#[test]
fn reap_cycle_chain_reaps_grandchildren() {
    let rows = vec![
        row("a", None, "running"),
        row("b", Some("a"), "running"),
        row("c", Some("b"), "running"),
    ];
    let stale = vec![("a".to_string(), 40, 30)];
    let (targets, _, _) = plan_reap_cycle(&rows, &stale);
    assert_eq!(targets, vec![0, 1, 2]);
}

#[test]
fn heartbeats_removed_are_the_stale_ones() {
    let stale = vec![("x".to_string(), 9, 3), ("y".to_string(), 7, 6)];
    assert_eq!(heartbeats_to_remove(&stale), vec!["x".to_string(), "y".to_string()]);
}

#[test]
fn reports_follow_stale_order() {
    let stale = vec![("b".to_string(), 5, 3), ("a".to_string(), 9, 6)];
    let reports = reap_reports(&stale);
    assert_eq!(reports.len(), 2);
    assert_eq!(reports[0].execution_id, "b");
    assert_eq!(reports[1].execution_id, "a");
    assert_eq!(reports[1].max_secs, 6);
}
