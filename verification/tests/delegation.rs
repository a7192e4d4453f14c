use convergio_longrunning::delegation::{
    build_tree, cascade_death, list_children, DelegationTree, ExecutionRow, MAX_TREE_DEPTH,
};

fn row(id: &str, parent: Option<&str>, stage: &str) -> ExecutionRow {
    ExecutionRow {
        id: id.to_string(),
        parent_id: parent.map(|p| p.to_string()),
        stage: stage.to_string(),
    }
}

/// A snapshot holding one running root execution.
fn setup() -> Vec<ExecutionRow> {
    vec![row("root", None, "running")]
}

fn ids(rows: &[ExecutionRow], idx: &[usize]) -> Vec<String> {
    idx.iter().map(|&i| rows[i].id.clone()).collect()
}

#[test]
fn create_and_list_children() {
    let mut rows = setup();
    // (agent, deadline) of each row, kept beside the snapshot
    let mut extra: Vec<(&str, Option<&str>)> = vec![("elena", None)];
    rows.push(row("child-1", Some("root"), "starting"));
    extra.push(("baccio", None));
    rows.push(row("child-2", Some("root"), "starting"));
    extra.push(("marco", Some("2026-04-10T00:00:00Z")));
    let children = list_children(&rows, "root");
    assert_eq!(children.len(), 2);
    assert_eq!(extra[children[0]].0, "baccio");
    assert_eq!(extra[children[1]].1, Some("2026-04-10T00:00:00Z"));
}

#[test]
fn build_tree_nested() {
    let mut rows = setup();
    rows.push(row("mid", Some("root"), "starting"));
    rows.push(row("leaf", Some("mid"), "starting"));
    let tree = build_tree(&rows, "root").unwrap();
    assert_eq!(rows[tree.row].id, "root");
    assert_eq!(tree.children.len(), 1);
    assert_eq!(rows[tree.children[0].row].id, "mid");
    assert_eq!(tree.children[0].children.len(), 1);
    assert_eq!(rows[tree.children[0].children[0].row].id, "leaf");
}

#[test]
fn build_tree_missing_returns_none() {
    let rows = setup();
    assert!(build_tree(&rows, "nonexistent").is_none());
}

#[test]
fn cascade_death_kills_descendants() {
    let mut rows = setup();
    rows.push(row("mid", Some("root"), "running"));
    rows.push(row("leaf", Some("mid"), "running"));
    let reaped = cascade_death(&rows, "root");
    assert_eq!(reaped.len(), 2);
    for &i in &reaped {
        rows[i].stage = "reaped".to_string();
    }
    assert_eq!(rows[2].stage, "reaped");
}

#[test]
fn cascade_death_skips_terminal() {
    let mut rows = setup();
    rows.push(row("done-child", Some("root"), "completing"));
    let reaped = cascade_death(&rows, "root");
    assert_eq!(reaped.len(), 0);
}

#[test]
fn cascade_death_passes_through_terminal_rows() {
    let rows = vec![
        row("root", None, "running"),
        row("done", Some("root"), "failed"),
        row("grandchild", Some("done"), "running"),
        row("other", None, "running"),
        row("other-child", Some("other"), "running"),
    ];
    let reaped = cascade_death(&rows, "root");
    assert_eq!(ids(&rows, &reaped), vec!["grandchild"]);
}

#[test]
fn cascade_death_does_not_reap_the_parent() {
    let rows = vec![row("root", None, "running"), row("c", Some("root"), "paused")];
    assert_eq!(cascade_death(&rows, "root"), vec![1]);
}

#[test]
fn cascade_death_is_idempotent() {
    let mut rows = vec![
        row("root", None, "running"),
        row("a", Some("root"), "running"),
        row("b", Some("a"), "starting"),
        row("c", Some("a"), "completing"),
    ];
    let first = cascade_death(&rows, "root");
    assert_eq!(ids(&rows, &first), vec!["a", "b"]);
    for &i in &first {
        rows[i].stage = "reaped".to_string();
    }
    assert!(cascade_death(&rows, "root").is_empty());
}

#[test]
fn cascade_death_terminates_on_cycles() {
    let rows = vec![row("x", Some("y"), "running"), row("y", Some("x"), "running")];
    assert_eq!(cascade_death(&rows, "x"), vec![0, 1]);
}

#[test]
fn list_children_keeps_creation_order() {
    let rows = vec![
        row("root", None, "running"),
        row("b", Some("root"), "running"),
        row("x", Some("other"), "running"),
        row("a", Some("root"), "running"),
    ];
    assert_eq!(list_children(&rows, "root"), vec![1, 3]);
    assert!(list_children(&rows, "a").is_empty());
}

fn shape(rows: &[ExecutionRow], t: &DelegationTree) -> String {
    let kids: Vec<String> = t.children.iter().map(|c| shape(rows, c)).collect();
    if kids.is_empty() {
        rows[t.row].id.clone()
    } else {
        format!("{}({})", rows[t.row].id, kids.join(","))
    }
}

#[test]
fn build_tree_collects_all_levels() {
    let rows = vec![
        row("r", None, "running"),
        row("a", Some("r"), "running"),
        row("b", Some("r"), "running"),
        row("a1", Some("a"), "running"),
        row("b1", Some("b"), "running"),
        row("a2", Some("a"), "running"),
        row("stray", Some("nobody"), "running"),
    ];
    let tree = build_tree(&rows, "r").unwrap();
    assert_eq!(shape(&rows, &tree), "r(a(a1,a2),b(b1))");
    let sub = build_tree(&rows, "a").unwrap();
    assert_eq!(shape(&rows, &sub), "a(a1,a2)");
}

fn depth(t: &DelegationTree) -> usize {
    t.children.iter().map(|c| 1 + depth(c)).max().unwrap_or(0)
}

#[test]
fn build_tree_cuts_cycles_at_depth_limit() {
    let rows = vec![row("s", Some("s"), "running")];
    let tree = build_tree(&rows, "s").unwrap();
    assert_eq!(depth(&tree), MAX_TREE_DEPTH);
}

#[test]
fn build_tree_cuts_deep_chains() {
    let mut rows = vec![row("n0", None, "running")];
    for k in 1..100 {
        let id = format!("n{}", k);
        let parent = format!("n{}", k - 1);
        rows.push(row(&id, Some(parent.as_str()), "running"));
    }
    let tree = build_tree(&rows, "n0").unwrap();
    assert_eq!(depth(&tree), MAX_TREE_DEPTH);
    let short = build_tree(&rows, "n90").unwrap();
    assert_eq!(depth(&short), 9);
}

#[test]
fn cycle_elsewhere_does_not_matter() {
    let rows = vec![
        row("r", None, "running"),
        row("a", Some("r"), "running"),
        row("x", Some("y"), "running"),
        row("y", Some("x"), "running"),
    ];
    let tree = build_tree(&rows, "r").unwrap();
    assert_eq!(shape(&rows, &tree), "r(a)");
}
