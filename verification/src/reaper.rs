//! Heartbeat reaper decisions: once the stale heartbeats are known, which
//! executions a reaper cycle marks as reaped and what it reports.
//!
//! A cycle reaps every stale execution, whatever its stage, cascades the
//! death to every delegate below it (at any depth) that is not already in a
//! terminal stage, and removes the stale executions' heartbeats.

use vstd::prelude::*;
use crate::delegation::{
    cascade_reaps, descends_within, is_descendant, lemma_descent_reads_only_links, lists_exactly,
    mark_descendants, ExecutionRow,
};
use crate::types::{is_terminal_text, terminal_text};

verus! {

/// Report of one execution reaped for missing its heartbeats.
#[derive(Debug, Clone)]
pub struct ReapedExecution {
    pub execution_id: String,
    pub elapsed_secs: u64,
    pub max_secs: u64,
}

/// Some stale report names the execution `id`.
pub open spec fn reported_stale(stale: Seq<(String, u64, u64)>, id: Seq<char>) -> bool {
    exists|k: int| 0 <= k < stale.len() && (#[trigger] stale[k]).0@ == id
}

/// Row `j` is reaped by a cycle over the `stale` reports: it is stale
/// itself, or a death cascade from one of the stale executions reaps it
/// (it descends from that execution and is not in a terminal stage).
pub open spec fn cycle_reaps(rows: Seq<ExecutionRow>, stale: Seq<(String, u64, u64)>, j: int) -> bool {
    0 <= j < rows.len() && (reported_stale(stale, rows[j].id@) || exists|k: int|
        0 <= k < stale.len() && cascade_reaps(rows, (#[trigger] stale[k]).0@, j))
}

/// The report for one stale heartbeat.
pub open spec fn report_of(entry: (String, u64, u64)) -> ReapedExecution {
    ReapedExecution { execution_id: entry.0, elapsed_secs: entry.1, max_secs: entry.2 }
}

fn is_reported(stale: &Vec<(String, u64, u64)>, id: &String) -> (b: bool)
    ensures
        b == reported_stale(stale@, id@),
{
    let mut k: usize = 0;
    while k < stale.len()
        invariant
            k <= stale@.len(),
            forall|h: int| 0 <= h < k ==> (#[trigger] stale@[h]).0@ != id@,
        decreases stale@.len() - k,
    {
        if stale[k].0 == *id {
            proof {
                assert(stale@[k as int].0@ == id@);
            }
            return true;
        }
        k = k + 1;
    }
    false
}

/// The reports a cycle returns, one per stale heartbeat, in order.
pub fn reap_reports(stale: &Vec<(String, u64, u64)>) -> (reports: Vec<ReapedExecution>)
    ensures
        reports@.len() == stale@.len(),
        forall|k: int| 0 <= k < stale@.len() ==> #[trigger] reports@[k] == report_of(stale@[k]),
{
    let mut reports: Vec<ReapedExecution> = Vec::new();
    let mut k: usize = 0;
    while k < stale.len()
        invariant
            k <= stale@.len(),
            reports@.len() == k,
            forall|h: int| 0 <= h < k ==> #[trigger] reports@[h] == report_of(stale@[h]),
        decreases stale@.len() - k,
    {
        let entry = &stale[k];
        reports.push(
            ReapedExecution {
                execution_id: entry.0.clone(),
                elapsed_secs: entry.1,
                max_secs: entry.2,
            },
        );
        k = k + 1;
    }
    reports
}

/// The heartbeat registrations a cycle removes: those of the stale
/// executions, in report order.
pub fn heartbeats_to_remove(stale: &Vec<(String, u64, u64)>) -> (ids: Vec<String>)
    ensures
        ids@.len() == stale@.len(),
        forall|k: int| 0 <= k < stale@.len() ==> #[trigger] ids@[k] == stale@[k].0,
{
    let mut ids: Vec<String> = Vec::new();
    let mut k: usize = 0;
    while k < stale.len()
        invariant
            k <= stale@.len(),
            ids@.len() == k,
            forall|h: int| 0 <= h < k ==> #[trigger] ids@[h] == stale@[h].0,
        decreases stale@.len() - k,
    {
        ids.push(stale[k].0.clone());
        k = k + 1;
    }
    ids
}

/// Marks every row that descends from one of the stale executions.
fn mark_stale_descendants(rows: &Vec<ExecutionRow>, stale: &Vec<(String, u64, u64)>) -> (reached:
    Vec<bool>)
    ensures
        reached@.len() == rows@.len(),
        forall|j: int|
            0 <= j < rows@.len() ==> (reached@[j] <==> exists|k: int|
                0 <= k < stale@.len() && is_descendant(rows@, (#[trigger] stale@[k]).0@, j)),
{
    let n = rows.len();
    let mut reached: Vec<bool> = Vec::new();
    let mut i: usize = 0;
    while i < n
        invariant
            i <= n,
            reached@.len() == i,
            forall|x: int| 0 <= x < i ==> !reached@[x],
        decreases n - i,
    {
        reached.push(false);
        i = i + 1;
    }
    let mut k: usize = 0;
    while k < stale.len()
        invariant
            n == rows@.len(),
            k <= stale@.len(),
            reached@.len() == n,
            forall|j: int|
                0 <= j < n ==> (reached@[j] <==> exists|h: int|
                    0 <= h < k && is_descendant(rows@, (#[trigger] stale@[h]).0@, j)),
        decreases stale@.len() - k,
    {
        let below = mark_descendants(rows, stale[k].0.as_str());
        let mut j: usize = 0;
        while j < n
            invariant
                n == rows@.len(),
                k < stale@.len(),
                j <= n,
                reached@.len() == n,
                below@.len() == n,
                forall|x: int|
                    0 <= x < n ==> (below@[x] <==> is_descendant(rows@, stale@[k as int].0@, x)),
                forall|x: int|
                    0 <= x < j ==> (reached@[x] <==> exists|h: int|
                        0 <= h < k + 1 && is_descendant(rows@, (#[trigger] stale@[h]).0@, x)),
                forall|x: int|
                    j <= x < n ==> (reached@[x] <==> exists|h: int|
                        0 <= h < k && is_descendant(rows@, (#[trigger] stale@[h]).0@, x)),
            decreases n - j,
        {
            if below[j] && !reached[j] {
                reached.set(j, true);
            }
            proof {
                if is_descendant(rows@, stale@[k as int].0@, j as int) {
                    assert(0 <= k < k + 1 && is_descendant(rows@, stale@[k as int].0@, j as int));
                }
            }
            j = j + 1;
        }
        k = k + 1;
    }
    reached
}

/// One reaper cycle over a snapshot of the execution rows and the stale
/// heartbeat reports: the rows to mark as reaped (the stale executions and
/// every non-terminal descendant of one), in row order; the reports to
/// return; and the heartbeat registrations to remove.
pub fn plan_reap_cycle(rows: &Vec<ExecutionRow>, stale: &Vec<(String, u64, u64)>) -> (plan: (
    Vec<usize>,
    Vec<ReapedExecution>,
    Vec<String>,
))
    ensures
        lists_exactly(plan.0@, rows@.len() as int, |j: int| cycle_reaps(rows@, stale@, j)),
        plan.1@.len() == stale@.len(),
        forall|k: int| 0 <= k < stale@.len() ==> #[trigger] plan.1@[k] == report_of(stale@[k]),
        plan.2@.len() == stale@.len(),
        forall|k: int| 0 <= k < stale@.len() ==> #[trigger] plan.2@[k] == stale@[k].0,
        forall|k: int, j: int|
            0 <= k < stale@.len() && 0 <= j < rows@.len() && (#[trigger] rows@[j]).id@ == (
            #[trigger] stale@[k]).0@ ==> plan.0@.contains(j as usize),
{
    proof {
        assert forall|k: int, j: int|
            0 <= k < stale@.len() && 0 <= j < rows@.len() && (#[trigger] rows@[j]).id@ == (
            #[trigger] stale@[k]).0@ implies cycle_reaps(rows@, stale@, j) by {
            lemma_stale_rows_are_reaped(rows@, stale@, k, j);
        }
    }
    let n = rows.len();
    let reached = mark_stale_descendants(rows, stale);
    let mut targets: Vec<usize> = Vec::new();
    let mut j: usize = 0;
    while j < n
        invariant
            n == rows@.len(),
            j <= n,
            reached@.len() == n,
            forall|x: int|
                0 <= x < n ==> (reached@[x] <==> exists|k: int|
                    0 <= k < stale@.len() && is_descendant(rows@, (#[trigger] stale@[k]).0@, x)),
            forall|a: int, b: int| 0 <= a < b < targets@.len() ==> targets@[a] < targets@[b],
            forall|k: int|
                0 <= k < targets@.len() ==> targets@[k] < j && cycle_reaps(
                    rows@,
                    stale@,
                    targets@[k] as int,
                ),
            forall|x: int|
                0 <= x < j && cycle_reaps(rows@, stale@, x) ==> #[trigger] targets@.contains(
                    x as usize,
                ),
        decreases n - j,
    {
        let row = &rows[j];
        let reap = is_reported(stale, &row.id) || (reached[j] && !is_terminal_text(
            row.stage.as_str(),
        ));
        proof {
            if reached@[j as int] && !terminal_text(rows@[j as int].stage@) {
                let k = choose|k: int|
                    0 <= k < stale@.len() && is_descendant(rows@, (#[trigger] stale@[k]).0@, j as int);
                assert(cascade_reaps(rows@, stale@[k].0@, j as int));
            }
            if cycle_reaps(rows@, stale@, j as int) && !reported_stale(stale@, rows@[j as int].id@) {
                let k = choose|k: int|
                    0 <= k < stale@.len() && cascade_reaps(rows@, (#[trigger] stale@[k]).0@, j as int);
                assert(reached@[j as int]);
            }
        }
        if reap {
            let ghost before = targets@;
            targets.push(j);
            proof {
                assert(targets@[before.len() as int] == j);
                assert forall|x: int|
                    0 <= x < j && cycle_reaps(rows@, stale@, x) implies #[trigger] targets@.contains(
                    x as usize,
                ) by {
                    assert(before.contains(x as usize));
                    let k = choose|k: int| 0 <= k < before.len() && before[k] == x as usize;
                    assert(targets@[k] == x as usize);
                }
                assert(targets@.contains(j));
            }
        }
        j = j + 1;
    }
    (targets, reap_reports(stale), heartbeats_to_remove(stale))
}

/// A reaper cycle reaps row `j` exactly when some stale report names it, or
/// when it descends from an execution some stale report names and is not in
/// a terminal stage.
pub proof fn lemma_cycle_reaps_iff(rows: Seq<ExecutionRow>, stale: Seq<(String, u64, u64)>, j: int)
    ensures
        cycle_reaps(rows, stale, j) <==> (0 <= j < rows.len() && ((exists|k: int|
            0 <= k < stale.len() && (#[trigger] stale[k]).0@ == rows[j].id@) || (exists|k: int|
            0 <= k < stale.len() && is_descendant(rows, (#[trigger] stale[k]).0@, j)
                && !(rows[j].stage@ == "completing"@ || rows[j].stage@ == "failed"@
                || rows[j].stage@ == "reaped"@)))),
{
}

/// Every execution that a stale report names is reaped by the cycle,
/// whatever its stage and whichever report names it.
pub proof fn lemma_stale_rows_are_reaped(
    rows: Seq<ExecutionRow>,
    stale: Seq<(String, u64, u64)>,
    k: int,
    j: int,
)
    requires
        0 <= k < stale.len(),
        0 <= j < rows.len(),
        rows[j].id@ == stale[k].0@,
    ensures
        cycle_reaps(rows, stale, j),
{
    lemma_cycle_reaps_iff(rows, stale, j);
}

/// Once a reaper cycle has been applied (its rows set to the reaped stage,
/// every other row left as it was), a death cascade from any of the stale
/// executions has nothing left to reap.
pub proof fn lemma_cycle_leaves_no_cascade(
    rows: Seq<ExecutionRow>,
    after: Seq<ExecutionRow>,
    stale: Seq<(String, u64, u64)>,
    targets: Seq<usize>,
    k: int,
)
    requires
        lists_exactly(targets, rows.len() as int, |j: int| cycle_reaps(rows, stale, j)),
        0 <= k < stale.len(),
        after.len() == rows.len(),
        forall|x: int|
            0 <= x < rows.len() ==> after[x].id@ == rows[x].id@ && after[x].parent_id
                == rows[x].parent_id,
        forall|x: int|
            0 <= x < rows.len() ==> after[x].stage@ == (if targets.contains(x as usize) {
                "reaped"@
            } else {
                rows[x].stage@
            }),
    ensures
        forall|j: int| 0 <= j < after.len() ==> !cascade_reaps(after, stale[k].0@, j),
{
    assert forall|j: int| 0 <= j < after.len() implies !cascade_reaps(after, stale[k].0@, j) by {
        if is_descendant(after, stale[k].0@, j) {
            let d = choose|d: nat| descends_within(after, stale[k].0@, j, d);
            lemma_descent_reads_only_links(rows, after, stale[k].0@, j, d);
            assert(is_descendant(rows, stale[k].0@, j));
            if !targets.contains(j as usize) {
                assert(!cycle_reaps(rows, stale, j));
                assert(!cascade_reaps(rows, stale[k].0@, j));
            }
        }
    }
}

} // verus!
