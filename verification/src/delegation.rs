//! Delegation chains: executions that delegated work form a tree through
//! their parent ids. This module answers the questions asked of that tree
//! over a snapshot of the execution rows: the direct children of an
//! execution, every descendant of it, the descendants that a death cascade
//! reaps, and the whole tree below an execution.
//!
//! Rows are handed over in creation order; an index into the snapshot
//! stands for a row.

use vstd::prelude::*;
use crate::types::{is_terminal_text, terminal_text};

verus! {

/// The columns of an execution row that delegation decisions read.
#[derive(Debug, Clone)]
pub struct ExecutionRow {
    pub id: String,
    pub parent_id: Option<String>,
    pub stage: String,
}

/// Row `j` was delegated by the execution with id `pid`.
pub open spec fn child_of(rows: Seq<ExecutionRow>, j: int, pid: Seq<char>) -> bool {
    0 <= j < rows.len() && (rows[j].parent_id matches Some(p) && p@ == pid)
}

/// Row `j` descends from the execution `pid` through at most `k` further
/// delegations after the first.
pub open spec fn descends_within(rows: Seq<ExecutionRow>, pid: Seq<char>, j: int, k: nat) -> bool
    decreases k,
{
    child_of(rows, j, pid) || (k > 0 && exists|i: int|
        0 <= i < rows.len() && descends_within(rows, pid, i, (k - 1) as nat) && #[trigger] child_of(
            rows,
            j,
            rows[i].id@,
        ))
}

/// Row `j` is a (direct or indirect) delegate of the execution `pid`.
pub open spec fn is_descendant(rows: Seq<ExecutionRow>, pid: Seq<char>, j: int) -> bool {
    exists|k: nat| descends_within(rows, pid, j, k)
}

/// `s` lists, in increasing order and once each, exactly the indices below
/// `n` that satisfy `p`.
pub open spec fn lists_exactly(s: Seq<usize>, n: int, p: spec_fn(int) -> bool) -> bool {
    &&& forall|a: int, b: int| 0 <= a < b < s.len() ==> s[a] < s[b]
    &&& forall|k: int| 0 <= k < s.len() ==> s[k] < n && p(s[k] as int)
    &&& forall|j: int| 0 <= j < n && p(j) ==> #[trigger] s.contains(j as usize)
}

/// A row that a death cascade from `pid` reaps: a descendant not already in
/// a terminal stage.
pub open spec fn cascade_reaps(rows: Seq<ExecutionRow>, pid: Seq<char>, j: int) -> bool {
    is_descendant(rows, pid, j) && !terminal_text(rows[j].stage@)
}

fn is_child(row: &ExecutionRow, key: &String) -> (b: bool)
    ensures
        b == (row.parent_id matches Some(p) && p@ == key@),
{
    match &row.parent_id {
        Some(p) => *p == *key,
        None => false,
    }
}

/// The direct children of `parent_id`, in row order.
pub fn list_children(rows: &Vec<ExecutionRow>, parent_id: &str) -> (children: Vec<usize>)
    ensures
        lists_exactly(children@, rows@.len() as int, |j: int| child_of(rows@, j, parent_id@)),
{
    let key: String = parent_id.to_owned();
    let n = rows.len();
    let mut children: Vec<usize> = Vec::new();
    let mut i: usize = 0;
    while i < n
        invariant
            n == rows@.len(),
            i <= n,
            key@ == parent_id@,
            forall|a: int, b: int|
                0 <= a < b < children@.len() ==> children@[a] < children@[b],
            forall|k: int|
                0 <= k < children@.len() ==> children@[k] < i && child_of(
                    rows@,
                    children@[k] as int,
                    parent_id@,
                ),
            forall|j: int|
                0 <= j < i && child_of(rows@, j, parent_id@) ==> #[trigger] children@.contains(
                    j as usize,
                ),
        decreases n - i,
    {
        if is_child(&rows[i], &key) {
            let ghost before = children@;
            children.push(i);
            proof {
                lemma_push_keeps_members(before, i);
            }
        }
        i = i + 1;
    }
    children
}

/// Appending to a list keeps what it held and adds the new element.
proof fn lemma_push_keeps_members(s: Seq<usize>, v: usize)
    ensures
        s.push(v).contains(v),
        forall|x: usize| s.contains(x) ==> #[trigger] s.push(v).contains(x),
{
    assert(s.push(v)[s.len() as int] == v);
    assert forall|x: usize| s.contains(x) implies #[trigger] s.push(v).contains(x) by {
        let k = choose|k: int| 0 <= k < s.len() && s[k] == x;
        assert(s.push(v)[k] == x);
    }
}

/// Distinct indices below `n` number at most `n`.
proof fn lemma_distinct_indices_bounded(q: Seq<usize>, n: nat)
    requires
        q.no_duplicates(),
        forall|k: int| 0 <= k < q.len() ==> q[k] < n,
    ensures
        q.len() <= n,
    decreases n,
{
    if q.len() == 0 {
    } else if n == 0 {
        assert(q[0] < 0);
    } else if q.contains((n - 1) as usize) {
        let k = choose|k: int| 0 <= k < q.len() && q[k] == (n - 1) as usize;
        let r = q.remove(k);
        assert forall|a: int| 0 <= a < r.len() implies r[a] < n - 1 by {
            if a < k {
                assert(r[a] == q[a]);
            } else {
                assert(r[a] == q[a + 1]);
            }
        }
        assert(r.no_duplicates()) by {
            assert forall|a: int, b: int|
                0 <= a < r.len() && 0 <= b < r.len() && a != b implies r[a] != r[b] by {
                let qa = if a < k {
                    a
                } else {
                    a + 1
                };
                let qb = if b < k {
                    b
                } else {
                    b + 1
                };
                assert(r[a] == q[qa]);
                assert(r[b] == q[qb]);
            }
        }
        lemma_distinct_indices_bounded(r, (n - 1) as nat);
    } else {
        assert forall|a: int| 0 <= a < q.len() implies q[a] < n - 1 by {
            if q[a] == n - 1 {
                assert(q.contains((n - 1) as usize));
            }
        }
        lemma_distinct_indices_bounded(q, (n - 1) as nat);
    }
}

/// The bookkeeping of the search for descendants: `queue` holds each marked
/// row once, and only rows of the snapshot.
pub open spec fn queue_matches(queue: Seq<usize>, marked: Seq<bool>, n: int) -> bool {
    &&& marked.len() == n
    &&& queue.no_duplicates()
    &&& forall|k: int| 0 <= k < queue.len() ==> queue[k] < n
    &&& forall|j: int| 0 <= j < n ==> (marked[j] <==> #[trigger] queue.contains(j as usize))
}

/// Marks every unmarked child of `key`, appending each to the queue.
fn mark_children(
    rows: &Vec<ExecutionRow>,
    key: &String,
    marked: &mut Vec<bool>,
    queue: &mut Vec<usize>,
)
    requires
        queue_matches(old(queue)@, old(marked)@, rows@.len() as int),
    ensures
        queue_matches(final(queue)@, final(marked)@, rows@.len() as int),
        final(queue)@.len() >= old(queue)@.len(),
        forall|k: int| 0 <= k < old(queue)@.len() ==> final(queue)@[k] == old(queue)@[k],
        forall|j: int| 0 <= j < rows@.len() && old(marked)@[j] ==> final(marked)@[j],
        forall|j: int|
            0 <= j < rows@.len() && final(marked)@[j] && !old(marked)@[j] ==> child_of(
                rows@,
                j,
                key@,
            ),
        forall|j: int| child_of(rows@, j, key@) ==> final(marked)@[j],
{
    let n = rows.len();
    let ghost old_marked = marked@;
    let ghost old_queue = queue@;
    let mut j: usize = 0;
    while j < n
        invariant
            n == rows@.len(),
            j <= n,
            queue_matches(queue@, marked@, n as int),
            queue@.len() >= old_queue.len(),
            forall|k: int| 0 <= k < old_queue.len() ==> queue@[k] == old_queue[k],
            forall|x: int| 0 <= x < n && old_marked[x] ==> marked@[x],
            forall|x: int|
                0 <= x < n && marked@[x] && !old_marked[x] ==> child_of(rows@, x, key@),
            forall|x: int| 0 <= x < j && child_of(rows@, x, key@) ==> marked@[x],
        decreases n - j,
    {
        if !marked[j] && is_child(&rows[j], key) {
            let ghost q0 = queue@;
            let ghost m0 = marked@;
            proof {
                assert(!q0.contains(j as usize));
                assert(q0.push(j).no_duplicates()) by {
                    assert forall|a: int, b: int|
                        0 <= a < q0.len() + 1 && 0 <= b < q0.len() + 1 && a != b implies q0.push(
                        j,
                    )[a] != q0.push(j)[b] by {
                        if a == q0.len() {
                            assert(q0[b] != j);
                        } else if b == q0.len() {
                            assert(q0[a] != j);
                        }
                    }
                }
            }
            marked.set(j, true);
            queue.push(j);
            proof {
                assert(queue@ == q0.push(j));
                assert forall|x: int| 0 <= x < n implies (marked@[x] <==> #[trigger] queue@.contains(
                    x as usize,
                )) by {
                    if x == j {
                        assert(queue@[q0.len() as int] == j);
                    } else {
                        if queue@.contains(x as usize) {
                            let k = choose|k: int| 0 <= k < queue@.len() && queue@[k] == x as usize;
                            assert(k < q0.len());
                            assert(q0[k] == x as usize);
                            assert(q0.contains(x as usize));
                        }
                        if q0.contains(x as usize) {
                            let k = choose|k: int| 0 <= k < q0.len() && q0[k] == x as usize;
                            assert(queue@[k] == x as usize);
                        }
                        assert(marked@[x] == m0[x]);
                    }
                }
            }
        }
        j = j + 1;
    }
}

/// A child of a descendant is a descendant.
proof fn lemma_child_of_descendant(rows: Seq<ExecutionRow>, pid: Seq<char>, i: int, j: int)
    requires
        0 <= i < rows.len(),
        is_descendant(rows, pid, i),
        child_of(rows, j, rows[i].id@),
    ensures
        is_descendant(rows, pid, j),
{
    let k = choose|k: nat| descends_within(rows, pid, i, k);
    assert(descends_within(rows, pid, j, k + 1));
}

/// A set of rows that holds the children of `pid` and the children of each
/// of its members holds every descendant of `pid`.
proof fn lemma_closed_marks_hold_descendants(
    rows: Seq<ExecutionRow>,
    pid: Seq<char>,
    marked: Seq<bool>,
    j: int,
    k: nat,
)
    requires
        marked.len() == rows.len(),
        forall|x: int| child_of(rows, x, pid) ==> marked[x],
        forall|i: int, x: int|
            0 <= i < rows.len() && marked[i] && #[trigger] child_of(rows, x, rows[i].id@)
                ==> marked[x],
        descends_within(rows, pid, j, k),
    ensures
        marked[j],
    decreases k,
{
    if child_of(rows, j, pid) {
    } else {
        let i = choose|i: int|
            0 <= i < rows.len() && descends_within(rows, pid, i, (k - 1) as nat)
                && #[trigger] child_of(rows, j, rows[i].id@);
        lemma_closed_marks_hold_descendants(rows, pid, marked, i, (k - 1) as nat);
    }
}

/// Marks every descendant of `parent_id` (and nothing else).
pub(crate) fn mark_descendants(rows: &Vec<ExecutionRow>, parent_id: &str) -> (marked: Vec<bool>)
    ensures
        marked@.len() == rows@.len(),
        forall|j: int| 0 <= j < rows@.len() ==> (marked@[j] <==> is_descendant(rows@, parent_id@, j)),
{
    let n = rows.len();
    let key: String = parent_id.to_owned();
    let mut marked: Vec<bool> = Vec::new();
    let mut i: usize = 0;
    while i < n
        invariant
            i <= n,
            marked@.len() == i,
            forall|x: int| 0 <= x < i ==> !marked@[x],
        decreases n - i,
    {
        marked.push(false);
        i = i + 1;
    }
    let mut queue: Vec<usize> = Vec::new();
    mark_children(rows, &key, &mut marked, &mut queue);
    proof {
        assert forall|x: int| 0 <= x < n && marked@[x] implies is_descendant(
            rows@,
            parent_id@,
            x,
        ) by {
            assert(descends_within(rows@, parent_id@, x, 0));
        }
    }
    proof {
        lemma_distinct_indices_bounded(queue@, n as nat);
    }
    let mut head: usize = 0;
    while head < queue.len()
        invariant
            n == rows@.len(),
            key@ == parent_id@,
            queue_matches(queue@, marked@, n as int),
            head <= queue@.len() <= n,
            forall|x: int| 0 <= x < n && marked@[x] ==> is_descendant(rows@, parent_id@, x),
            forall|x: int| child_of(rows@, x, parent_id@) ==> marked@[x],
            forall|q: int, x: int|
                0 <= q < head && #[trigger] child_of(rows@, x, rows@[queue@[q] as int].id@)
                    ==> marked@[x],
        decreases n - head,
    {
        let r = queue[head];
        let ghost before = marked@;
        let ghost queue_before = queue@;
        mark_children(rows, &rows[r].id, &mut marked, &mut queue);
        proof {
            assert(queue_before[head as int] == r);
            assert(queue_before.contains(r));
            assert(r < n);
            assert(queue_before.contains((r as int) as usize));
            assert(before[r as int]);
            assert(is_descendant(rows@, parent_id@, r as int));
            assert forall|x: int| 0 <= x < n && marked@[x] implies is_descendant(
                rows@,
                parent_id@,
                x,
            ) by {
                if !before[x] {
                    lemma_child_of_descendant(rows@, parent_id@, r as int, x);
                }
            }
            assert forall|q: int, x: int|
                0 <= q < head + 1 && #[trigger] child_of(rows@, x, rows@[queue@[q] as int].id@)
                    implies marked@[x] by {
                assert(queue@[q] == queue_before[q]);
                if q < head {
                    assert(before[x]);
                }
            }
            lemma_distinct_indices_bounded(queue@, n as nat);
        }
        head = head + 1;
    }
    proof {
        assert forall|i: int, x: int|
            0 <= i < n && marked@[i] && #[trigger] child_of(rows@, x, rows@[i].id@)
                implies marked@[x] by {
            assert(queue@.contains(i as usize));
            let q = choose|q: int| 0 <= q < queue@.len() && queue@[q] == i as usize;
            assert(child_of(rows@, x, rows@[queue@[q] as int].id@));
        }
        assert forall|j: int| 0 <= j < n && is_descendant(rows@, parent_id@, j) implies marked@[j] by {
            let k = choose|k: nat| descends_within(rows@, parent_id@, j, k);
            lemma_closed_marks_hold_descendants(rows@, parent_id@, marked@, j, k);
        }
    }
    marked
}

/// The rows a death cascade from `parent_id` reaps: every descendant, at any
/// depth, whose stage is not already terminal, in row order.
pub fn cascade_death(rows: &Vec<ExecutionRow>, parent_id: &str) -> (reaped: Vec<usize>)
    ensures
        lists_exactly(reaped@, rows@.len() as int, |j: int| cascade_reaps(rows@, parent_id@, j)),
{
    let marked = mark_descendants(rows, parent_id);
    let n = rows.len();
    let mut reaped: Vec<usize> = Vec::new();
    let mut i: usize = 0;
    while i < n
        invariant
            n == rows@.len(),
            i <= n,
            marked@.len() == n,
            forall|j: int| 0 <= j < n ==> (marked@[j] <==> is_descendant(rows@, parent_id@, j)),
            forall|a: int, b: int| 0 <= a < b < reaped@.len() ==> reaped@[a] < reaped@[b],
            forall|k: int|
                0 <= k < reaped@.len() ==> reaped@[k] < i && cascade_reaps(
                    rows@,
                    parent_id@,
                    reaped@[k] as int,
                ),
            forall|j: int|
                0 <= j < i && cascade_reaps(rows@, parent_id@, j) ==> #[trigger] reaped@.contains(
                    j as usize,
                ),
        decreases n - i,
    {
        if marked[i] && !is_terminal_text(rows[i].stage.as_str()) {
            let ghost before = reaped@;
            reaped.push(i);
            proof {
                lemma_push_keeps_members(before, i);
            }
        }
        i = i + 1;
    }
    reaped
}

/// Descent only reads ids and parent ids: two snapshots that agree on those
/// have the same descendants.
pub(crate) proof fn lemma_descent_reads_only_links(
    rows: Seq<ExecutionRow>,
    other: Seq<ExecutionRow>,
    pid: Seq<char>,
    j: int,
    k: nat,
)
    requires
        other.len() == rows.len(),
        forall|x: int|
            0 <= x < rows.len() ==> other[x].id@ == rows[x].id@ && other[x].parent_id
                == rows[x].parent_id,
    ensures
        descends_within(rows, pid, j, k) == descends_within(other, pid, j, k),
    decreases k,
{
    if k > 0 {
        if descends_within(rows, pid, j, k) && !child_of(rows, j, pid) {
            let i = choose|i: int|
                0 <= i < rows.len() && descends_within(rows, pid, i, (k - 1) as nat)
                    && #[trigger] child_of(rows, j, rows[i].id@);
            lemma_descent_reads_only_links(rows, other, pid, i, (k - 1) as nat);
            assert(child_of(other, j, other[i].id@));
        }
        if descends_within(other, pid, j, k) && !child_of(other, j, pid) {
            let i = choose|i: int|
                0 <= i < other.len() && descends_within(other, pid, i, (k - 1) as nat)
                    && #[trigger] child_of(other, j, other[i].id@);
            lemma_descent_reads_only_links(rows, other, pid, i, (k - 1) as nat);
            assert(child_of(rows, j, rows[i].id@));
        }
    }
}

/// Once a death cascade from `pid` has been applied (its rows set to the
/// reaped stage, every other row left as it was), a second cascade from
/// `pid` has nothing left to reap.
pub proof fn lemma_cascade_idempotent(
    rows: Seq<ExecutionRow>,
    after: Seq<ExecutionRow>,
    pid: Seq<char>,
    reaped: Seq<usize>,
)
    requires
        lists_exactly(reaped, rows.len() as int, |j: int| cascade_reaps(rows, pid, j)),
        after.len() == rows.len(),
        forall|x: int|
            0 <= x < rows.len() ==> after[x].id@ == rows[x].id@ && after[x].parent_id
                == rows[x].parent_id,
        forall|x: int|
            0 <= x < rows.len() ==> after[x].stage@ == (if reaped.contains(x as usize) {
                "reaped"@
            } else {
                rows[x].stage@
            }),
    ensures
        forall|j: int| 0 <= j < after.len() ==> !cascade_reaps(after, pid, j),
{
    assert forall|j: int| 0 <= j < after.len() implies !cascade_reaps(after, pid, j) by {
        if is_descendant(after, pid, j) {
            let k = choose|k: nat| descends_within(after, pid, j, k);
            lemma_descent_reads_only_links(rows, after, pid, j, k);
            assert(is_descendant(rows, pid, j));
            if !reaped.contains(j as usize) {
                assert(!cascade_reaps(rows, pid, j));
            }
        }
    }
}

/// A row that a death cascade from `pid` reaps is a descendant of `pid` not
/// in a terminal stage, and every such row is reaped: rows in a terminal
/// stage and rows outside the subtree are never touched.
pub proof fn lemma_cascade_spares_terminal_and_unrelated(
    rows: Seq<ExecutionRow>,
    pid: Seq<char>,
    reaped: Seq<usize>,
    j: int,
)
    requires
        lists_exactly(reaped, rows.len() as int, |x: int| cascade_reaps(rows, pid, x)),
        rows.len() <= usize::MAX,
        0 <= j < rows.len(),
    ensures
        reaped.contains(j as usize) <==> (is_descendant(rows, pid, j) && !terminal_text(
            rows[j].stage@,
        )),
{
    if reaped.contains(j as usize) {
        let k = choose|k: int| 0 <= k < reaped.len() && reaped[k] == j as usize;
        assert(cascade_reaps(rows, pid, reaped[k] as int));
    }
    if cascade_reaps(rows, pid, j) {
        assert(reaped.contains(j as usize));
    }
}

/// A delegation tree over a snapshot: a row and the subtrees of its
/// children, in row order.
#[derive(Debug)]
pub struct DelegationTree {
    pub row: usize,
    pub children: Vec<DelegationTree>,
}

/// How many levels of delegation below its root a tree goes at most.
pub const MAX_TREE_DEPTH: usize = 64;

/// The row of a subtree's root.
pub open spec fn root_row(t: DelegationTree) -> usize {
    t.row
}

/// `t` is the delegation tree of its row, cut off `budget` levels below it:
/// while levels remain, its children are exactly the direct children of
/// that row's id, in row order, each with its own tree one level shorter;
/// with no level left it has no children.
pub open spec fn built_within(rows: Seq<ExecutionRow>, t: DelegationTree, budget: nat) -> bool
    decreases t,
{
    &&& t.row < rows.len()
    &&& if budget == 0 {
        t.children@.len() == 0
    } else {
        &&& lists_exactly(
            t.children@.map_values(|c: DelegationTree| root_row(c)),
            rows.len() as int,
            |j: int| child_of(rows, j, rows[t.row as int].id@),
        )
        &&& forall|k: int|
            0 <= k < t.children@.len() ==> built_within(
                rows,
                #[trigger] t.children@[k],
                (budget - 1) as nat,
            )
    }
}

/// The first row whose id is `id`, if any.
pub open spec fn first_with_id(rows: Seq<ExecutionRow>, id: Seq<char>) -> Option<int> {
    if exists|i: int| 0 <= i < rows.len() && rows[i].id@ == id {
        Some(
            choose|i: int|
                0 <= i < rows.len() && rows[i].id@ == id && forall|h: int|
                    0 <= h < i ==> rows[h].id@ != id,
        )
    } else {
        None
    }
}
fn build_subtree(rows: &Vec<ExecutionRow>, i: usize, budget: usize) -> (t: DelegationTree)
    requires
        i < rows@.len(),
    ensures
        t.row == i,
        built_within(rows@, t, budget as nat),
    decreases budget,
{
    let mut children: Vec<DelegationTree> = Vec::new();
    if budget == 0 {
        return DelegationTree { row: i, children };
    }
    let kids = list_children(rows, rows[i].id.as_str());
    let mut k: usize = 0;
    while k < kids.len()
        invariant
            i < rows@.len(),
            budget > 0,
            lists_exactly(kids@, rows@.len() as int, |j: int| child_of(rows@, j, rows@[i as int].id@)),
            k <= kids@.len(),
            children@.len() == k,
            forall|m: int|
                0 <= m < k ==> (#[trigger] children@[m]).row == kids@[m] && built_within(
                    rows@,
                    children@[m],
                    (budget - 1) as nat,
                ),
        decreases kids@.len() - k,
    {
        let j = kids[k];
        let sub = build_subtree(rows, j, budget - 1);
        children.push(sub);
        k = k + 1;
    }
    let t = DelegationTree { row: i, children };
    proof {
        assert(t.children@.map_values(|c: DelegationTree| root_row(c)) =~= kids@);
    }
    t
}

/// The delegation tree under the first execution with id `root_id`, going
/// at most `MAX_TREE_DEPTH` levels down, or `None` when no execution has
/// that id. Cycles in the delegations are cut off by the depth limit.
pub fn build_tree(rows: &Vec<ExecutionRow>, root_id: &str) -> (tree: Option<DelegationTree>)
    ensures
        match tree {
            None => first_with_id(rows@, root_id@) is None,
            Some(t) => first_with_id(rows@, root_id@) == Some(t.row as int) && built_within(
                rows@,
                t,
                MAX_TREE_DEPTH as nat,
            ),
        },
{
    let key: String = root_id.to_owned();
    let n = rows.len();
    let mut i: usize = 0;
    while i < n
        invariant
            n == rows@.len(),
            i <= n,
            key@ == root_id@,
            forall|h: int| 0 <= h < i ==> rows@[h].id@ != root_id@,
        decreases n - i,
    {
        if rows[i].id == key {
            proof {
                let f = first_with_id(rows@, root_id@);
                assert(f == Some(i as int));
            }
            return Some(build_subtree(rows, i, MAX_TREE_DEPTH));
        }
        i = i + 1;
    }
    None
}

/// Strictly increasing sequences with the same members are equal.
proof fn lemma_increasing_same_members_equal(s: Seq<usize>, t: Seq<usize>)
    requires
        forall|a: int, b: int| 0 <= a < b < s.len() ==> s[a] < s[b],
        forall|a: int, b: int| 0 <= a < b < t.len() ==> t[a] < t[b],
        forall|x: usize| s.contains(x) <==> t.contains(x),
    ensures
        s == t,
    decreases s.len(),
{
    if s.len() == 0 {
        if t.len() > 0 {
            assert(t.contains(t[0]));
        }
        assert(s =~= t);
    } else if t.len() == 0 {
        assert(s.contains(s[0]));
    } else {
        assert(s.contains(s[0]));
        assert(t.contains(t[0]));
        let b = choose|b: int| 0 <= b < t.len() && t[b] == s[0];
        let a = choose|a: int| 0 <= a < s.len() && s[a] == t[0];
        assert(s[0] <= s[a]);
        assert(t[0] <= t[b]);
        assert(s[0] == t[0]);
        let s1 = s.drop_first();
        let t1 = t.drop_first();
        assert forall|x: usize| s1.contains(x) <==> t1.contains(x) by {
            if s1.contains(x) {
                let i = choose|i: int| 0 <= i < s1.len() && s1[i] == x;
                assert(s[i + 1] == x);
                assert(s.contains(x));
                let k = choose|k: int| 0 <= k < t.len() && t[k] == x;
                assert(k != 0);
                assert(t1[k - 1] == x);
            }
            if t1.contains(x) {
                let i = choose|i: int| 0 <= i < t1.len() && t1[i] == x;
                assert(t[i + 1] == x);
                assert(t.contains(x));
                let k = choose|k: int| 0 <= k < s.len() && s[k] == x;
                assert(k != 0);
                assert(s1[k - 1] == x);
            }
        }
        lemma_increasing_same_members_equal(s1, t1);
        assert(s =~= t) by {
            assert forall|i: int| 0 <= i < s.len() implies s[i] == t[i] by {
                if i > 0 {
                    assert(s[i] == s1[i - 1]);
                    assert(t[i] == t1[i - 1]);
                }
            }
        }
    }
}

/// A listing is determined by what it lists: two sequences that both list
/// exactly the indices below `n` satisfying `p` are the same sequence.
pub proof fn lemma_listing_is_unique(s: Seq<usize>, t: Seq<usize>, n: int, p: spec_fn(int) -> bool)
    requires
        n <= usize::MAX + 1,
        lists_exactly(s, n, p),
        lists_exactly(t, n, p),
    ensures
        s == t,
{
    assert forall|x: usize| s.contains(x) <==> t.contains(x) by {
        if s.contains(x) {
            let k = choose|k: int| 0 <= k < s.len() && s[k] == x;
            assert(p(s[k] as int) && s[k] < n);
            assert(t.contains((x as int) as usize));
        }
        if t.contains(x) {
            let k = choose|k: int| 0 <= k < t.len() && t[k] == x;
            assert(p(t[k] as int) && t[k] < n);
            assert(s.contains((x as int) as usize));
        }
    }
    lemma_increasing_same_members_equal(s, t);
}

/// The subtrees under a node of a built tree that still had levels to go
/// are rooted exactly at the rows that `list_children` returns for that
/// node's id, in the same order.
pub proof fn lemma_tree_children_are_listed_children(
    rows: Seq<ExecutionRow>,
    t: DelegationTree,
    budget: nat,
    listed: Seq<usize>,
)
    requires
        rows.len() <= usize::MAX,
        budget > 0,
        built_within(rows, t, budget),
        lists_exactly(listed, rows.len() as int, |j: int| child_of(rows, j, rows[t.row as int].id@)),
    ensures
        t.children@.map_values(|c: DelegationTree| root_row(c)) == listed,
{
    lemma_listing_is_unique(
        t.children@.map_values(|c: DelegationTree| root_row(c)),
        listed,
        rows.len() as int,
        |j: int| child_of(rows, j, rows[t.row as int].id@),
    );
}

/// The tree `t` has a path `d` levels long.
pub open spec fn reaches_depth(t: DelegationTree, d: nat) -> bool
    decreases t,
{
    d == 0 || exists|k: int|
        0 <= k < t.children@.len() && reaches_depth(#[trigger] t.children@[k], (d - 1) as nat)
}

/// A tree cut off `budget` levels down has no path longer than that; so
/// `build_tree` never returns a tree deeper than `MAX_TREE_DEPTH`.
pub proof fn lemma_tree_depth_bounded(rows: Seq<ExecutionRow>, t: DelegationTree, budget: nat, d: nat)
    requires
        built_within(rows, t, budget),
        reaches_depth(t, d),
    ensures
        d <= budget,
    decreases t,
{
    if d > 0 {
        let k = choose|k: int|
            0 <= k < t.children@.len() && reaches_depth(#[trigger] t.children@[k], (d - 1) as nat);
        lemma_tree_depth_bounded(rows, t.children@[k], (budget - 1) as nat, (d - 1) as nat);
    }
}

/// Row `j` appears somewhere in the tree `t`.
pub open spec fn holds_row(t: DelegationTree, j: int) -> bool
    decreases t,
{
    t.row == j || exists|k: int|
        0 <= k < t.children@.len() && holds_row(#[trigger] t.children@[k], j)
}

/// Every row of a built subtree whose root row is a descendant of `root`
/// is a descendant of `root`.
proof fn lemma_subtree_rows_descend(
    rows: Seq<ExecutionRow>,
    root: Seq<char>,
    t: DelegationTree,
    budget: nat,
    j: int,
)
    requires
        built_within(rows, t, budget),
        is_descendant(rows, root, t.row as int),
        holds_row(t, j),
    ensures
        is_descendant(rows, root, j),
    decreases t,
{
    if t.row != j {
        let k = choose|k: int| 0 <= k < t.children@.len() && holds_row(#[trigger] t.children@[k], j);
        let c = t.children@[k];
        let listed = t.children@.map_values(|c: DelegationTree| root_row(c));
        assert(listed[k] == c.row);
        assert(child_of(rows, c.row as int, rows[t.row as int].id@));
        lemma_child_of_descendant(rows, root, t.row as int, c.row as int);
        lemma_subtree_rows_descend(rows, root, c, (budget - 1) as nat, j);
    }
}

/// Every row of the tree under `root`, other than its root row, descends
/// from `root`.
pub proof fn lemma_tree_rows_descend(
    rows: Seq<ExecutionRow>,
    root: Seq<char>,
    t: DelegationTree,
    budget: nat,
    j: int,
)
    requires
        built_within(rows, t, budget),
        rows[t.row as int].id@ == root,
        holds_row(t, j),
        j != t.row,
    ensures
        is_descendant(rows, root, j),
{
    let k = choose|k: int| 0 <= k < t.children@.len() && holds_row(#[trigger] t.children@[k], j);
    let c = t.children@[k];
    let listed = t.children@.map_values(|c: DelegationTree| root_row(c));
    assert(listed[k] == c.row);
    assert(child_of(rows, c.row as int, root));
    assert(descends_within(rows, root, c.row as int, 0));
    lemma_subtree_rows_descend(rows, root, c, (budget - 1) as nat, j);
}

/// Row `i` appears in `t` at a node with at least `m` levels left below it.
pub open spec fn holds_with_room(t: DelegationTree, budget: nat, i: int, m: nat) -> bool
    decreases t,
{
    (t.row == i && budget >= m) || (budget > 0 && exists|k: int|
        0 <= k < t.children@.len() && holds_with_room(
            #[trigger] t.children@[k],
            (budget - 1) as nat,
            i,
            m,
        ))
}

proof fn lemma_room_holds_row(t: DelegationTree, budget: nat, i: int, m: nat)
    requires
        holds_with_room(t, budget, i, m),
    ensures
        holds_row(t, i),
    decreases t,
{
    if !(t.row == i && budget >= m) {
        let k = choose|k: int|
            0 <= k < t.children@.len() && holds_with_room(
                #[trigger] t.children@[k],
                (budget - 1) as nat,
                i,
                m,
            );
        lemma_room_holds_row(t.children@[k], (budget - 1) as nat, i, m);
    }
}

/// A row held with room for one more level below it has its children held.
proof fn lemma_room_holds_children(
    rows: Seq<ExecutionRow>,
    t: DelegationTree,
    budget: nat,
    i: int,
    j: int,
    m: nat,
)
    requires
        rows.len() <= usize::MAX,
        built_within(rows, t, budget),
        holds_with_room(t, budget, i, m + 1),
        0 <= i < rows.len(),
        child_of(rows, j, rows[i].id@),
    ensures
        holds_with_room(t, budget, j, m),
    decreases t,
{
    if t.row == i && budget >= m + 1 {
        let listed = t.children@.map_values(|c: DelegationTree| root_row(c));
        assert(listed.contains(j as usize));
        let k = choose|k: int| 0 <= k < listed.len() && listed[k] == j as usize;
        assert(holds_with_room(t.children@[k], (budget - 1) as nat, j, m));
    } else {
        let k = choose|k: int|
            0 <= k < t.children@.len() && holds_with_room(
                #[trigger] t.children@[k],
                (budget - 1) as nat,
                i,
                m + 1,
            );
        lemma_room_holds_children(rows, t.children@[k], (budget - 1) as nat, i, j, m);
    }
}

proof fn lemma_descendant_held_with_room(
    rows: Seq<ExecutionRow>,
    root: Seq<char>,
    t: DelegationTree,
    budget: nat,
    j: int,
    k: nat,
)
    requires
        rows.len() <= usize::MAX,
        built_within(rows, t, budget),
        rows[t.row as int].id@ == root,
        descends_within(rows, root, j, k),
        k < budget,
    ensures
        holds_with_room(t, budget, j, (budget - 1 - k) as nat),
    decreases k,
{
    if child_of(rows, j, root) {
        assert(holds_with_room(t, budget, t.row as int, budget));
        lemma_room_holds_children(rows, t, budget, t.row as int, j, (budget - 1) as nat);
        lemma_room_grows_smaller(t, budget, j, (budget - 1) as nat, (budget - 1 - k) as nat);
    } else {
        let i = choose|i: int|
            0 <= i < rows.len() && descends_within(rows, root, i, (k - 1) as nat)
                && #[trigger] child_of(rows, j, rows[i].id@);
        lemma_descendant_held_with_room(rows, root, t, budget, i, (k - 1) as nat);
        lemma_room_holds_children(rows, t, budget, i, j, (budget - 1 - k) as nat);
    }
}

proof fn lemma_room_grows_smaller(t: DelegationTree, budget: nat, i: int, m: nat, m2: nat)
    requires
        holds_with_room(t, budget, i, m),
        m2 <= m,
    ensures
        holds_with_room(t, budget, i, m2),
    decreases t,
{
    if !(t.row == i && budget >= m) {
        let k = choose|k: int|
            0 <= k < t.children@.len() && holds_with_room(
                #[trigger] t.children@[k],
                (budget - 1) as nat,
                i,
                m,
            );
        lemma_room_grows_smaller(t.children@[k], (budget - 1) as nat, i, m, m2);
    }
}

/// Every descendant of `root` reached through fewer delegations than the
/// tree's depth limit appears in the tree.
pub proof fn lemma_tree_holds_near_descendants(
    rows: Seq<ExecutionRow>,
    root: Seq<char>,
    t: DelegationTree,
    budget: nat,
    j: int,
    k: nat,
)
    requires
        rows.len() <= usize::MAX,
        built_within(rows, t, budget),
        rows[t.row as int].id@ == root,
        descends_within(rows, root, j, k),
        k < budget,
    ensures
        holds_row(t, j),
{
    lemma_descendant_held_with_room(rows, root, t, budget, j, k);
    lemma_room_holds_row(t, budget, j, (budget - 1 - k) as nat);
}

/// The death cascade and the delegation tree agree: a cascade from an
/// execution reaps every non-terminal row of its tree other than the root
/// row, and every row it reaps that lies fewer than `MAX_TREE_DEPTH`
/// delegations below appears in the tree.
pub proof fn lemma_cascade_and_tree_agree(
    rows: Seq<ExecutionRow>,
    root: Seq<char>,
    t: DelegationTree,
    reaped: Seq<usize>,
    j: int,
    k: nat,
)
    requires
        rows.len() <= usize::MAX,
        built_within(rows, t, MAX_TREE_DEPTH as nat),
        rows[t.row as int].id@ == root,
        lists_exactly(reaped, rows.len() as int, |x: int| cascade_reaps(rows, root, x)),
        0 <= j < rows.len(),
    ensures
        holds_row(t, j) && j != t.row && !terminal_text(rows[j].stage@) ==> reaped.contains(
            j as usize,
        ),
        reaped.contains(j as usize) && descends_within(rows, root, j, k) && k < MAX_TREE_DEPTH
            ==> holds_row(t, j),
{
    lemma_cascade_spares_terminal_and_unrelated(rows, root, reaped, j);
    if holds_row(t, j) && j != t.row {
        lemma_tree_rows_descend(rows, root, t, MAX_TREE_DEPTH as nat, j);
    }
    if descends_within(rows, root, j, k) && k < MAX_TREE_DEPTH {
        lemma_tree_holds_near_descendants(rows, root, t, MAX_TREE_DEPTH as nat, j, k);
    }
}

} // verus!
