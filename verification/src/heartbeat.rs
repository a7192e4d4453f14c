//! Heartbeat monitor decisions: what a registration stores, what a beat on
//! an unknown execution answers, and which heartbeats are stale.
//!
//! An execution registers the interval at which it promises to beat. It is
//! stale once no beat arrived for more than three such intervals.

use vstd::prelude::*;
use crate::types::{id_rejection, validate_execution_id, ProtocolError};

verus! {

/// How many intervals may pass without a beat before an execution is stale.
pub const STALE_FACTOR: i64 = 3;

/// What a registration of `id` with `interval_secs` leads to: the interval to
/// store, or the detail of the refusal.
pub open spec fn registration_outcome(id: Seq<char>, interval_secs: u64) -> Result<int, Seq<char>> {
    match id_rejection(id) {
        Some(m) => Err(m),
        None => if interval_secs == 0 {
            Err("interval_secs must be > 0"@)
        } else if interval_secs > i64::MAX {
            Err("interval_secs overflows i64"@)
        } else {
            Ok(interval_secs as int)
        },
    }
}

/// The checks a heartbeat registration makes before anything is stored: the
/// execution id must be valid and the interval positive and storable as a
/// signed 64-bit number. On success the stored interval is returned.
pub fn registration_interval(execution_id: &str, interval_secs: u64) -> (r: Result<
    i64,
    ProtocolError,
>)
    ensures
        match (r, registration_outcome(execution_id@, interval_secs)) {
            (Ok(v), Ok(w)) => v == w,
            (Err(ProtocolError::InvalidInput(m)), Err(w)) => m@ == w,
            _ => false,
        },
{
    match validate_execution_id(execution_id) {
        Err(e) => {
            return Err(e);
        },
        Ok(()) => {},
    }
    if interval_secs == 0 {
        return Err(ProtocolError::InvalidInput(String::from_str("interval_secs must be > 0")));
    }
    if interval_secs > i64::MAX as u64 {
        return Err(ProtocolError::InvalidInput(String::from_str("interval_secs overflows i64")));
    }
    Ok(interval_secs as i64)
}

/// The detail of the answer to a beat for an execution that never registered.
pub open spec fn unregistered_detail(id: Seq<char>) -> Seq<char> {
    "no heartbeat registration for "@ + id
}

/// The answer to a beat once storage reports how many registrations it
/// refreshed: none means the execution is not registered.
pub fn beat_outcome(execution_id: &str, updated: usize) -> (r: Result<(), ProtocolError>)
    ensures
        updated > 0 ==> r is Ok,
        updated == 0 ==> (r matches Err(ProtocolError::NotFound(m)) && m@ == unregistered_detail(
            execution_id@,
        )),
{
    if updated == 0 {
        Err(
            ProtocolError::NotFound(
                String::from_str("no heartbeat registration for ").concat(execution_id),
            ),
        )
    } else {
        Ok(())
    }
}

/// One registered heartbeat with its promised interval and the seconds
/// elapsed since its last beat, both as stored.
#[derive(Debug, Clone)]
pub struct HeartbeatAge {
    pub execution_id: String,
    pub interval_s: i64,
    pub elapsed_s: i64,
}

/// A heartbeat is stale when more than three intervals passed since its last
/// beat.
pub open spec fn is_stale(h: HeartbeatAge) -> bool {
    h.elapsed_s > STALE_FACTOR * h.interval_s
}

/// How a stale heartbeat is reported: its id, the elapsed seconds and the
/// allowed maximum, both as unsigned numbers.
pub open spec fn stale_entry(h: HeartbeatAge) -> (String, u64, u64) {
    (h.execution_id, h.elapsed_s as u64, (STALE_FACTOR * h.interval_s) as u64)
}

/// The reports for the stale heartbeats among `rows`, in their order.
pub open spec fn stale_entries(rows: Seq<HeartbeatAge>) -> Seq<(String, u64, u64)>
    decreases rows.len(),
{
    if rows.len() == 0 {
        Seq::empty()
    } else {
        let before = stale_entries(rows.drop_last());
        if is_stale(rows.last()) {
            before.push(stale_entry(rows.last()))
        } else {
            before
        }
    }
}

/// Picks the stale heartbeats out of all registered ones, keeping their order.
pub fn find_stale(rows: &Vec<HeartbeatAge>) -> (stale: Vec<(String, u64, u64)>)
    ensures
        stale@ == stale_entries(rows@),
        stale@ == rows@.filter(|h: HeartbeatAge| h.elapsed_s > 3 * h.interval_s).map_values(
            |h: HeartbeatAge| (h.execution_id, h.elapsed_s as u64, (3 * h.interval_s) as u64),
        ),
{
    let mut stale: Vec<(String, u64, u64)> = Vec::new();
    let n = rows.len();
    let mut i: usize = 0;
    while i < n
        invariant
            n == rows@.len(),
            i <= n,
            stale@ == stale_entries(rows@.take(i as int)),
        decreases n - i,
    {
        let h = &rows[i];
        proof {
            assert(rows@.take(i + 1).drop_last() =~= rows@.take(i as int));
        }
        let max: i128 = 3 * (h.interval_s as i128);
        if (h.elapsed_s as i128) > max {
            stale.push((h.execution_id.clone(), h.elapsed_s as u64, max as u64));
        }
        i = i + 1;
    }
    proof {
        assert(rows@.take(n as int) =~= rows@);
        lemma_stale_means_three_intervals(rows@);
    }
    stale
}

/// `find_stale` reports exactly the stale heartbeats, in their order: a
/// heartbeat that beat within the last three intervals is never reported.
pub proof fn lemma_stale_entries_are_the_stale_rows(rows: Seq<HeartbeatAge>)
    ensures
        stale_entries(rows) == rows.filter(|h: HeartbeatAge| is_stale(h)).map_values(
            |h: HeartbeatAge| stale_entry(h),
        ),
    decreases rows.len(),
{
    let p = |h: HeartbeatAge| is_stale(h);
    let f = |h: HeartbeatAge| stale_entry(h);
    if rows.len() == 0 {
        reveal(Seq::filter);
        assert(rows.filter(p) =~= Seq::<HeartbeatAge>::empty());
        assert(rows.filter(p).map_values(f) =~= Seq::<(String, u64, u64)>::empty());
    } else {
        let init = rows.drop_last();
        lemma_stale_entries_are_the_stale_rows(init);
        assert(init.push(rows.last()) =~= rows);
        init.lemma_filter_push(rows.last(), p);
        if is_stale(rows.last()) {
            assert(init.filter(p).push(rows.last()).map_values(f) =~= init.filter(p).map_values(
                f,
            ).push(stale_entry(rows.last())));
        }
    }
}

/// `find_stale` reports a heartbeat exactly when more than three of its
/// intervals elapsed (`elapsed_s > 3 * interval_s`, as integers), in row
/// order, each with its elapsed seconds and the allowed `3 * interval_s`.
pub proof fn lemma_stale_means_three_intervals(rows: Seq<HeartbeatAge>)
    ensures
        stale_entries(rows) == rows.filter(|h: HeartbeatAge| h.elapsed_s > 3 * h.interval_s).map_values(
            |h: HeartbeatAge| (h.execution_id, h.elapsed_s as u64, (3 * h.interval_s) as u64),
        ),
{
    lemma_stale_entries_are_the_stale_rows(rows);
    let p = |h: HeartbeatAge| is_stale(h);
    let q = |h: HeartbeatAge| h.elapsed_s > 3 * h.interval_s;
    let f = |h: HeartbeatAge| stale_entry(h);
    let g = |h: HeartbeatAge| (h.execution_id, h.elapsed_s as u64, (3 * h.interval_s) as u64);
    assert(p =~= q);
    assert(f =~= g);
}

/// A heartbeat whose elapsed time is within three intervals is never
/// reported, and every report carries `3 * interval_s` as its maximum.
pub proof fn lemma_fresh_heartbeats_are_not_reported(rows: Seq<HeartbeatAge>)
    ensures
        forall|e: (String, u64, u64)|
            #[trigger] stale_entries(rows).contains(e) ==> exists|k: int|
                0 <= k < rows.len() && (#[trigger] rows[k]).execution_id == e.0 && rows[k].elapsed_s
                    > 3 * rows[k].interval_s && e.1 == rows[k].elapsed_s as u64 && e.2 == (3
                    * rows[k].interval_s) as u64,
    decreases rows.len(),
{
    if rows.len() > 0 {
        let init = rows.drop_last();
        lemma_fresh_heartbeats_are_not_reported(init);
        assert forall|e: (String, u64, u64)| #[trigger] stale_entries(rows).contains(e) implies exists|k: int|
            0 <= k < rows.len() && (#[trigger] rows[k]).execution_id == e.0 && rows[k].elapsed_s
                > 3 * rows[k].interval_s && e.1 == rows[k].elapsed_s as u64 && e.2 == (3
                * rows[k].interval_s) as u64 by {
            let idx = choose|i: int| 0 <= i < stale_entries(rows).len() && stale_entries(rows)[i] == e;
            if idx < stale_entries(init).len() {
                assert(stale_entries(init)[idx] == e);
                assert(stale_entries(init).contains(e));
                let k = choose|k: int|
                    0 <= k < init.len() && (#[trigger] init[k]).execution_id == e.0 && init[k].elapsed_s
                        > 3 * init[k].interval_s && e.1 == init[k].elapsed_s as u64 && e.2 == (3
                        * init[k].interval_s) as u64;
                assert(rows[k] == init[k]);
            } else {
                let k = rows.len() - 1;
                assert(rows[k] == rows.last());
            }
        }
    }
}

} // verus!
