//! Availability of catalog items and channels, as counted by pings: a
//! success resets an item's count of consecutive failures, a failure adds
//! one, and an item whose count reached the threshold is left out.
use vstd::prelude::*;

verus! {

/// Consecutive failed pings after which an item is hidden.
pub const CONSECUTIVE_FAILURES_THRESHOLD: i64 = 5;

/// Pings that run at once.
pub const PING_CONCURRENCY: usize = 16;

/// The count of consecutive failures after a ping (an item never pinged
/// counts as zero).
pub fn next_failure_count(previous: Option<i64>, ok: bool) -> (r: i64)
    requires
        !ok ==> (previous matches Some(p) ==> p < i64::MAX),
    ensures
        ok ==> r == 0,
        !ok ==> r == match previous {
            Some(p) => p + 1,
            None => 1,
        },
{
    if ok {
        0
    } else {
        match previous {
            Some(p) => p + 1,
            None => 1,
        }
    }
}

/// Whether an item with that count of consecutive failures is still shown
/// (an item never pinged is).
pub fn still_available(failures: Option<i64>) -> (r: bool)
    ensures
        r == match failures {
            Some(f) => f < CONSECUTIVE_FAILURES_THRESHOLD,
            None => true,
        },
{
    match failures {
        Some(f) => f < CONSECUTIVE_FAILURES_THRESHOLD,
        None => true,
    }
}

/// The positions of the items still shown, in order.
pub fn available_positions(failures: &Vec<Option<i64>>) -> (r: Vec<usize>)
    ensures
        forall|k: int| 0 <= k < r@.len() ==> #[trigger] r@[k] < failures@.len(),
        forall|j: int, k: int| 0 <= j < k < r@.len() ==> r@[j] < r@[k],
        forall|i: int|
            0 <= i < failures@.len() ==> (r@.contains(i as usize) <==> match #[trigger] failures@[i] {
                Some(f) => f < CONSECUTIVE_FAILURES_THRESHOLD,
                None => true,
            }),
{
    let mut out: Vec<usize> = Vec::new();
    let mut i: usize = 0;
    while i < failures.len()
        invariant
            i <= failures@.len(),
            forall|k: int| 0 <= k < out@.len() ==> #[trigger] out@[k] < i,
            forall|j: int, k: int| 0 <= j < k < out@.len() ==> out@[j] < out@[k],
            forall|m: int|
                0 <= m < i ==> (out@.contains(m as usize) <==> match #[trigger] failures@[m] {
                    Some(f) => f < CONSECUTIVE_FAILURES_THRESHOLD,
                    None => true,
                }),
        decreases failures@.len() - i,
    {
        let ghost before = out@;
        if still_available(failures[i]) {
            out.push(i);
            proof {
                assert forall|m: int| 0 <= m < i + 1 implies (out@.contains(m as usize) <==> match #[trigger] failures@[m] {
                    Some(f) => f < CONSECUTIVE_FAILURES_THRESHOLD,
                    None => true,
                }) by {
                    if m < i {
                        if out@.contains(m as usize) {
                            let k = choose|k: int| 0 <= k < out@.len() && out@[k] == m as usize;
                            if k < before.len() {
                                assert(before[k] == m as usize);
                            }
                        }
                        if before.contains(m as usize) {
                            let k = choose|k: int| 0 <= k < before.len() && before[k] == m as usize;
                            assert(out@[k] == m as usize);
                        }
                    } else {
                        assert(out@[before.len() as int] == i);
                    }
                }
            }
        } else {
            proof {
                assert forall|m: int| 0 <= m < i + 1 implies (out@.contains(m as usize) <==> match #[trigger] failures@[m] {
                    Some(f) => f < CONSECUTIVE_FAILURES_THRESHOLD,
                    None => true,
                }) by {
                    if m == i && out@.contains(m as usize) {
                        let k = choose|k: int| 0 <= k < out@.len() && out@[k] == m as usize;
                        assert(out@[k] < i);
                    }
                }
            }
        }
        i += 1;
    }
    out
}

/// The count of consecutive failures after a run of pings (`true` a
/// success), from a count of `start`.
pub open spec fn count_after(start: int, pings: Seq<bool>) -> int
    decreases pings.len(),
{
    if pings.len() == 0 {
        start
    } else if pings.last() {
        0
    } else {
        count_after(start, pings.drop_last()) + 1
    }
}

/// Failures add up one by one: after `n` failed pings in a row an item
/// that had `start` failures has `start + n`; so an item never pinged is
/// hidden exactly from its `CONSECUTIVE_FAILURES_THRESHOLD`-th failure in
/// a row on.
pub proof fn failures_accumulate(start: int, n: nat)
    ensures
        count_after(start, Seq::new(n, |i: int| false)) == start + n,
    decreases n,
{
    if n > 0 {
        failures_accumulate(start, (n - 1) as nat);
        assert(Seq::new(n, |i: int| false).drop_last() =~= Seq::new((n - 1) as nat, |i: int| false));
    }
}

/// One successful ping makes an item available again, whatever came
/// before it.
pub proof fn success_restores(start: int, pings: Seq<bool>)
    requires
        pings.len() > 0,
        pings.last(),
    ensures
        count_after(start, pings) == 0,
        count_after(start, pings) < CONSECUTIVE_FAILURES_THRESHOLD,
{
}

} // verus!
