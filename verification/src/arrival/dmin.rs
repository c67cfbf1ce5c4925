//! The delta-min function of an arrival bound: for each number of jobs, the
//! length of the shortest interval in which so many jobs may arrive.

use vstd::prelude::*;
use super::ArrivalBound;
use crate::time::Duration;

verus! {

/// `delta` is the delta-min value of `n` jobs: an interval one unit longer
/// may hold `n` arrivals, an interval of this length may not.
pub open spec fn is_delta_min(arrivals: spec_fn(nat) -> nat, n: nat, delta: nat) -> bool {
    arrivals(delta) < n <= arrivals(delta + 1)
}

/// `entries` lists the delta-min values of `2, 3, ...` jobs, for as many
/// jobs as may arrive in an interval of length `horizon`.
pub open spec fn lists_delta_min(
    entries: Seq<(usize, Duration)>,
    arrivals: spec_fn(nat) -> nat,
    horizon: nat,
) -> bool {
    &&& entries.len() == if arrivals(horizon) >= 2 {
        (arrivals(horizon) - 1) as nat
    } else {
        0
    }
    &&& forall|i: int|
        0 <= i < entries.len() ==> (#[trigger] entries[i]).0 == i + 2 && is_delta_min(
            arrivals,
            (i + 2) as nat,
            entries[i].1@,
        )
}

/// The least interval length in `(lo, hi]` in which `n` jobs may arrive,
/// found by bisection.
pub fn least_reaching<A: ArrivalBound>(ab: &A, n: usize, lo: Duration, hi: Duration) -> (delta:
    Duration)
    requires
        ab.wf(),
        ab.admits(hi@),
        ab.arrivals(hi@) <= usize::MAX,
        lo@ < hi@,
        ab.arrivals(lo@) < n <= ab.arrivals(hi@),
    ensures
        lo@ < delta@ <= hi@,
        ab.arrivals((delta@ - 1) as nat) < n <= ab.arrivals(delta@),
{
    let mut below: u64 = lo.val;
    let mut reaching: u64 = hi.val;
    while reaching - below > 1
        invariant
            ab.wf(),
            ab.admits(hi@),
            ab.arrivals(hi@) <= usize::MAX,
            lo@ <= below < reaching <= hi@,
            ab.arrivals(below as nat) < n <= ab.arrivals(reaching as nat),
        decreases reaching - below,
    {
        let mid: u64 = below + (reaching - below) / 2;
        proof {
            ab.law_arrivals(mid as nat, hi@);
        }
        if ab.number_arrivals(Duration { val: mid }) >= n {
            reaching = mid;
        } else {
            below = mid;
        }
    }
    Duration { val: reaching }
}

/// The delta-min values of two and more jobs, for as many jobs as may
/// arrive in an interval of length `horizon`.
pub fn nonzero_delta_min_iter<A: ArrivalBound>(ab: &A, horizon: Duration) -> (entries: Vec<
    (usize, Duration),
>)
    requires
        ab.wf(),
        ab.admits(horizon@),
        ab.arrivals(horizon@) <= usize::MAX,
    ensures
        lists_delta_min(entries@, |delta: nat| ab.arrivals(delta), horizon@),
{
    let mut entries: Vec<(usize, Duration)> = Vec::new();
    let total = ab.number_arrivals(horizon);
    let mut cursor = Duration::zero();
    let mut emitted: usize = 0;
    proof {
        ab.law_arrivals(0, horizon@);
    }
    while emitted + 1 < total
        invariant
            ab.wf(),
            ab.admits(horizon@),
            ab.arrivals(horizon@) <= usize::MAX,
            total == ab.arrivals(horizon@),
            emitted + 1 <= total || (total < 2 && emitted == 0),
            cursor@ <= horizon@,
            ab.arrivals(cursor@) < emitted + 2,
            entries@.len() == emitted,
            forall|i: int|
                0 <= i < entries@.len() ==> (#[trigger] entries@[i]).0 == i + 2 && is_delta_min(
                    |delta: nat| ab.arrivals(delta),
                    (i + 2) as nat,
                    entries@[i].1@,
                ),
        decreases total - emitted,
    {
        let n: usize = emitted + 2;
        let reached = least_reaching(ab, n, cursor, horizon);
        let delta_min = Duration { val: reached.val - 1 };
        entries.push((n, delta_min));
        cursor = delta_min;
        emitted += 1;
    }
    entries
}

/// The delta-min values of no job, one job, and so on, for as many jobs as
/// may arrive in an interval of length `horizon`.
pub fn delta_min_iter<A: ArrivalBound>(ab: &A, horizon: Duration) -> (entries: Vec<
    (usize, Duration),
>)
    requires
        ab.wf(),
        ab.admits(horizon@),
        ab.arrivals(horizon@) <= usize::MAX,
    ensures
        entries@.len() >= 2,
        entries@[0] == (0usize, Duration { val: 0 }),
        entries@[1] == (1usize, Duration { val: 0 }),
        lists_delta_min(entries@.skip(2), |delta: nat| ab.arrivals(delta), horizon@),
{
    let rest = nonzero_delta_min_iter(ab, horizon);
    let mut entries: Vec<(usize, Duration)> = Vec::new();
    entries.push((0, Duration::zero()));
    entries.push((1, Duration::zero()));
    let mut i: usize = 0;
    while i < rest.len()
        invariant
            i <= rest.len(),
            entries@.len() == i + 2,
            entries@[0] == (0usize, Duration { val: 0 }),
            entries@[1] == (1usize, Duration { val: 0 }),
            entries@.skip(2) == rest@.take(i as int),
        decreases rest.len() - i,
    {
        entries.push(rest[i]);
        proof {
            assert(entries@.skip(2) == rest@.take(i as int).push(rest@[i as int]));
            assert(rest@.take(i + 1) == rest@.take(i as int).push(rest@[i as int]));
        }
        i += 1;
    }
    proof {
        assert(rest@.take(i as int) == rest@);
    }
    entries
}

} // verus!
