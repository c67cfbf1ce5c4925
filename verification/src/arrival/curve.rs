//! Arrival curves in delta-min representation.

use vstd::prelude::*;
use vstd::std_specs::convert::FromSpecImpl;
use super::dmin::{is_delta_min, lists_delta_min, nonzero_delta_min_iter};
use super::{
    ceil_div, divide_with_ceil, lists_steps, steps_by_bisection, ArrivalBound, ArrivalModel,
    Periodic, Propagated, Sporadic,
};
use crate::fixed_point::minus;
use crate::supply::lemma_div_mod;
use crate::time::{Duration, Offset};

verus! {

/// An upper arrival curve for arbitrarily bursty arrival processes.
///
/// The curve is given by a finite delta-min vector: entry `i` is the length
/// of the shortest interval in which `i + 2` jobs arrive. The distances for
/// no job and one job are zero and not stored.
#[derive(Clone, Debug)]
pub struct Curve {
    pub min_distance: Vec<Duration>,
}

/// An arrival curve, by the name that says that it holds a finite prefix.
pub type CurvePrefix = Curve;

/// The distances of `md` never decrease.
pub open spec fn sorted(md: Seq<Duration>) -> bool {
    forall|i: int, j: int| 0 <= i <= j < md.len() ==> md[i]@ <= md[j]@
}

/// The first position from `from` on whose distance reaches `tail`, or the
/// length of `md` if there is none.
pub open spec fn first_reaching(md: Seq<Duration>, tail: nat, from: nat) -> nat
    decreases md.len() - from,
{
    if from >= md.len() {
        md.len()
    } else if tail <= md[from as int]@ {
        from
    } else {
        first_reaching(md, tail, from + 1)
    }
}

/// The arrivals in an interval of length `delta`: whole repetitions of the
/// largest known distance, each with all its jobs, then the jobs that fit
/// into what is left.
pub open spec fn curve_arrivals(md: Seq<Duration>, delta: nat) -> nat {
    if delta == 0 || md.len() == 0 || md.last()@ == 0 {
        0
    } else {
        let q = delta / md.last()@;
        let tail = delta % md.last()@;
        q * md.len() + if tail > 0 {
            1 + first_reaching(md, tail, 0)
        } else {
            0
        }
    }
}

/// The greatest sum of two distances that together cover one job more than
/// `md` does, over the first `upto + 1` ways to split the jobs.
pub open spec fn greatest_split(md: Seq<Duration>, upto: nat) -> nat
    decreases upto,
{
    let here = md[upto as int]@ + md[md.len() - upto - 1]@;
    if upto == 0 {
        here
    } else {
        let before = greatest_split(md, (upto - 1) as nat);
        if here > before {
            here
        } else {
            before
        }
    }
}

/// The distance that extrapolation adds to `md`.
pub open spec fn next_distance(md: Seq<Duration>) -> Duration {
    Duration { val: greatest_split(md, md.len() / 2) as u64 }
}

/// `md` extrapolated until it has `n` entries. A vector of fewer than two
/// entries is left as it is.
pub open spec fn extrapolated(md: Seq<Duration>, n: nat) -> Seq<Duration>
    decreases n - md.len(),
{
    if md.len() >= 2 && md.len() < n {
        extrapolated(md.push(next_distance(md)), n)
    } else {
        md
    }
}

/// `md` with each distance raised to the greatest distance before it.
pub open spec fn raised(md: Seq<Duration>) -> Seq<Duration>
    decreases md.len(),
{
    if md.len() <= 1 {
        md
    } else {
        let before = raised(md.drop_last());
        before.push(if md.last()@ > before.last()@ { md.last() } else { before.last() })
    }
}

proof fn lemma_first_reaching(md: Seq<Duration>, small: nat, large: nat, from: nat)
    requires
        small <= large,
    ensures
        from <= first_reaching(md, small, from) || from >= md.len(),
        first_reaching(md, small, from) <= first_reaching(md, large, from) <= md.len(),
        md.len() > 0 && large <= md.last()@ && from < md.len() ==> first_reaching(md, large, from)
            < md.len(),
    decreases md.len() - from,
{
    if from < md.len() {
        lemma_first_reaching(md, small, large, from + 1);
    }
}

proof fn lemma_greatest_split(md: Seq<Duration>, upto: nat)
    requires
        md.len() >= 2,
        upto < md.len(),
        sorted(md),
    ensures
        md[0]@ + md.last()@ <= greatest_split(md, upto) <= 2 * md.last()@,
    decreases upto,
{
    if upto > 0 {
        lemma_greatest_split(md, (upto - 1) as nat);
    }
}

proof fn lemma_curve_arrivals_step(md: Seq<Duration>, delta: nat)
    requires
        md.len() > 0,
        md.last()@ > 0,
    ensures
        curve_arrivals(md, 0) == 0,
        curve_arrivals(md, delta) <= curve_arrivals(md, delta + 1),
{
    let top = md.last()@;
    let len = md.len();
    let q = delta / top;
    let r = delta % top;
    assert(delta == q * top + r && r < top) by (nonlinear_arith)
        requires
            top > 0,
            q == delta / top,
            r == delta % top,
    ;
    if r + 1 < top {
        lemma_div_mod((delta + 1) as int, top as int, q as int, (r + 1) as int);
        lemma_first_reaching(md, r, r + 1, 0);
    } else {
        assert((q + 1) * top == q * top + top && (q + 1) * len == q * len + len)
            by (nonlinear_arith);
        lemma_div_mod((delta + 1) as int, top as int, (q + 1) as int, 0);
        lemma_first_reaching(md, r, r, 0);
    }
    if delta == 0 {
        assert(q * len == 0) by (nonlinear_arith)
            requires
                q == 0,
        ;
    }
}

impl Curve {
    /// Construct an arrival curve from a delta-min prefix, which must not be empty.
    pub fn new(delta_min_prefix: Vec<Duration>) -> (curve: Curve)
        requires
            delta_min_prefix@.len() > 0,
        ensures
            curve.min_distance == delta_min_prefix,
            delta_min_prefix@.last()@ > 0 ==> curve.wf(),
    {
        Curve { min_distance: delta_min_prefix }
    }

    /// Construct an arrival curve from distances that are first made
    /// monotonic: each is raised to the greatest distance before it.
    pub fn from_iter(distances: Vec<Duration>) -> (curve: Curve)
        requires
            distances@.len() > 0,
        ensures
            curve.min_distance@ == raised(distances@),
            sorted(curve.min_distance@),
    {
        let mut raised_distances: Vec<Duration> = Vec::new();
        raised_distances.push(distances[0]);
        let mut i: usize = 1;
        while i < distances.len()
            invariant
                1 <= i <= distances.len(),
                raised_distances@ == raised(distances@.take(i as int)),
                sorted(raised_distances@),
                raised_distances@.len() == i,
            decreases distances.len() - i,
        {
            proof {
                assert(distances@.take(i + 1).drop_last() == distances@.take(i as int));
            }
            let before = raised_distances[i - 1];
            let next = if distances[i].val > before.val {
                distances[i]
            } else {
                before
            };
            raised_distances.push(next);
            i += 1;
        }
        proof {
            assert(distances@.take(i as int) == distances@);
        }
        Curve { min_distance: raised_distances }
    }

    /// A curve of its own with the same delta-min vector.
    pub fn copy_of(&self) -> (copy: Curve)
        ensures
            copy.min_distance@ == self.min_distance@,
    {
        let mut distances: Vec<Duration> = Vec::new();
        let mut i: usize = 0;
        while i < self.min_distance.len()
            invariant
                i <= self.min_distance@.len(),
                distances@ == self.min_distance@.take(i as int),
            decreases self.min_distance.len() - i,
        {
            distances.push(self.min_distance[i]);
            proof {
                assert(self.min_distance@.take(i + 1) == self.min_distance@.take(i as int).push(
                    self.min_distance@[i as int],
                ));
            }
            i += 1;
        }
        proof {
            assert(self.min_distance@.take(i as int) == self.min_distance@);
        }
        Curve { min_distance: distances }
    }

    /// Whether the delta-min vector is long enough to be extrapolated.
    fn can_extrapolate(&self) -> (b: bool)
        ensures
            b == (self.min_distance@.len() >= 2),
    {
        self.min_distance.len() >= 2
    }

    /// The distance that follows from the known ones for one job more.
    fn extrapolate_next(&self) -> (next: Duration)
        requires
            self.min_distance@.len() >= 2,
            sorted(self.min_distance@),
            2 * self.min_distance@.last()@ <= u64::MAX,
        ensures
            next == next_distance(self.min_distance@),
    {
        let n: usize = self.min_distance.len();
        let mut greatest: u64 = self.min_distance[0].val + self.min_distance[n - 1].val;
        let mut k: usize = 1;
        while k <= n / 2
            invariant
                n == self.min_distance@.len(),
                n >= 2,
                sorted(self.min_distance@),
                2 * self.min_distance@.last()@ <= u64::MAX,
                1 <= k <= n / 2 + 1,
                greatest == greatest_split(self.min_distance@, (k - 1) as nat),
            decreases n / 2 + 1 - k,
        {
            let here: u64 = self.min_distance[k].val + self.min_distance[n - k - 1].val;
            if here > greatest {
                greatest = here;
            }
            k += 1;
        }
        Duration { val: greatest }
    }

    /// Extend the delta-min vector, by the distances that follow from the known
    /// ones, until it covers intervals of length `horizon`. A vector of
    /// fewer than two entries is left as it is.
    pub fn extrapolate(&mut self, horizon: Duration)
        requires
            old(self).min_distance@.len() >= 1,
            sorted(old(self).min_distance@),
            old(self).min_distance@[0]@ > 0,
            2 * horizon@ <= u64::MAX,
        ensures
            final(self).min_distance@ == extrapolated(
                old(self).min_distance@,
                final(self).min_distance@.len() as nat,
            ),
            sorted(final(self).min_distance@),
            final(self).min_distance@.len() >= old(self).min_distance@.len(),
            old(self).min_distance@.len() >= 2 ==> final(self).min_distance@.last()@ >= horizon@,
            final(self).min_distance@.len() > old(self).min_distance@.len() ==> horizon@ > final(self)
                .min_distance@[final(self).min_distance@.len() - 2]@,
    {
        if self.can_extrapolate() {
            let mut largest = self.largest_known_distance();
            while largest.val < horizon.val
                invariant
                    self.min_distance@.len() >= 2,
                    largest == self.min_distance@.last(),
                    self.min_distance@.len() >= old(self).min_distance@.len(),
                    sorted(self.min_distance@),
                    self.min_distance@[0]@ > 0,
                    2 * horizon@ <= u64::MAX,
                    forall|n: nat|
                        n > self.min_distance@.len() ==> #[trigger] extrapolated(
                            old(self).min_distance@,
                            n,
                        ) == extrapolated(self.min_distance@, n),
                    self.min_distance@ == extrapolated(
                        old(self).min_distance@,
                        self.min_distance@.len() as nat,
                    ),
                    self.min_distance@.len() > old(self).min_distance@.len()
                        ==> self.min_distance@[self.min_distance@.len() - 2]@ < horizon@,
                decreases minus(horizon@, largest@),
            {
                let ghost before = self.min_distance@;
                proof {
                    lemma_greatest_split(before, before.len() / 2);
                }
                let next = self.extrapolate_next();
                self.min_distance.push(next);
                largest = next;
                proof {
                    let after = self.min_distance@;
                    assert(after == before.push(next_distance(before)));
                    assert(extrapolated(old(self).min_distance@, after.len()) == extrapolated(
                        before,
                        after.len(),
                    ));
                    assert(extrapolated(after, after.len()) == after);
                    assert forall|i: int, j: int| 0 <= i <= j < after.len() implies after[i]@
                        <= after[j]@ by {
                        if j == before.len() && i < j {
                            assert(after[i] == before[i]);
                            assert(before[i]@ <= before.last()@);
                        }
                    }
                }
            }
        }
    }

    /// The length of the shortest interval that holds two jobs.
    fn min_job_separation(&self) -> (delta: Duration)
        requires
            self.min_distance@.len() > 0,
        ensures
            delta == self.min_distance@[0],
    {
        self.min_distance[0]
    }

    /// The largest distance of the delta-min vector.
    fn largest_known_distance(&self) -> (delta: Duration)
        requires
            self.min_distance@.len() > 0,
        ensures
            delta == self.min_distance@.last(),
    {
        self.min_distance[self.min_distance.len() - 1]
    }

    /// The number of jobs that each repetition of the largest distance adds.
    fn jobs_in_largest_known_distance(&self) -> (n: usize)
        ensures
            n == self.min_distance@.len(),
    {
        self.min_distance.len()
    }

    /// The jobs that fit into an interval of length `delta`, which must not
    /// exceed the largest known distance. Does not extrapolate.
    fn lookup_arrivals(&self, delta: Duration) -> (n: usize)
        requires
            self.min_distance@.len() > 0,
            delta@ <= self.min_distance@.last()@,
        ensures
            n == 1 + first_reaching(self.min_distance@, delta@, 0),
            n <= self.min_distance@.len(),
    {
        let mut i: usize = 0;
        proof {
            lemma_first_reaching(self.min_distance@, delta@, delta@, 0);
        }
        while i < self.min_distance.len()
            invariant
                i <= self.min_distance@.len(),
                first_reaching(self.min_distance@, delta@, 0) == first_reaching(
                    self.min_distance@,
                    delta@,
                    i as nat,
                ),
                first_reaching(self.min_distance@, delta@, 0) < self.min_distance@.len(),
            decreases self.min_distance.len() - i,
        {
            if delta.val <= self.min_distance[i].val {
                return i + 1;
            }
            i += 1;
        }
        i
    }

    /// A lower bound on the length of an interval in which `n` jobs arrive.
    /// Does not extrapolate: beyond the delta-min vector it is the largest
    /// known distance.
    pub fn min_distance(&self, n: usize) -> (delta: Duration)
        requires
            self.min_distance@.len() > 0,
        ensures
            delta == if n <= 1 {
                Duration { val: 0 }
            } else if n - 2 < self.min_distance@.len() {
                self.min_distance@[n - 2]
            } else {
                self.min_distance@.last()
            },
    {
        if n > 1 {
            if n - 2 < self.min_distance.len() {
                self.min_distance[n - 2]
            } else {
                self.min_distance[self.min_distance.len() - 1]
            }
        } else {
            Duration::zero()
        }
    }
}

/// The least separation observed in `trace` between an arrival and the
/// arrival `i + 1` places before it, over the first `upto` arrivals.
pub open spec fn least_gap(trace: Seq<Offset>, i: nat, upto: nat) -> nat
    decreases upto,
{
    if upto <= i + 2 {
        (trace[(i + 1) as int]@ - trace[0]@) as nat
    } else {
        let before = least_gap(trace, i, (upto - 1) as nat);
        let here = (trace[upto - 1]@ - trace[upto - 2 - i]@) as nat;
        if here < before {
            here
        } else {
            before
        }
    }
}

/// The arrival times of `trace` never decrease.
pub open spec fn monotonic(trace: Seq<Offset>) -> bool {
    forall|i: int, j: int| 0 <= i <= j < trace.len() ==> trace[i]@ <= trace[j]@
}

/// The jobs up to which a sporadic process is unrolled into a curve: five
/// hundred, or ten times the jobs that its jitter can hold back.
pub open spec fn unrolled_jobs(s: Sporadic) -> nat {
    let jitter_jobs = ceil_div(s.jitter@, s.min_inter_arrival@);
    if jitter_jobs * 10 > 500 {
        jitter_jobs * 10
    } else {
        500
    }
}

impl Curve {
    /// Extend the delta-min vector, by the distances that follow from the
    /// known ones, until it has `n` entries. A vector of fewer than two
    /// entries is left as it is.
    pub fn extrapolate_steps(&mut self, n: usize)
        requires
            old(self).min_distance@.len() >= 1,
            sorted(old(self).min_distance@),
            n * old(self).min_distance@.last()@ <= u64::MAX / 2,
        ensures
            final(self).min_distance@ == extrapolated(old(self).min_distance@, n as nat),
            sorted(final(self).min_distance@),
    {
        let ghost top = self.min_distance@.last()@;
        if self.can_extrapolate() {
            proof {
                assert forall|i: int| 0 <= i < self.min_distance@.len() implies (
                #[trigger] self.min_distance@[i])@ <= (i + 1) * top by {
                    assert((i + 1) * top >= top) by (nonlinear_arith)
                        requires
                            i >= 0,
                            top >= 0,
                    ;
                }
            }
            while self.jobs_in_largest_known_distance() < n
                invariant
                    self.min_distance@.len() >= 2,
                    sorted(self.min_distance@),
                    n * top <= u64::MAX / 2,
                    forall|i: int|
                        0 <= i < self.min_distance@.len() ==> (#[trigger] self.min_distance@[i])@
                            <= (i + 1) * top,
                    extrapolated(self.min_distance@, n as nat) == extrapolated(
                        old(self).min_distance@,
                        n as nat,
                    ),
                decreases n - self.min_distance@.len(),
            {
                let ghost before = self.min_distance@;
                proof {
                    let len = before.len() as int;
                    lemma_greatest_split(before, before.len() / 2);
                    lemma_greatest_split_linear(before, before.len() / 2, top);
                    assert(len * top <= n * top && (len + 1) * top <= n * top) by (nonlinear_arith)
                        requires
                            len < n,
                            top >= 0,
                    ;
                }
                let next = self.extrapolate_next();
                self.min_distance.push(next);
                proof {
                    let after = self.min_distance@;
                    assert(after == before.push(next_distance(before)));
                    assert forall|i: int, j: int| 0 <= i <= j < after.len() implies after[i]@
                        <= after[j]@ by {
                        if j == before.len() && i < j {
                            assert(after[i] == before[i]);
                            assert(before[i]@ <= before.last()@);
                        }
                    }
                    assert forall|i: int| 0 <= i < after.len() implies (#[trigger] after[i])@ <= (i
                        + 1) * top by {
                        if i < before.len() {
                            assert(after[i] == before[i]);
                        }
                    }
                }
            }
        }
    }

    /// Extend the delta-min vector by one entry, for `bound.1` jobs, using
    /// both the distance that follows from the known ones and the given
    /// bound `(delta, njobs)`: the larger of the two is taken. Nothing
    /// happens unless `njobs` is the number of jobs of the next entry.
    pub fn extrapolate_with_bound(&mut self, bound: (Duration, usize))
        requires
            bound.0@ >= 1,
            old(self).min_distance@.len() >= 1,
            sorted(old(self).min_distance@),
            2 * old(self).min_distance@.last()@ <= u64::MAX,
        ensures
            final(self).min_distance@ == if old(self).min_distance@.len() + 2 != bound.1 {
                old(self).min_distance@
            } else if old(self).min_distance@.len() >= 2 && next_distance(
                old(self).min_distance@,
            )@ > bound.0@ - 1 {
                old(self).min_distance@.push(next_distance(old(self).min_distance@))
            } else {
                old(self).min_distance@.push(Duration { val: (bound.0@ - 1) as u64 })
            },
    {
        let (delta, njobs) = bound;
        let dmin = Duration { val: delta.val - 1 };
        if njobs >= 2 && self.min_distance.len() == njobs - 2 {
            if self.can_extrapolate() {
                let extrapolated = self.extrapolate_next();
                if extrapolated.val > dmin.val {
                    self.min_distance.push(extrapolated);
                } else {
                    self.min_distance.push(dmin);
                }
            } else {
                self.min_distance.push(dmin);
            }
        }
    }

    /// Derive an arrival curve from any arrival bound: the delta-min values
    /// of two and more jobs, up to `up_to_njobs` jobs but at least two
    /// values, as far as so many jobs may arrive within `horizon`.
    pub fn from_arrival_bound<T: ArrivalBound>(ab: &T, up_to_njobs: usize, horizon: Duration) -> (curve:
        Curve)
        requires
            ab.wf(),
            ab.admits(horizon@),
            2 <= ab.arrivals(horizon@) <= usize::MAX,
        ensures
            curve.min_distance@.len() == ({
                let wanted: nat = if up_to_njobs >= 3 { (up_to_njobs - 1) as nat } else { 2 };
                let known = (ab.arrivals(horizon@) - 1) as nat;
                if wanted < known { wanted } else { known }
            }),
            forall|i: int|
                0 <= i < curve.min_distance@.len() ==> is_delta_min(
                    |delta: nat| ab.arrivals(delta),
                    (i + 2) as nat,
                    (#[trigger] curve.min_distance@[i])@,
                ),
    {
        let entries = nonzero_delta_min_iter(ab, horizon);
        let mut distances: Vec<Duration> = Vec::new();
        let mut count: usize = 0;
        while count < entries.len() && (entries[count].0 <= up_to_njobs || count < 2)
            invariant
                lists_delta_min(entries@, |delta: nat| ab.arrivals(delta), horizon@),
                count <= entries@.len(),
                distances@.len() == count,
                count <= if up_to_njobs >= 3 { (up_to_njobs - 1) as nat } else { 2 },
                forall|i: int|
                    0 <= i < count ==> (#[trigger] distances@[i]) == entries@[i].1,
            decreases entries.len() - count,
        {
            distances.push(entries[count].1);
            count += 1;
        }
        Curve::new(distances)
    }

    /// Derive an arrival curve from any arrival bound: the delta-min values
    /// that do not exceed `horizon`.
    pub fn from_arrival_bound_until<T: ArrivalBound>(ab: &T, horizon: Duration) -> (curve: Curve)
        requires
            ab.wf(),
            horizon@ < u64::MAX,
            ab.admits(horizon@ + 1),
            2 <= ab.arrivals(horizon@ + 1) <= usize::MAX,
        ensures
            curve.min_distance@.len() == ab.arrivals(horizon@ + 1) - 1,
            forall|i: int|
                0 <= i < curve.min_distance@.len() ==> is_delta_min(
                    |delta: nat| ab.arrivals(delta),
                    (i + 2) as nat,
                    (#[trigger] curve.min_distance@[i])@,
                ),
    {
        let entries = nonzero_delta_min_iter(ab, Duration { val: horizon.val + 1 });
        let mut distances: Vec<Duration> = Vec::new();
        let mut count: usize = 0;
        while count < entries.len()
            invariant
                count <= entries@.len(),
                distances@.len() == count,
                forall|i: int|
                    0 <= i < count ==> (#[trigger] distances@[i]) == entries@[i].1,
            decreases entries.len() - count,
        {
            distances.push(entries[count].1);
            count += 1;
        }
        Curve::new(distances)
    }

    /// Unroll a sporadic process into an arrival curve that covers
    /// [`unrolled_jobs`] jobs of it.
    pub fn from_sporadic(s: Sporadic) -> (curve: Curve)
        requires
            s.wf(),
            unrolled_jobs(s) * s.min_inter_arrival@ + s.jitter@ <= usize::MAX,
        ensures
            curve.min_distance@.len() == unrolled_jobs(s) - 1,
            forall|i: int|
                0 <= i < curve.min_distance@.len() ==> is_delta_min(
                    |delta: nat| s.arrivals(delta),
                    (i + 2) as nat,
                    (#[trigger] curve.min_distance@[i])@,
                ),
    {
        let t: u64 = s.min_inter_arrival.val;
        proof {
            lemma_unrolled(s);
        }
        let jitter_jobs: u64 = divide_with_ceil(s.jitter, s.min_inter_arrival);
        let n: u64 = if jitter_jobs * 10 > 500 {
            jitter_jobs * 10
        } else {
            500
        };
        let horizon = Duration { val: n * t };
        Curve::from_arrival_bound(&s, n as usize, horizon)
    }

    /// Unroll a sporadic process into an arrival curve that covers the jobs
    /// of an interval of length `interval` and one more: entry `i` is
    /// `i + 1` separations less the jitter, with a floor of zero.
    pub fn unroll_sporadic(s: &Sporadic, interval: Duration) -> (curve: Curve)
        requires
            s.wf(),
            s.arrivals(interval@) < usize::MAX,
            (s.arrivals(interval@) + 1) * s.min_inter_arrival@ <= u64::MAX,
        ensures
            curve.min_distance@.len() == s.arrivals(interval@) + 1,
            forall|i: int|
                0 <= i < curve.min_distance@.len() ==> (#[trigger] curve.min_distance@[i])@
                    == minus(((i + 1) * s.min_inter_arrival@) as nat, s.jitter@),
    {
        let n: usize = s.number_arrivals(interval) + 1;
        let mut v: Vec<Duration> = Vec::new();
        let mut i: usize = 0;
        while i < n
            invariant
                i <= n,
                n * s.min_inter_arrival@ <= u64::MAX,
                v@.len() == i,
                forall|j: int|
                    0 <= j < i ==> (#[trigger] v@[j])@ == minus(
                        ((j + 1) * s.min_inter_arrival@) as nat,
                        s.jitter@,
                    ),
            decreases n - i,
        {
            let periods: u64 = i as u64 + 1;
            proof {
                let t = s.min_inter_arrival@ as int;
                assert(0 <= periods * t <= n * t && periods * t == t * periods) by (nonlinear_arith)
                    requires
                        0 <= periods <= n,
                        t >= 0,
                ;
            }
            let reach: u64 = s.min_inter_arrival.val * periods;
            if s.jitter.val >= reach {
                v.push(Duration::zero());
            } else {
                v.push(Duration { val: reach - s.jitter.val });
            }
            i += 1;
        }
        Curve::new(v)
    }

    /// Derive an arrival curve from a trace of arrival times, which must
    /// not decrease: entry `i` is the least separation observed between an
    /// arrival and the arrival `i + 1` places before it, for up to
    /// `prefix_jobs` entries.
    pub fn from_trace(arrival_times: &Vec<Offset>, prefix_jobs: usize) -> (curve: Curve)
        requires
            monotonic(arrival_times@),
            arrival_times@.len() >= 2,
            prefix_jobs >= 1,
        ensures
            curve.min_distance@.len() == if arrival_times@.len() - 1 < prefix_jobs {
                (arrival_times@.len() - 1) as nat
            } else {
                prefix_jobs as nat
            },
            forall|i: int|
                0 <= i < curve.min_distance@.len() ==> (#[trigger] curve.min_distance@[i])@
                    == least_gap(arrival_times@, i as nat, arrival_times@.len()),
    {
        let mut d: Vec<Duration> = Vec::new();
        let mut t: usize = 1;
        while t < arrival_times.len()
            invariant
                monotonic(arrival_times@),
                prefix_jobs >= 1,
                1 <= t <= arrival_times.len(),
                d@.len() == if t - 1 < prefix_jobs { (t - 1) as nat } else { prefix_jobs as nat },
                forall|i: int|
                    0 <= i < d@.len() ==> (#[trigger] d@[i])@ == least_gap(
                        arrival_times@,
                        i as nat,
                        t as nat,
                    ),
            decreases arrival_times.len() - t,
        {
            let window: usize = if t < prefix_jobs {
                t
            } else {
                prefix_jobs
            };
            let mut i: usize = 0;
            while i < window
                invariant
                    monotonic(arrival_times@),
                    t < arrival_times.len(),
                    window == if t < prefix_jobs { t } else { prefix_jobs },
                    i <= window,
                    d@.len() >= if t - 1 < prefix_jobs { (t - 1) as nat } else { prefix_jobs as nat },
                    d@.len() == if i < d@.len() {
                        if t - 1 < prefix_jobs { (t - 1) as nat } else { prefix_jobs as nat }
                    } else {
                        i as nat
                    },
                    forall|j: int|
                        0 <= j < d@.len() ==> (#[trigger] d@[j])@ == least_gap(
                            arrival_times@,
                            j as nat,
                            if j < i { (t + 1) as nat } else { t as nat },
                        ),
                decreases window - i,
            {
                let observed_gap = arrival_times[t - 1 - i].distance_to(arrival_times[t]);
                if d.len() <= i {
                    d.push(observed_gap);
                } else if observed_gap.val < d[i].val {
                    d.set(i, observed_gap);
                }
                i += 1;
            }
            t += 1;
        }
        Curve::new(d)
    }
}

proof fn lemma_greatest_split_linear(md: Seq<Duration>, upto: nat, top: nat)
    requires
        md.len() >= 2,
        upto < md.len(),
        forall|i: int| 0 <= i < md.len() ==> (#[trigger] md[i])@ <= (i + 1) * top,
    ensures
        greatest_split(md, upto) <= (md.len() + 1) * top,
    decreases upto,
{
    let len = md.len() as int;
    let k = upto as int;
    assert((k + 1) * top + (len - k) * top == (len + 1) * top) by (nonlinear_arith);
    assert(md[k]@ <= (k + 1) * top);
    assert(md[len - k - 1]@ <= (len - k - 1 + 1) * top);
    if upto > 0 {
        lemma_greatest_split_linear(md, (upto - 1) as nat, top);
    }
}

proof fn lemma_unrolled(s: Sporadic)
    requires
        s.wf(),
        unrolled_jobs(s) * s.min_inter_arrival@ + s.jitter@ <= usize::MAX,
    ensures
        ceil_div(s.jitter@, s.min_inter_arrival@) * 10 <= u64::MAX,
        unrolled_jobs(s) * s.min_inter_arrival@ <= u64::MAX,
        unrolled_jobs(s) <= s.arrivals(unrolled_jobs(s) * s.min_inter_arrival@) <= usize::MAX,
{
    let t = s.min_inter_arrival@;
    let j = s.jitter@;
    let n = unrolled_jobs(s);
    assert(n * t >= n && n * t >= 0) by (nonlinear_arith)
        requires
            t >= 1,
            n >= 0,
    ;
    super::lemma_ceil_div_split(n * t, j, t);
    lemma_div_mod((n * t) as int, t as int, n as int, 0);
    assert(j / t <= j && j / t >= 0) by (nonlinear_arith)
        requires
            t >= 1,
            j >= 0,
    ;
}

impl ArrivalBound for Curve {
    open spec fn wf(&self) -> bool {
        self.min_distance@.len() > 0 && self.min_distance@.last()@ > 0
    }

    open spec fn arrivals(&self, delta: nat) -> nat {
        curve_arrivals(self.min_distance@, delta)
    }

    open spec fn admits(&self, delta: nat) -> bool {
        true
    }

    fn number_arrivals(&self, delta: Duration) -> (n: usize) {
        if delta.is_non_zero() {
            let top = self.largest_known_distance();
            let prefix: u64 = delta.val / top.val;
            let tail = Duration { val: delta.val % top.val };
            let len: usize = self.jobs_in_largest_known_distance();
            proof {
                let q = prefix as int;
                assert(q * len >= q && q >= 0 && q * len >= 0) by (nonlinear_arith)
                    requires
                        q >= 0,
                        len >= 1,
                ;
            }
            let whole: usize = prefix as usize;
            proof {
                assert(whole * len == prefix * len);
            }
            let prefix_jobs: usize = whole * len;
            if tail.val > self.min_job_separation().val {
                prefix_jobs + self.lookup_arrivals(tail)
            } else if tail.is_non_zero() {
                prefix_jobs + 1
            } else {
                prefix_jobs
            }
        } else {
            0
        }
    }

    fn duplicate(&self) -> (copy: Self) {
        self.copy_of()
    }

    proof fn law_arrivals(&self, shorter: nat, longer: nat)
        decreases longer,
    {
        lemma_curve_arrivals_step(self.min_distance@, 0);
        if shorter < longer {
            self.law_arrivals(shorter, (longer - 1) as nat);
            lemma_curve_arrivals_step(self.min_distance@, (longer - 1) as nat);
        }
    }
}

/// An arrival curve that extends its delta-min vector as far as each query
/// needs, and keeps what it has extended.
#[derive(Clone, Debug)]
pub struct ExtrapolatingCurve {
    pub prefix: Curve,
}

/// An extrapolating arrival curve, by the name that says that it holds a
/// finite prefix.
pub type ExtrapolatingCurvePrefix = ExtrapolatingCurve;

impl ExtrapolatingCurve {
    /// Wrap an arrival curve so that queries extrapolate it on demand.
    pub fn new(curve: Curve) -> (wrapped: Self)
        ensures
            wrapped.prefix == curve,
    {
        ExtrapolatingCurve { prefix: curve }
    }

    /// Extend the wrapped curve until it covers intervals of length
    /// `delta` and one unit of time more, as a query at `delta` needs it.
    pub fn extrapolate_for(&mut self, delta: Duration)
        requires
            old(self).prefix.min_distance@.len() >= 1,
            sorted(old(self).prefix.min_distance@),
            old(self).prefix.min_distance@[0]@ > 0,
            2 * (delta@ + 1) <= u64::MAX,
        ensures
            final(self).prefix.min_distance@ == extrapolated(
                old(self).prefix.min_distance@,
                final(self).prefix.min_distance@.len() as nat,
            ),
            sorted(final(self).prefix.min_distance@),
            final(self).prefix.min_distance@.len() >= old(self).prefix.min_distance@.len(),
            final(self).prefix.min_distance@[0] == old(self).prefix.min_distance@[0],
            final(self).prefix.wf(),
            old(self).prefix.min_distance@.len() >= 2 ==> final(self).prefix.min_distance@.last()@
                > delta@,
            old(self).prefix.min_distance@.len() < 2 ==> final(self).prefix.min_distance@ == old(
                self,
            ).prefix.min_distance@,
    {
        let ghost before = self.prefix.min_distance@;
        self.prefix.extrapolate(Duration { val: delta.val + 1 });
        proof {
            lemma_extrapolated_keeps(before, self.prefix.min_distance@.len() as nat);
        }
    }
}

/// Extrapolation keeps the known entries where they are.
proof fn lemma_extrapolated_keeps(md: Seq<Duration>, n: nat)
    requires
        md.len() >= 1,
    ensures
        extrapolated(md, n).len() >= md.len(),
        extrapolated(md, n)[0] == md[0],
        md.len() < 2 ==> extrapolated(md, n) == md,
    decreases n - md.len(),
{
    if md.len() >= 2 && md.len() < n {
        lemma_extrapolated_keeps(md.push(next_distance(md)), n);
    }
}

/// Within the largest known distance, no more jobs arrive than the
/// delta-min vector has entries.
proof fn lemma_arrivals_within(md: Seq<Duration>, delta: nat)
    requires
        md.len() >= 1,
        md.last()@ > delta,
    ensures
        curve_arrivals(md, delta) <= md.len(),
{
    lemma_div_mod(delta as int, md.last()@ as int, 0, delta as int);
    lemma_first_reaching(md, delta, delta, 0);
}

/// The longest interval for which extrapolation stays within the machine's limits.
pub open spec fn longest_covered() -> nat {
    (u64::MAX / 2 - 1) as nat
}

/// `md` extrapolated until its largest distance exceeds `delta`, by at
/// most `fuel` entries. A vector of fewer than two entries is left as it is.
pub open spec fn grown(md: Seq<Duration>, delta: nat, fuel: nat) -> Seq<Duration>
    decreases fuel,
{
    if md.len() < 2 || md.last()@ > delta || fuel == 0 {
        md
    } else {
        grown(md.push(next_distance(md)), delta, (fuel - 1) as nat)
    }
}

/// The arrivals in an interval of length `delta`, on the delta-min vector
/// `md` extrapolated as far as the interval needs it. Beyond the longest
/// interval that extrapolation covers, the bound stays as it is there.
pub open spec fn on_demand_arrivals(md: Seq<Duration>, delta: nat) -> nat {
    if md.len() < 2 {
        curve_arrivals(md, delta)
    } else {
        let d = if delta <= longest_covered() {
            delta
        } else {
            longest_covered()
        };
        if d == 0 {
            0
        } else {
            1 + first_reaching(grown(md, d, d + 1), d, 0)
        }
    }
}

/// Extrapolation to more entries only adds entries.
proof fn lemma_extrapolated_prefix(md: Seq<Duration>, n: nat, m: nat)
    requires
        md.len() >= 2,
        md.len() <= n <= m,
    ensures
        extrapolated(md, n).len() == n,
        extrapolated(md, m).len() == m,
        extrapolated(md, m).take(n as int) == extrapolated(md, n),
    decreases m - md.len(),
{
    if md.len() < n {
        lemma_extrapolated_prefix(md.push(next_distance(md)), n, m);
    } else if md.len() < m {
        let longer = md.push(next_distance(md));
        lemma_extrapolated_prefix(longer, longer.len(), m);
        let all = extrapolated(longer, m);
        assert(all.take(longer.len() as int) == longer);
        assert forall|i: int| 0 <= i < n implies all[i] == md[i] by {
            assert(all.take(longer.len() as int)[i] == all[i]);
            assert(longer[i] == md[i]);
        }
        assert(all.take(n as int) =~= md);
    } else {
        assert(md.take(n as int) == md);
    }
}

/// In a part of a vector that reaches `tail`, the first position that
/// reaches it is the same as in the whole.
proof fn lemma_first_reaching_prefix(s: Seq<Duration>, n: nat, tail: nat, from: nat)
    requires
        1 <= n <= s.len(),
        from < n,
        tail <= s[n - 1]@,
    ensures
        first_reaching(s.take(n as int), tail, from) == first_reaching(s, tail, from),
    decreases n - from,
{
    assert(s.take(n as int)[from as int] == s[from as int]);
    if tail > s[from as int]@ {
        lemma_first_reaching_prefix(s, n, tail, from + 1);
    }
}

/// What extrapolation until a covered interval length yields.
proof fn lemma_grown(md: Seq<Duration>, delta: nat, fuel: nat)
    requires
        md.len() >= 2,
        sorted(md),
        md[0]@ > 0,
        delta <= longest_covered(),
        fuel + md.last()@ > delta,
    ensures
        ({
            let g = grown(md, delta, fuel);
            &&& g.len() >= md.len()
            &&& g.last()@ > delta
            &&& sorted(g)
            &&& g == extrapolated(md, g.len())
            &&& g.len() > md.len() ==> g[g.len() - 2]@ <= delta
        }),
    decreases fuel,
{
    if md.last()@ <= delta {
        let longer = md.push(next_distance(md));
        lemma_greatest_split(md, md.len() / 2);
        assert forall|i: int, j: int| 0 <= i <= j < longer.len() implies longer[i]@
            <= longer[j]@ by {
            if j == md.len() && i < j {
                assert(longer[i] == md[i]);
                assert(md[i]@ <= md.last()@);
            }
        }
        lemma_grown(longer, delta, (fuel - 1) as nat);
        let g = grown(md, delta, fuel);
        assert(extrapolated(md, g.len()) == extrapolated(longer, g.len()));
        if g.len() == longer.len() {
            lemma_extrapolated_prefix(longer, longer.len(), longer.len());
            assert(g == longer);
        }
    }
}

/// An extrapolation that stops where the largest distance first exceeds
/// `delta` is the one that [`grown`] names.
proof fn lemma_grown_is_least(md: Seq<Duration>, delta: nat, stopped: Seq<Duration>)
    requires
        md.len() >= 2,
        sorted(md),
        md[0]@ > 0,
        delta <= longest_covered(),
        stopped == extrapolated(md, stopped.len()),
        stopped.len() >= md.len(),
        sorted(stopped),
        stopped.last()@ > delta,
        stopped.len() > md.len() ==> stopped[stopped.len() - 2]@ <= delta,
    ensures
        stopped == grown(md, delta, delta + 1),
{
    lemma_grown(md, delta, delta + 1);
    let g = grown(md, delta, delta + 1);
    if stopped.len() < g.len() {
        lemma_extrapolated_prefix(md, stopped.len(), g.len());
        assert(stopped.last() == g[stopped.len() - 1]);
        assert(g[stopped.len() - 1]@ <= g[g.len() - 2]@);
    } else if g.len() < stopped.len() {
        lemma_extrapolated_prefix(md, g.len(), stopped.len());
        assert(g.last() == stopped[g.len() - 1]);
        assert(stopped[g.len() - 1]@ <= stopped[stopped.len() - 2]@);
    }
}

impl ArrivalBound for ExtrapolatingCurve {
    open spec fn wf(&self) -> bool {
        &&& self.prefix.min_distance@.len() >= 1
        &&& sorted(self.prefix.min_distance@)
        &&& self.prefix.min_distance@[0]@ > 0
    }

    open spec fn arrivals(&self, delta: nat) -> nat {
        on_demand_arrivals(self.prefix.min_distance@, delta)
    }

    open spec fn admits(&self, delta: nat) -> bool {
        delta <= longest_covered()
    }

    fn number_arrivals(&self, delta: Duration) -> (n: usize) {
        if delta.is_zero() {
            proof {
                lemma_curve_arrivals_step(self.prefix.min_distance@, 0);
            }
            0
        } else {
            let mut curve = self.prefix.copy_of();
            if curve.can_extrapolate() {
                curve.extrapolate(Duration { val: delta.val + 1 });
                proof {
                    lemma_grown_is_least(self.prefix.min_distance@, delta@, curve.min_distance@);
                    lemma_div_mod(delta@ as int, curve.min_distance@.last()@ as int, 0, delta@ as int);
                }
            }
            curve.number_arrivals(delta)
        }
    }

    fn duplicate(&self) -> (copy: Self) {
        ExtrapolatingCurve { prefix: self.prefix.copy_of() }
    }

    proof fn law_arrivals(&self, shorter: nat, longer: nat) {
        let md = self.prefix.min_distance@;
        if md.len() < 2 {
            self.prefix.law_arrivals(shorter, longer);
        } else {
            let cap = longest_covered();
            let d1 = if shorter <= cap { shorter } else { cap };
            let d2 = if longer <= cap { longer } else { cap };
            if d1 > 0 {
                lemma_grown(md, d1, d1 + 1);
                lemma_grown(md, d2, d2 + 1);
                let g1 = grown(md, d1, d1 + 1);
                let g2 = grown(md, d2, d2 + 1);
                if g2.len() < g1.len() {
                    lemma_extrapolated_prefix(md, g2.len(), g1.len());
                    assert(g2.last() == g1[g2.len() - 1]);
                    assert(g1[g2.len() - 1]@ <= g1[g1.len() - 2]@);
                }
                lemma_extrapolated_prefix(md, g1.len(), g2.len());
                lemma_first_reaching_prefix(g2, g1.len(), d1, 0);
                lemma_first_reaching(g2, d1, d2, 0);
            }
        }
    }
}

impl ArrivalModel for ExtrapolatingCurve {
    type Jittered = Propagated<ExtrapolatingCurve>;

    fn steps_iter(&self, horizon: Duration) -> (steps: Vec<Duration>) {
        steps_by_bisection(self, horizon)
    }

    open spec fn admits_jitter(&self, jitter: nat) -> bool {
        true
    }

    fn clone_with_jitter(&self, jitter: Duration) -> (ab: Propagated<ExtrapolatingCurve>) {
        Propagated::with_jitter(self, jitter)
    }
}

impl ArrivalModel for Curve {
    type Jittered = Propagated<Curve>;

    fn steps_iter(&self, horizon: Duration) -> (steps: Vec<Duration>) {
        steps_by_bisection(self, horizon)
    }

    open spec fn admits_jitter(&self, jitter: nat) -> bool {
        true
    }

    fn clone_with_jitter(&self, jitter: Duration) -> (ab: Propagated<Curve>) {
        Propagated::with_jitter(self, jitter)
    }
}

impl Curve {
    /// The arrival curve of a periodic process: one distance, the period.
    pub fn from_periodic(p: Periodic) -> (curve: Curve)
        ensures
            curve.min_distance@ == seq![p.period],
            p.wf() ==> curve.wf(),
    {
        Curve { min_distance: vec![p.period] }
    }
}

impl From<Periodic> for Curve {
    fn from(p: Periodic) -> (curve: Curve) {
        Curve::from_periodic(p)
    }
}

impl FromSpecImpl<Periodic> for Curve {
    /// Nothing is stated of the conversion here; see [`Curve::from_periodic`].
    open spec fn obeys_from_spec() -> bool {
        false
    }

    open spec fn from_spec(p: Periodic) -> Curve {
        choose|curve: Curve| curve.min_distance@ == seq![p.period]
    }
}

} // verus!
