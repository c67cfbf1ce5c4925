//! Models of arrival processes: periodic, sporadic, arrival curves and
//! their compositions.
//!
//! An arrival bound is an upper bound on the number of jobs released in any
//! interval of a given length. Its steps are the interval lengths at which
//! the bound grows.

use vstd::prelude::*;
use crate::time::Duration;

pub mod aggregated;
pub mod arrival_curve_prefix;
pub mod curve;
pub mod dmin;
pub mod never;
pub mod periodic;
pub mod propagated;
pub mod sporadic;

pub use never::Never;
pub use aggregated::{sum_of, SumOf};
pub use arrival_curve_prefix::ArrivalCurvePrefix;
pub use curve::{Curve, CurvePrefix, ExtrapolatingCurve, ExtrapolatingCurvePrefix};
pub use dmin::{delta_min_iter, nonzero_delta_min_iter};
pub use periodic::Periodic;
pub use propagated::Propagated;
pub use sporadic::Sporadic;

verus! {

/// The bound `arrivals` grows at the interval length `delta`.
pub open spec fn is_step(arrivals: spec_fn(nat) -> nat, delta: nat) -> bool {
    delta >= 1 && arrivals((delta - 1) as nat) < arrivals(delta)
}

/// `steps` holds the interval length `delta`.
pub open spec fn holds(steps: Seq<Duration>, delta: nat) -> bool {
    exists|i: int| 0 <= i < steps.len() && (#[trigger] steps[i])@ == delta
}

/// The entries of `steps` grow strictly.
pub open spec fn increasing(steps: Seq<Duration>) -> bool {
    forall|i: int, j: int| 0 <= i < j < steps.len() ==> steps[i]@ < steps[j]@
}

/// `steps` lists, in increasing order, exactly the interval lengths up to
/// `horizon` at which `arrivals` grows.
pub open spec fn lists_steps(
    steps: Seq<Duration>,
    arrivals: spec_fn(nat) -> nat,
    horizon: nat,
) -> bool {
    &&& increasing(steps)
    &&& forall|i: int|
        0 <= i < steps.len() ==> (#[trigger] steps[i])@ <= horizon && is_step(arrivals, steps[i]@)
    &&& forall|delta: nat|
        delta <= horizon && #[trigger] is_step(arrivals, delta) ==> holds(steps, delta)
}

/// The interface of arrival bounds.
pub trait ArrivalBound: Sized {
    /// The parameters describe a proper arrival process.
    spec fn wf(&self) -> bool;

    /// The greatest number of jobs released in any interval of length `delta`.
    spec fn arrivals(&self, delta: nat) -> nat;

    /// The bound at `delta` can be computed within the machine's limits.
    spec fn admits(&self, delta: nat) -> bool;

    /// Bound the number of jobs released in any interval of length `delta`.
    fn number_arrivals(&self, delta: Duration) -> (n: usize)
        requires
            self.wf(),
            self.admits(delta@),
            self.arrivals(delta@) <= usize::MAX,
        ensures
            n == self.arrivals(delta@),
    ;

    /// An arrival bound of its own that bounds as this one does.
    fn duplicate(&self) -> (copy: Self)
        requires
            self.wf(),
        ensures
            copy.wf(),
            forall|delta: nat| #[trigger] copy.arrivals(delta) == self.arrivals(delta),
            forall|delta: nat| #[trigger] copy.admits(delta) == self.admits(delta),
    ;

    /// Nothing arrives in an empty interval, and a longer interval never
    /// holds fewer arrivals.
    proof fn law_arrivals(&self, shorter: nat, longer: nat)
        requires
            self.wf(),
            shorter <= longer,
        ensures
            self.arrivals(0) == 0,
            self.arrivals(shorter) <= self.arrivals(longer),
            self.admits(longer) ==> self.admits(shorter),
    ;
}

/// Arrival bounds that enumerate their steps and take on release jitter.
pub trait ArrivalModel: ArrivalBound {
    /// The arrival bound with added release jitter.
    type Jittered: ArrivalBound;

    /// The interval lengths up to `horizon` at which the bound grows, in
    /// increasing order.
    fn steps_iter(&self, horizon: Duration) -> (steps: Vec<Duration>)
        requires
            self.wf(),
            self.admits(horizon@),
            self.arrivals(horizon@) <= usize::MAX,
        ensures
            lists_steps(steps@, |delta: nat| self.arrivals(delta), horizon@),
    ;

    /// The jitter can be added within the machine's limits.
    spec fn admits_jitter(&self, jitter: nat) -> bool;

    /// The arrival bound that accounts for an additional release jitter.
    fn clone_with_jitter(&self, jitter: Duration) -> (ab: Self::Jittered)
        requires
            self.wf(),
            self.admits_jitter(jitter@),
        ensures
            ab.wf(),
            forall|delta: nat|
                #[trigger] ab.arrivals(delta) == if delta > 0 {
                    self.arrivals(delta + jitter@)
                } else {
                    0
                },
    ;
}

impl<'a, T: ArrivalBound> ArrivalBound for &'a T {
    open spec fn wf(&self) -> bool {
        (**self).wf()
    }

    open spec fn arrivals(&self, delta: nat) -> nat {
        (**self).arrivals(delta)
    }

    open spec fn admits(&self, delta: nat) -> bool {
        (**self).admits(delta)
    }

    fn number_arrivals(&self, delta: Duration) -> (n: usize) {
        (**self).number_arrivals(delta)
    }

    fn duplicate(&self) -> (copy: Self) {
        *self
    }

    proof fn law_arrivals(&self, shorter: nat, longer: nat) {
        (**self).law_arrivals(shorter, longer);
    }
}

impl<'a, T: ArrivalModel> ArrivalModel for &'a T {
    type Jittered = T::Jittered;

    fn steps_iter(&self, horizon: Duration) -> (steps: Vec<Duration>) {
        let steps = (**self).steps_iter(horizon);
        proof {
            assert((|delta: nat| self.arrivals(delta)) == (|delta: nat| (**self).arrivals(delta)));
        }
        steps
    }

    open spec fn admits_jitter(&self, jitter: nat) -> bool {
        (**self).admits_jitter(jitter)
    }

    fn clone_with_jitter(&self, jitter: Duration) -> (ab: T::Jittered) {
        (**self).clone_with_jitter(jitter)
    }
}

/// The quotient `a / b`, rounded up.
pub open spec fn ceil_div(a: nat, b: nat) -> nat
    recommends
        b > 0,
{
    if a % b > 0 {
        a / b + 1
    } else {
        a / b
    }
}

/// Division that rounds up.
pub fn divide_with_ceil(a: Duration, b: Duration) -> (q: u64)
    requires
        b@ > 0,
        ceil_div(a@, b@) <= u64::MAX,
    ensures
        q == ceil_div(a@, b@),
{
    if a.val % b.val > 0 {
        a.val / b.val + 1
    } else {
        a.val / b.val
    }
}

/// Rounding up keeps the order of the dividends.
pub proof fn lemma_ceil_div_monotone(a: nat, b: nat, d: nat)
    requires
        d > 0,
        a <= b,
    ensures
        ceil_div(0, d) == 0,
        ceil_div(a, d) <= ceil_div(b, d),
        a > 0 ==> ceil_div(a, d) >= 1,
{
    assert(a == (a / d) * d + a % d && b == (b / d) * d + b % d && a % d < d && b % d < d && 0
        <= a / d && 0 <= b / d) by (nonlinear_arith)
        requires
            d > 0,
    ;
    let qa = a / d;
    let qb = b / d;
    if qa > qb {
        assert(qa * d >= (qb + 1) * d) by (nonlinear_arith)
            requires
                qa >= qb + 1,
                d > 0,
        ;
        assert((qb + 1) * d == qb * d + d) by (nonlinear_arith);
    } else if qa == qb {
    } else {
        assert(qb >= 1);
    }
    if a > 0 && qa == 0 {
        assert(qa * d == 0) by (nonlinear_arith)
            requires
                qa == 0,
        ;
    }
}

/// The rounded-up quotient of a sum, written over the quotients and
/// remainders of its two parts.
pub proof fn lemma_ceil_div_split(a: nat, b: nat, d: nat)
    requires
        d > 0,
    ensures
        ceil_div(a + b, d) == a / d + b / d + if a % d + b % d > d {
            2nat
        } else if a % d + b % d > 0 {
            1nat
        } else {
            0nat
        },
{
    let qa = a / d;
    let qb = b / d;
    let ra = a % d;
    let rb = b % d;
    assert(a == qa * d + ra && b == qb * d + rb && ra < d && rb < d) by (nonlinear_arith)
        requires
            d > 0,
            qa == a / d,
            qb == b / d,
            ra == a % d,
            rb == b % d,
    ;
    if ra + rb >= d {
        assert(a + b == (qa + qb + 1) * d + (ra + rb - d)) by (nonlinear_arith)
            requires
                a == qa * d + ra,
                b == qb * d + rb,
        ;
        crate::supply::lemma_div_mod(
            (a + b) as int,
            d as int,
            (qa + qb + 1) as int,
            (ra + rb - d) as int,
        );
    } else {
        assert(a + b == (qa + qb) * d + (ra + rb)) by (nonlinear_arith)
            requires
                a == qa * d + ra,
                b == qb * d + rb,
        ;
        crate::supply::lemma_div_mod(
            (a + b) as int,
            d as int,
            (qa + qb) as int,
            (ra + rb) as int,
        );
    }
}

/// The first interval length after `after` and up to `horizon` at which the
/// bound grows, found by bisection.
pub fn next_step<A: ArrivalBound>(ab: &A, after: Duration, horizon: Duration) -> (step: Option<
    Duration,
>)
    requires
        ab.wf(),
        after@ <= horizon@,
        ab.admits(horizon@),
        ab.arrivals(horizon@) <= usize::MAX,
    ensures
        match step {
            Some(s) => after@ < s@ <= horizon@ && ab.arrivals((s@ - 1) as nat) == ab.arrivals(
                after@,
            ) && ab.arrivals(after@) < ab.arrivals(s@),
            None => ab.arrivals(horizon@) == ab.arrivals(after@),
        },
{
    proof {
        ab.law_arrivals(after@, horizon@);
    }
    let base = ab.number_arrivals(after);
    if ab.number_arrivals(horizon) == base {
        return None;
    }
    let mut lo: u64 = after.val;
    let mut hi: u64 = horizon.val;
    while hi - lo > 1
        invariant
            ab.wf(),
            ab.admits(horizon@),
            ab.arrivals(horizon@) <= usize::MAX,
            after@ <= lo < hi <= horizon@,
            ab.arrivals(lo as nat) == base,
            ab.arrivals(hi as nat) > base,
            ab.arrivals(after@) == base,
        decreases hi - lo,
    {
        let mid: u64 = lo + (hi - lo) / 2;
        proof {
            ab.law_arrivals(mid as nat, horizon@);
            ab.law_arrivals(lo as nat, mid as nat);
        }
        if ab.number_arrivals(Duration { val: mid }) > base {
            hi = mid;
        } else {
            lo = mid;
        }
    }
    Some(Duration { val: hi })
}

/// The interval lengths up to `horizon` at which the bound grows, each found
/// by bisection from the one before.
pub fn steps_by_bisection<A: ArrivalBound>(ab: &A, horizon: Duration) -> (steps: Vec<Duration>)
    requires
        ab.wf(),
        ab.admits(horizon@),
        ab.arrivals(horizon@) <= usize::MAX,
    ensures
        lists_steps(steps@, |delta: nat| ab.arrivals(delta), horizon@),
{
    let ghost arrivals = |delta: nat| ab.arrivals(delta);
    let mut steps: Vec<Duration> = Vec::new();
    let mut cursor = Duration::zero();
    loop
        invariant
            ab.wf(),
            ab.admits(horizon@),
            ab.arrivals(horizon@) <= usize::MAX,
            arrivals == (|delta: nat| ab.arrivals(delta)),
            cursor@ <= horizon@,
            lists_steps(steps@, arrivals, cursor@),
            forall|i: int| 0 <= i < steps@.len() ==> (#[trigger] steps@[i])@ <= cursor@,
        ensures
            lists_steps(steps@, arrivals, horizon@),
        decreases horizon@ - cursor@,
    {
        match next_step(ab, cursor, horizon) {
            None => {
                proof {
                    assert forall|delta: nat|
                        delta <= horizon@ && #[trigger] is_step(arrivals, delta) implies holds(
                        steps@,
                        delta,
                    ) by {
                        if delta > cursor@ {
                            ab.law_arrivals(cursor@, (delta - 1) as nat);
                            ab.law_arrivals(delta, horizon@);
                        }
                    }
                }
                break ;
            },
            Some(step) => {
                let ghost before = steps@;
                steps.push(step);
                proof {
                    assert forall|delta: nat|
                        delta <= step@ && #[trigger] is_step(arrivals, delta) implies holds(
                        steps@,
                        delta,
                    ) by {
                        if delta > cursor@ {
                            if delta < step@ {
                                ab.law_arrivals(cursor@, (delta - 1) as nat);
                                ab.law_arrivals(delta, (step@ - 1) as nat);
                            }
                            assert(steps@[before.len() as int]@ == step@);
                        } else {
                            assert(holds(before, delta));
                            let i = choose|i: int|
                                0 <= i < before.len() && (#[trigger] before[i])@ == delta;
                            assert(steps@[i] == before[i]);
                        }
                    }
                    assert forall|i: int, j: int| 0 <= i < j < steps@.len() implies steps@[i]@
                        < steps@[j]@ by {
                        if j < before.len() {
                            assert(steps@[i] == before[i] && steps@[j] == before[j]);
                        } else {
                            assert(steps@[i] == before[i]);
                        }
                    }
                    assert forall|i: int| 0 <= i < steps@.len() implies (#[trigger] steps@[i])@
                        <= step@ && is_step(arrivals, steps@[i]@) by {
                        if i < before.len() {
                            assert(steps@[i] == before[i]);
                        }
                    }
                }
                cursor = step;
            },
        }
    }
    steps
}

/// The interval lengths up to `horizon` at which the bound grows, found in
/// the most naive way: by a look at every interval length. Slow; it serves
/// as a safety net and to cross-check [`ArrivalModel::steps_iter`].
pub fn brute_force_steps_iter<A: ArrivalBound>(ab: &A, horizon: Duration) -> (steps: Vec<Duration>)
    requires
        ab.wf(),
        ab.admits(horizon@),
        ab.arrivals(horizon@) <= usize::MAX,
    ensures
        lists_steps(steps@, |delta: nat| ab.arrivals(delta), horizon@),
{
    let ghost arrivals = |delta: nat| ab.arrivals(delta);
    let mut steps: Vec<Duration> = Vec::new();
    proof {
        ab.law_arrivals(0, horizon@);
    }
    let mut before = ab.number_arrivals(Duration::zero());
    let mut delta: u64 = 0;
    while delta < horizon.val
        invariant
            ab.wf(),
            ab.admits(horizon@),
            ab.arrivals(horizon@) <= usize::MAX,
            arrivals == (|delta: nat| ab.arrivals(delta)),
            delta <= horizon@,
            before == ab.arrivals(delta as nat),
            lists_steps(steps@, arrivals, delta as nat),
        decreases horizon@ - delta,
    {
        delta = delta + 1;
        proof {
            ab.law_arrivals(delta as nat, horizon@);
        }
        let here = ab.number_arrivals(Duration { val: delta });
        let ghost known = steps@;
        if here != before {
            steps.push(Duration { val: delta });
        }
        proof {
            ab.law_arrivals((delta - 1) as nat, delta as nat);
            assert forall|d: nat| d <= delta && #[trigger] is_step(arrivals, d) implies holds(
                steps@,
                d,
            ) by {
                if d < delta {
                    assert(holds(known, d));
                    let i = choose|i: int| 0 <= i < known.len() && (#[trigger] known[i])@ == d;
                    assert(steps@[i] == known[i]);
                } else {
                    assert(steps@[known.len() as int]@ == d);
                }
            }
            assert forall|i: int, j: int| 0 <= i < j < steps@.len() implies steps@[i]@
                < steps@[j]@ by {
                assert(steps@[i] == known[i]);
                if j < known.len() {
                    assert(steps@[j] == known[j]);
                }
            }
            assert forall|i: int| 0 <= i < steps@.len() implies (#[trigger] steps@[i])@ <= delta
                && is_step(arrivals, steps@[i]@) by {
                if i < known.len() {
                    assert(steps@[i] == known[i]);
                }
            }
        }
        before = here;
    }
    steps
}

/// An arrival bound with no added jitter is the bound itself, on every
/// interval that is not empty.
pub proof fn law_zero_jitter<A: ArrivalModel>(ab: &A, with_jitter: &A::Jittered, delta: nat)
    requires
        forall|d: nat|
            #[trigger] with_jitter.arrivals(d) == if d > 0 {
                ab.arrivals(d + 0)
            } else {
                0
            },
        delta >= 1,
    ensures
        with_jitter.arrivals(delta) == ab.arrivals(delta),
{
}

} // verus!
