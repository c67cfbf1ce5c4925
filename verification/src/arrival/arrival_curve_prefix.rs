//! Arrival curves given by a finite sequence of steps up to a horizon.

use vstd::prelude::*;
use super::curve::next_distance;
use super::dmin::is_delta_min;
use super::{steps_by_bisection, ArrivalBound, ArrivalModel, Curve, Propagated};
use crate::supply::lemma_div_mod;
use crate::time::Duration;

verus! {

/// A step of an arrival curve: the curve first takes the value `.1` at the
/// interval length `.0`.
pub type Step = (Duration, usize);

/// An arrival curve given by its steps up to a horizon.
///
/// Up to the horizon the curve is exact. Beyond it, the curve repeats: each
/// further horizon adds all jobs of the prefix, which may be pessimistic.
#[derive(Clone, Debug)]
pub struct ArrivalCurvePrefix {
    pub horizon: Duration,
    pub steps: Vec<Step>,
}

/// All steps lie within the horizon, and their numbers of jobs grow strictly
/// from above zero.
pub open spec fn well_stepped(horizon: Duration, steps: Seq<Step>) -> bool {
    &&& forall|i: int| 0 <= i < steps.len() ==> (#[trigger] steps[i]).0@ <= horizon@
    &&& forall|i: int| 0 <= i < steps.len() ==> (#[trigger] steps[i]).1 > 0
    &&& forall|i: int, j: int| 0 <= i < j < steps.len() ==> steps[i].1 < steps[j].1
}

/// The first position from `from` on whose step lies beyond `delta`, or the
/// number of steps if there is none.
pub open spec fn first_beyond(steps: Seq<Step>, delta: nat, from: nat) -> nat
    decreases steps.len() - from,
{
    if from >= steps.len() {
        steps.len()
    } else if steps[from as int].0@ > delta {
        from
    } else {
        first_beyond(steps, delta, from + 1)
    }
}

/// The value of the curve at an interval length within the horizon: the
/// jobs of the last step before the first one that lies beyond `delta`.
pub open spec fn looked_up(steps: Seq<Step>, delta: nat) -> nat {
    if delta == 0 || first_beyond(steps, delta, 0) == 0 {
        0
    } else {
        steps[first_beyond(steps, delta, 0) - 1].1 as nat
    }
}

/// The jobs of the last step, zero if there is no step.
pub open spec fn max_njobs(steps: Seq<Step>) -> nat {
    if steps.len() == 0 {
        0
    } else {
        steps.last().1 as nat
    }
}

/// The value of the curve at any interval length.
pub open spec fn prefix_arrivals(horizon: nat, steps: Seq<Step>, delta: nat) -> nat {
    if horizon == 0 {
        0
    } else {
        max_njobs(steps) * (delta / horizon) + looked_up(steps, delta % horizon)
    }
}

proof fn lemma_first_beyond(steps: Seq<Step>, small: nat, large: nat, from: nat)
    requires
        small <= large,
    ensures
        from <= first_beyond(steps, small, from) || from >= steps.len(),
        first_beyond(steps, small, from) <= first_beyond(steps, large, from) <= steps.len(),
    decreases steps.len() - from,
{
    if from < steps.len() {
        lemma_first_beyond(steps, small, large, from + 1);
    }
}

proof fn lemma_looked_up(horizon: Duration, steps: Seq<Step>, small: nat, large: nat)
    requires
        well_stepped(horizon, steps),
        steps.len() > 0,
        steps[0].0@ <= 1,
        small <= large,
    ensures
        looked_up(steps, small) <= looked_up(steps, large) <= max_njobs(steps),
{
    lemma_first_beyond(steps, small, large, 0);
    lemma_first_beyond(steps, large, large, 0);
    let i = first_beyond(steps, small, 0);
    let j = first_beyond(steps, large, 0);
    if large > 0 {
        assert(j >= 1) by {
            lemma_first_beyond(steps, large, large, 1);
        }
    }
    if small > 0 {
        assert(i >= 1) by {
            lemma_first_beyond(steps, small, small, 1);
        }
    }
}

proof fn lemma_prefix_arrivals_step(horizon: Duration, steps: Seq<Step>, delta: nat)
    requires
        well_stepped(horizon, steps),
        horizon@ > 0,
        steps.len() > 0,
        steps[0].0@ <= 1,
    ensures
        prefix_arrivals(horizon@, steps, 0) == 0,
        prefix_arrivals(horizon@, steps, delta) <= prefix_arrivals(horizon@, steps, delta + 1),
{
    let h = horizon@;
    let top = max_njobs(steps);
    let q = delta / h;
    let r = delta % h;
    assert(delta == q * h + r && r < h) by (nonlinear_arith)
        requires
            h > 0,
            q == delta / h,
            r == delta % h,
    ;
    if r + 1 < h {
        lemma_div_mod((delta + 1) as int, h as int, q as int, (r + 1) as int);
        lemma_looked_up(horizon, steps, r, r + 1);
    } else {
        assert((q + 1) * h == q * h + h && top * (q + 1) == top * q + top) by (nonlinear_arith);
        lemma_div_mod((delta + 1) as int, h as int, (q + 1) as int, 0);
        lemma_looked_up(horizon, steps, r, r);
    }
    if delta == 0 {
        assert(top * q == 0) by (nonlinear_arith)
            requires
                q == 0,
        ;
    }
}

impl ArrivalCurvePrefix {
    /// Construct an arrival curve from a `horizon` and a sequence of steps
    /// `(delta, n)`: the curve first takes the value `n` at the interval
    /// length `delta`. The steps must lie within the horizon and be strictly
    /// monotonic in `n`.
    pub fn new(horizon: Duration, steps: Vec<Step>) -> (curve: ArrivalCurvePrefix)
        requires
            well_stepped(horizon, steps@),
        ensures
            curve.horizon == horizon,
            curve.steps == steps,
            horizon@ > 0 && steps@.len() > 0 && steps@[0].0@ <= 1 ==> curve.wf(),
    {
        ArrivalCurvePrefix { horizon, steps }
    }

    /// The jobs of the last step, zero if there is no step.
    fn max_njobs_in_horizon(&self) -> (n: usize)
        ensures
            n == max_njobs(self.steps@),
    {
        if self.steps.len() == 0 {
            0
        } else {
            self.steps[self.steps.len() - 1].1
        }
    }

    /// The value of the curve at an interval length within the horizon.
    fn lookup(&self, delta: Duration) -> (n: usize)
        requires
            self.steps@.len() > 0,
            self.steps@[0].0@ <= 1,
        ensures
            n == looked_up(self.steps@, delta@),
    {
        if delta.is_zero() {
            0
        } else {
            let mut i: usize = 0;
            proof {
                lemma_first_beyond(self.steps@, delta@, delta@, 1);
            }
            while i < self.steps.len() && self.steps[i].0.val <= delta.val
                invariant
                    i <= self.steps@.len(),
                    first_beyond(self.steps@, delta@, 0) == first_beyond(
                        self.steps@,
                        delta@,
                        i as nat,
                    ),
                decreases self.steps.len() - i,
            {
                i += 1;
            }
            self.steps[i - 1].1
        }
    }

    /// The arrival curve in delta-min representation that covers the jobs of
    /// the prefix, extended by one entry for the horizon.
    pub fn to_curve(&self) -> (curve: Curve)
        requires
            self.wf(),
            2 * self.horizon@ + 1 <= u64::MAX / 2,
            self.arrivals(2 * self.horizon@ + 1) <= usize::MAX,
            max_njobs(self.steps@) < usize::MAX,
        ensures
            ({
                let njobs = max_njobs(self.steps@);
                let covered = covered_jobs(self.horizon@, self.steps@);
                let known = curve.min_distance@.take(covered as int);
                &&& curve.min_distance@.len() == covered + if covered + 1 == njobs {
                    1nat
                } else {
                    0nat
                }
                &&& forall|i: int|
                    0 <= i < covered ==> is_delta_min(
                        |delta: nat| self.arrivals(delta),
                        (i + 2) as nat,
                        (#[trigger] curve.min_distance@[i])@,
                    )
                &&& covered + 1 == njobs ==> curve.min_distance@.last()@ == if covered >= 2
                    && next_distance(known)@ > self.horizon@ {
                    next_distance(known)@
                } else {
                    self.horizon@
                }
            }),
    {
        let njobs = self.max_njobs_in_horizon();
        let search_horizon = Duration { val: 2 * self.horizon.val + 1 };
        proof {
            lemma_reaches_three(self.horizon, self.steps@);
        }
        let mut curve = Curve::from_arrival_bound(self, njobs, search_horizon);
        proof {
            assert forall|i: int, j: int| 0 <= i <= j < curve.min_distance@.len() implies curve
                .min_distance@[i]@ <= curve.min_distance@[j]@ by {
                let a = curve.min_distance@[i]@;
                let b = curve.min_distance@[j]@;
                if a > b {
                    self.law_arrivals(b + 1, a);
                }
            }
            let last = curve.min_distance@.last()@;
            if last >= search_horizon@ {
                self.law_arrivals(search_horizon@, last);
            }
        }
        let ghost known = curve.min_distance@;
        curve.extrapolate_with_bound((Duration { val: self.horizon.val + 1 }, njobs + 1));
        proof {
            assert(curve.min_distance@.take(known.len() as int) == known);
        }
        curve
    }
}

/// The number of delta-min values that the conversion to a curve reads off
/// the prefix: one for each number of jobs from two up to the jobs of the
/// prefix, but two at least, as far as so many jobs arrive within two
/// horizons and one more unit of time.
pub open spec fn covered_jobs(horizon: nat, steps: Seq<Step>) -> nat {
    let njobs = max_njobs(steps);
    let wanted: nat = if njobs >= 3 {
        (njobs - 1) as nat
    } else {
        2
    };
    let known = (prefix_arrivals(horizon, steps, 2 * horizon + 1) - 1) as nat;
    if wanted < known {
        wanted
    } else {
        known
    }
}

/// Two horizons and one more unit of time hold at least three jobs.
proof fn lemma_reaches_three(horizon: Duration, steps: Seq<Step>)
    requires
        well_stepped(horizon, steps),
        horizon@ > 0,
        steps.len() > 0,
        steps[0].0@ <= 1,
    ensures
        prefix_arrivals(horizon@, steps, 2 * horizon@ + 1) >= 3,
{
    let h = horizon@;
    let top = max_njobs(steps);
    assert(top >= 1);
    lemma_first_beyond(steps, 1, 1, 1);
    if h > 1 {
        lemma_div_mod((2 * h + 1) as int, h as int, 2, 1);
        assert(top * 2 == 2 * top) by (nonlinear_arith);
        assert(looked_up(steps, 1) >= 1);
    } else {
        lemma_div_mod((2 * h + 1) as int, h as int, 3, 0);
        assert(top * 3 == 3 * top) by (nonlinear_arith);
    }
}

impl ArrivalBound for ArrivalCurvePrefix {
    open spec fn wf(&self) -> bool {
        &&& well_stepped(self.horizon, self.steps@)
        &&& self.horizon@ > 0
        &&& self.steps@.len() > 0
        &&& self.steps@[0].0@ <= 1
    }

    open spec fn arrivals(&self, delta: nat) -> nat {
        prefix_arrivals(self.horizon@, self.steps@, delta)
    }

    open spec fn admits(&self, delta: nat) -> bool {
        true
    }

    fn number_arrivals(&self, delta: Duration) -> (n: usize) {
        let full_horizons: u64 = delta.val / self.horizon.val;
        let partial_horizon = Duration { val: delta.val % self.horizon.val };
        let top: usize = self.max_njobs_in_horizon();
        proof {
            let q = full_horizons as int;
            assert(top * q >= q && q >= 0 && top * q >= 0) by (nonlinear_arith)
                requires
                    q >= 0,
                    top >= 1,
            ;
        }
        let whole: usize = full_horizons as usize;
        proof {
            assert(top * whole == top * full_horizons);
        }
        top * whole + self.lookup(partial_horizon)
    }

    fn duplicate(&self) -> (copy: Self) {
        let mut steps: Vec<Step> = Vec::new();
        let mut i: usize = 0;
        while i < self.steps.len()
            invariant
                i <= self.steps@.len(),
                steps@ == self.steps@.take(i as int),
            decreases self.steps.len() - i,
        {
            steps.push(self.steps[i]);
            proof {
                assert(self.steps@.take(i + 1) == self.steps@.take(i as int).push(
                    self.steps@[i as int],
                ));
            }
            i += 1;
        }
        proof {
            assert(self.steps@.take(i as int) == self.steps@);
        }
        ArrivalCurvePrefix { horizon: self.horizon, steps }
    }

    proof fn law_arrivals(&self, shorter: nat, longer: nat)
        decreases longer,
    {
        lemma_prefix_arrivals_step(self.horizon, self.steps@, 0);
        if shorter < longer {
            self.law_arrivals(shorter, (longer - 1) as nat);
            lemma_prefix_arrivals_step(self.horizon, self.steps@, (longer - 1) as nat);
        }
    }
}

impl ArrivalModel for ArrivalCurvePrefix {
    type Jittered = Propagated<ArrivalCurvePrefix>;

    fn steps_iter(&self, horizon: Duration) -> (steps: Vec<Duration>) {
        steps_by_bisection(self, horizon)
    }

    open spec fn admits_jitter(&self, jitter: nat) -> bool {
        true
    }

    fn clone_with_jitter(&self, jitter: Duration) -> (ab: Propagated<ArrivalCurvePrefix>) {
        Propagated::with_jitter(self, jitter)
    }
}

} // verus!
