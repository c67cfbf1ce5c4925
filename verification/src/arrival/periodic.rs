//! The periodic arrival process of Liu and Layland.

use vstd::prelude::*;
use super::{
    ceil_div, divide_with_ceil, holds, is_step, ArrivalBound, ArrivalModel, Sporadic,
};
use crate::supply::lemma_div_mod;
use crate::time::Duration;

verus! {

/// Jobs that arrive exactly one period apart, without jitter.
#[derive(Copy, Clone, Debug)]
pub struct Periodic {
    /// The exact separation of two job releases.
    pub period: Duration,
}

impl Periodic {
    /// Construct a periodic arrival model.
    pub fn new(period: Duration) -> (ab: Periodic)
        ensures
            ab.period == period,
    {
        Periodic { period }
    }
}

impl ArrivalBound for Periodic {
    open spec fn wf(&self) -> bool {
        self.period@ > 0
    }

    open spec fn arrivals(&self, delta: nat) -> nat {
        ceil_div(delta, self.period@)
    }

    open spec fn admits(&self, delta: nat) -> bool {
        true
    }

    fn number_arrivals(&self, delta: Duration) -> (n: usize) {
        divide_with_ceil(delta, self.period) as usize
    }

    fn duplicate(&self) -> (copy: Self) {
        Periodic { period: self.period }
    }

    proof fn law_arrivals(&self, shorter: nat, longer: nat) {
        super::lemma_ceil_div_monotone(shorter, longer, self.period@);
    }
}

impl ArrivalModel for Periodic {
    type Jittered = Sporadic;

    fn steps_iter(&self, horizon: Duration) -> (steps: Vec<Duration>) {
        let ghost arrivals = |d: nat| self.arrivals(d);
        let ghost t = self.period@;
        let mut steps: Vec<Duration> = Vec::new();
        if horizon.val == 0 {
            return steps;
        }
        let mut step: u64 = 1;
        proof {
            assert(steps@.len() * t == 0) by (nonlinear_arith)
                requires
                    steps@.len() == 0,
            ;
        }
        loop
            invariant_except_break
                step == 1 + steps@.len() * t,
            invariant
                self.wf(),
                t == self.period@,
                step <= horizon@,
                forall|i: int| 0 <= i < steps@.len() ==> (#[trigger] steps@[i])@ == 1 + i * t,
            ensures
                horizon@ < 1 + steps@.len() * t,
                forall|i: int| 0 <= i < steps@.len() ==> (#[trigger] steps@[i])@ == 1 + i * t,
                steps@.len() >= 1,
                steps@.last()@ <= horizon@,
            decreases horizon@ - step,
        {
            let ghost k = steps@.len();
            proof {
                assert((k + 1) * t == k * t + t) by (nonlinear_arith);
            }
            steps.push(Duration { val: step });
            if horizon.val - step < self.period.val {
                break ;
            }
            step = step + self.period.val;
        }
        proof {
            let count = steps@.len();
            assert forall|i: int, j: int| 0 <= i < j < count implies steps@[i]@ < steps@[j]@ by {
                assert(i * t < j * t) by (nonlinear_arith)
                    requires
                        i < j,
                        t > 0,
                ;
            }
            assert forall|i: int| 0 <= i < count implies (#[trigger] steps@[i])@ <= horizon@
                && is_step(arrivals, steps@[i]@) by {
                assert(i * t <= (count - 1) * t) by (nonlinear_arith)
                    requires
                        i <= count - 1,
                        t > 0,
                ;
                assert(steps@[count - 1]@ == 1 + (count - 1) * t);
                law_periodic_steps(*self, steps@[i]@);
                assert(i * t >= 0) by (nonlinear_arith)
                    requires
                        i >= 0,
                        t > 0,
                ;
                lemma_div_mod(i * t, t as int, i, 0);
            }
            assert forall|d: nat| d <= horizon@ && #[trigger] is_step(arrivals, d) implies holds(
                steps@,
                d,
            ) by {
                law_periodic_steps(*self, d);
                let n = (d - 1) as nat;
                let q = n / t;
                assert(n == q * t + n % t) by (nonlinear_arith)
                    requires
                        t > 0,
                        q == n / t,
                ;
                if q >= count {
                    assert(q * t >= count * t) by (nonlinear_arith)
                        requires
                            q >= count,
                            t > 0,
                    ;
                }
                assert(steps@[q as int]@ == d);
            }
        }
        steps
    }

    open spec fn admits_jitter(&self, jitter: nat) -> bool {
        true
    }

    fn clone_with_jitter(&self, jitter: Duration) -> (ab: Sporadic) {
        Sporadic { min_inter_arrival: self.period, jitter }
    }
}

/// The arrivals of a periodic process step at the smallest interval
/// length and at every whole number of periods after it.
pub proof fn law_periodic_steps(ab: Periodic, delta: nat)
    requires
        ab.wf(),
    ensures
        is_step(|d: nat| ab.arrivals(d), delta) <==> delta >= 1 && (delta - 1) % (ab.period@ as int)
            == 0,
{
    if delta >= 1 {
        let t = ab.period@;
        let n = (delta - 1) as nat;
        let q = n / t;
        let r = n % t;
        assert(n == q * t + r && r < t) by (nonlinear_arith)
            requires
                t > 0,
                q == n / t,
                r == n % t,
        ;
        if r + 1 < t {
            lemma_div_mod(delta as int, t as int, q as int, (r + 1) as int);
        } else {
            assert((q + 1) * t == q * t + t) by (nonlinear_arith);
            lemma_div_mod(delta as int, t as int, (q + 1) as int, 0);
        }
    }
}

} // verus!
