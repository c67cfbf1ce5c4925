//! The sporadic arrival process with release jitter.

use vstd::prelude::*;
use vstd::std_specs::convert::FromSpecImpl;
use super::{ceil_div, holds, is_step, ArrivalBound, ArrivalModel, Periodic};
use crate::supply::lemma_div_mod;
use crate::time::Duration;

verus! {

/// Jobs that arrive at least `min_inter_arrival` apart and are released at
/// most `jitter` after they arrive.
#[derive(Copy, Clone, Debug)]
pub struct Sporadic {
    /// The least separation of two job arrivals.
    pub min_inter_arrival: Duration,
    /// The greatest time between the arrival and the release of a job.
    pub jitter: Duration,
}

impl Sporadic {
    /// Construct a sporadic arrival model with the given separation and jitter.
    pub fn new(min_inter_arrival: Duration, jitter: Duration) -> (ab: Sporadic)
        ensures
            ab.min_inter_arrival == min_inter_arrival,
            ab.jitter == jitter,
    {
        Sporadic { min_inter_arrival, jitter }
    }

    /// Construct a sporadic arrival model with the given separation and no jitter.
    pub fn new_zero_jitter(min_inter_arrival: Duration) -> (ab: Sporadic)
        ensures
            ab.min_inter_arrival == min_inter_arrival,
            ab.jitter@ == 0,
    {
        Sporadic { min_inter_arrival, jitter: Duration::zero() }
    }
}

impl From<Periodic> for Sporadic {
    fn from(p: Periodic) -> (ab: Sporadic) {
        Sporadic { min_inter_arrival: p.period, jitter: Duration { val: 0 } }
    }
}

impl FromSpecImpl<Periodic> for Sporadic {
    open spec fn obeys_from_spec() -> bool {
        true
    }

    open spec fn from_spec(p: Periodic) -> Sporadic {
        Sporadic { min_inter_arrival: p.period, jitter: Duration { val: 0 } }
    }
}

impl ArrivalBound for Sporadic {
    open spec fn wf(&self) -> bool {
        self.min_inter_arrival@ > 0
    }

    open spec fn arrivals(&self, delta: nat) -> nat {
        if delta > 0 {
            ceil_div(delta + self.jitter@, self.min_inter_arrival@)
        } else {
            0
        }
    }

    open spec fn admits(&self, delta: nat) -> bool {
        true
    }

    fn number_arrivals(&self, delta: Duration) -> (n: usize) {
        if delta.is_non_zero() {
            let t: u64 = self.min_inter_arrival.val;
            let whole: u64 = delta.val / t;
            let part: u64 = delta.val % t;
            let whole_jitter: u64 = self.jitter.val / t;
            let part_jitter: u64 = self.jitter.val % t;
            proof {
                super::lemma_ceil_div_split(delta@, self.jitter@, t as nat);
            }
            let carry: u64 = if part_jitter >= t - part {
                if part_jitter - (t - part) > 0 {
                    2
                } else {
                    1
                }
            } else if part + part_jitter > 0 {
                1
            } else {
                0
            };
            (whole + whole_jitter + carry) as usize
        } else {
            0
        }
    }

    fn duplicate(&self) -> (copy: Self) {
        Sporadic { min_inter_arrival: self.min_inter_arrival, jitter: self.jitter }
    }

    proof fn law_arrivals(&self, shorter: nat, longer: nat) {
        super::lemma_ceil_div_monotone(
            shorter + self.jitter@,
            longer + self.jitter@,
            self.min_inter_arrival@,
        );
    }
}

impl ArrivalModel for Sporadic {
    type Jittered = Sporadic;

    fn steps_iter(&self, horizon: Duration) -> (steps: Vec<Duration>) {
        let ghost arrivals = |d: nat| self.arrivals(d);
        let ghost t = self.min_inter_arrival@;
        let ghost j = self.jitter@;
        let mut steps: Vec<Duration> = Vec::new();
        if horizon.val == 0 {
            return steps;
        }
        steps.push(Duration { val: 1 });
        let gap: u64 = self.min_inter_arrival.val - self.jitter.val % self.min_inter_arrival.val;
        proof {
            assert(j == (j / t) * t + j % t && j % t < t) by (nonlinear_arith)
                requires
                    t > 0,
            ;
            law_sporadic_steps(*self, 1);
        }
        if gap <= horizon.val - 1 {
            let mut step: u64 = 1 + gap;
            proof {
                assert((steps@.len() - 1) * t == 0) by (nonlinear_arith)
                    requires
                        steps@.len() == 1,
                ;
            }
            loop
                invariant_except_break
                    step == 1 + gap + (steps@.len() - 1) * t,
                invariant
                    self.wf(),
                    t == self.min_inter_arrival@,
                    step <= horizon@,
                    steps@.len() >= 1,
                    steps@[0]@ == 1,
                    forall|i: int|
                        1 <= i < steps@.len() ==> (#[trigger] steps@[i])@ == 1 + gap + (i - 1) * t,
                ensures
                    steps@.len() >= 2,
                    horizon@ < 1 + gap + (steps@.len() - 1) * t,
                    steps@[0]@ == 1,
                    forall|i: int|
                        1 <= i < steps@.len() ==> (#[trigger] steps@[i])@ == 1 + gap + (i - 1) * t,
                    steps@.last()@ <= horizon@,
                decreases horizon@ - step,
            {
                let ghost k = steps@.len();
                proof {
                    assert(k * t == (k - 1) * t + t) by (nonlinear_arith);
                }
                steps.push(Duration { val: step });
                if horizon.val - step < self.min_inter_arrival.val {
                    break ;
                }
                step = step + self.min_inter_arrival.val;
            }
        }
        proof {
            let count = steps@.len();
            let whole = (j / t) as int;
            let first = whole + 1;
            assert(first * t == whole * t + t) by (nonlinear_arith)
                requires
                    first == whole + 1,
            ;
            assert forall|i: int| 1 <= i < count implies 2 <= (#[trigger] steps@[i])@ <= horizon@
                && is_step(arrivals, steps@[i]@) by {
                assert(0 <= (i - 1) * t <= (count - 2) * t) by (nonlinear_arith)
                    requires
                        1 <= i <= count - 1,
                        t > 0,
                ;
                assert(steps@[count - 1]@ == 1 + gap + (count - 2) * t);
                law_sporadic_steps(*self, steps@[i]@);
                assert((first + i - 1) * t == first * t + (i - 1) * t) by (nonlinear_arith);
                lemma_div_mod(steps@[i]@ - 1 + j, t as int, first + i - 1, 0);
            }
            assert forall|a: int, b: int| 0 <= a < b < count implies steps@[a]@ < steps@[b]@ by {
                if a >= 1 {
                    assert((a - 1) * t < (b - 1) * t) by (nonlinear_arith)
                        requires
                            a < b,
                            t > 0,
                    ;
                }
            }
            assert forall|d: nat| d <= horizon@ && #[trigger] is_step(arrivals, d) implies holds(
                steps@,
                d,
            ) by {
                law_sporadic_steps(*self, d);
                if d >= 2 {
                    let n = (d - 1 + j) as nat;
                    let q = (n / t) as int;
                    assert(n == q * t + n % t) by (nonlinear_arith)
                        requires
                            t > 0,
                            q == n / t,
                    ;
                    assert(q >= first) by (nonlinear_arith)
                        requires
                            q * t > j,
                            j >= (first - 1) * t,
                            t > 0,
                    ;
                    let m = q - first;
                    assert(q * t == first * t + m * t) by (nonlinear_arith)
                        requires
                            m == q - first,
                    ;
                    assert(d == 1 + gap + m * t);
                    assert(m * t >= 0) by (nonlinear_arith)
                        requires
                            m >= 0,
                            t > 0,
                    ;
                    if count < 2 || m >= count - 1 {
                        if count >= 2 {
                            assert(m * t >= (count - 1) * t) by (nonlinear_arith)
                                requires
                                    m >= count - 1,
                                    t > 0,
                            ;
                        }
                    }
                    assert(steps@[m + 1]@ == d);
                } else {
                    assert(steps@[0]@ == d);
                }
            }
        }
        steps
    }

    open spec fn admits_jitter(&self, jitter: nat) -> bool {
        self.jitter@ + jitter <= u64::MAX
    }

    fn clone_with_jitter(&self, added_jitter: Duration) -> (ab: Sporadic) {
        Sporadic {
            min_inter_arrival: self.min_inter_arrival,
            jitter: Duration { val: self.jitter.val + added_jitter.val },
        }
    }
}

/// The arrivals of a sporadic process step at the smallest interval length
/// and wherever a whole number of separations, less the jitter, ends.
pub proof fn law_sporadic_steps(ab: Sporadic, delta: nat)
    requires
        ab.wf(),
    ensures
        is_step(|d: nat| ab.arrivals(d), delta) <==> delta == 1 || (delta >= 2 && (delta
            - 1 + ab.jitter@) % (ab.min_inter_arrival@ as int) == 0),
{
    let t = ab.min_inter_arrival@;
    if delta >= 2 {
        let n = (delta - 1 + ab.jitter@) as nat;
        let q = n / t;
        let r = n % t;
        assert(n == q * t + r && r < t) by (nonlinear_arith)
            requires
                t > 0,
                q == n / t,
                r == n % t,
        ;
        if r + 1 < t {
            lemma_div_mod((n + 1) as int, t as int, q as int, (r + 1) as int);
        } else {
            assert((q + 1) * t == q * t + t) by (nonlinear_arith);
            lemma_div_mod((n + 1) as int, t as int, (q + 1) as int, 0);
        }
    } else if delta == 1 {
        super::lemma_ceil_div_monotone(1 + ab.jitter@, 1 + ab.jitter@, t);
    }
}

} // verus!
