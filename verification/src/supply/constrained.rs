//! A periodic reservation whose budget is delivered before a relative deadline.

use vstd::prelude::*;
use super::{lemma_div_mod, SupplyBound};
use crate::time::{Duration, Service};

verus! {

/// A reservation that delivers `budget` units of service within the first
/// `deadline` time units of every `period`.
#[derive(Debug, Clone, Copy)]
pub struct Constrained {
    pub period: Duration,
    pub budget: Service,
    pub deadline: Duration,
}

/// The supply of a constrained reservation with budget `b`, deadline `d` and period `t`.
pub open spec fn constrained_supply(b: nat, d: nat, t: nat, delta: nat) -> nat
    recommends
        b <= d <= t,
        t > 0,
{
    let shift = (t - b) as nat;
    if delta <= shift {
        0
    } else {
        let q = (delta - shift) as nat / t;
        let x = shift + q * t + d - b;
        let rest = if x < delta { (delta - x) as nat } else { 0 };
        q * b + if rest < b { rest } else { b }
    }
}

/// The time within which a constrained reservation certainly delivers `demand`.
pub open spec fn constrained_service_time(b: nat, d: nat, t: nat, demand: nat) -> nat
    recommends
        0 < b <= d <= t,
{
    if demand == 0 {
        0
    } else {
        let q = demand / b;
        let r = (demand - q * b) as nat;
        (d - b) as nat + q * t + if r > 0 { (r + t - b) as nat } else { 0 }
    }
}

/// The supply written over the remainder of the division, which is how it is computed.
proof fn lemma_supply_by_remainder(b: nat, d: nat, t: nat, delta: nat, q: nat, rem: nat)
    requires
        b <= d <= t,
        t > 0,
        delta > t - b,
        delta - (t - b) == q * t + rem,
        rem < t,
    ensures
        constrained_supply(b, d, t, delta) == q * b + if rem > d - b {
            if rem - (d - b) < b { (rem - (d - b)) as nat } else { b }
        } else {
            0
        },
        q * b <= q * t,
{
    lemma_div_mod(delta - (t - b), t as int, q as int, rem as int);
    assert(q * b <= q * t) by (nonlinear_arith)
        requires
            b <= t,
    ;
}

impl Constrained {
    /// Construct a constrained reservation; the budget must fit into the
    /// deadline, and the deadline into the period.
    pub fn new(budget: Service, deadline: Duration, period: Duration) -> (supply: Constrained)
        requires
            budget@ <= deadline@,
            deadline@ <= period@,
        ensures
            period@ > 0 ==> supply.wf(),
            supply.budget == budget,
            supply.deadline == deadline,
            supply.period == period,
    {
        Constrained { period, budget, deadline }
    }
}

impl SupplyBound for Constrained {
    open spec fn wf(&self) -> bool {
        self.budget@ <= self.deadline@ <= self.period@ && self.period@ > 0
    }

    open spec fn supply(&self, delta: nat) -> nat {
        constrained_supply(self.budget@, self.deadline@, self.period@, delta)
    }

    open spec fn time_for(&self, demand: nat) -> nat {
        constrained_service_time(self.budget@, self.deadline@, self.period@, demand)
    }

    open spec fn admits_demand(&self, demand: nat) -> bool {
        demand == 0 || (self.budget@ > 0 && constrained_service_time(
            self.budget@,
            self.deadline@,
            self.period@,
            demand,
        ) <= u64::MAX)
    }

    fn provided_service(&self, delta: Duration) -> (s: Service) {
        let shift: u64 = self.period.val - self.budget.val;
        if shift >= delta.val {
            return Service::none();
        }
        let full_periods: u64 = (delta.val - shift) / self.period.val;
        let rest: u64 = (delta.val - shift) % self.period.val;
        proof {
            let n = (delta@ - shift) as int;
            let t = self.period@ as int;
            let b = self.budget@ as int;
            let q = full_periods as int;
            assert(n == q * t + rest && b * q == q * b) by (nonlinear_arith)
                requires
                    t > 0,
                    q == n / t,
                    rest == n % t,
            ;
            lemma_supply_by_remainder(
                self.budget@,
                self.deadline@,
                self.period@,
                delta@,
                full_periods as nat,
                rest as nat,
            );
        }
        let lag: u64 = self.deadline.val - self.budget.val;
        let fractional_period: u64 = if rest > lag {
            if rest - lag < self.budget.val {
                rest - lag
            } else {
                self.budget.val
            }
        } else {
            0
        };
        Service { val: self.budget.val * full_periods + fractional_period }
    }

    fn service_time(&self, demand: Service) -> (delta: Duration) {
        if demand.is_none() {
            return Duration::zero();
        }
        let full_periods: u64 = demand.val / self.budget.val;
        let rest: u64 = demand.val % self.budget.val;
        proof {
            let b = self.budget@ as int;
            let q = full_periods as int;
            assert(demand@ == q * b + rest) by (nonlinear_arith)
                requires
                    b > 0,
                    q == demand@ as int / b,
                    rest == demand@ as int % b,
            ;
            assert(q * self.period@ >= 0) by (nonlinear_arith)
                requires
                    q >= 0,
            ;
        }
        let fractional_budget: u64 = if rest > 0 {
            rest + (self.period.val - self.budget.val)
        } else {
            0
        };
        Duration {
            val: (self.deadline.val - self.budget.val) + self.period.val * full_periods
                + fractional_budget,
        }
    }

    proof fn law_supply_monotone(&self, shorter: nat, longer: nat)
        decreases longer - shorter,
    {
        if shorter < longer {
            let mid = (longer - 1) as nat;
            self.law_supply_monotone(shorter, mid);
            lemma_constrained_supply_step(self.budget@, self.deadline@, self.period@, mid);
        }
    }

    proof fn law_service_time_zero(&self) {
    }

    proof fn law_service_time_inverse(&self, demand: nat) {
        let b = self.budget@;
        let d = self.deadline@;
        let t = self.period@;
        let lag = (d - b) as nat;
        let q = demand / b;
        let r = demand % b;
        assert(demand == q * b + r && r == demand - q * b) by (nonlinear_arith)
            requires
                b > 0,
                q == demand / b,
                r == demand % b,
        ;
        let time = constrained_service_time(b, d, t, demand);
        if r > 0 {
            assert(time == lag + q * t + r + t - b);
            lemma_supply_by_remainder(b, d, t, time, q, lag + r);
            if time - 1 > t - b {
                lemma_supply_by_remainder(b, d, t, (time - 1) as nat, q, (lag + r - 1) as nat);
            }
        } else {
            assert(q >= 1) by (nonlinear_arith)
                requires
                    demand == q * b,
                    demand > 0,
            ;
            assert(time == lag + q * t);
            assert(q * t >= t && (q - 1) * t == q * t - t) by (nonlinear_arith)
                requires
                    q >= 1,
            ;
            assert((q - 1) * b == q * b - b) by (nonlinear_arith);
            if d < t {
                lemma_supply_by_remainder(b, d, t, time, (q - 1) as nat, d);
            } else {
                lemma_supply_by_remainder(b, d, t, time, q, 0);
            }
            if time - 1 > t - b {
                lemma_supply_by_remainder(b, d, t, (time - 1) as nat, (q - 1) as nat, (d - 1) as nat);
            }
        }
    }
}

/// One more unit of time never lowers the supply.
proof fn lemma_constrained_supply_step(b: nat, d: nat, t: nat, delta: nat)
    requires
        b <= d <= t,
        t > 0,
    ensures
        constrained_supply(b, d, t, 0) == 0,
        constrained_supply(b, d, t, delta) <= constrained_supply(b, d, t, delta + 1),
{
    let shift = (t - b) as nat;
    if delta > shift {
        let n = (delta - shift) as nat;
        let q = n / t;
        let rem = n % t;
        assert(n == q * t + rem && rem < t) by (nonlinear_arith)
            requires
                t > 0,
                q == n / t,
                rem == n % t,
        ;
        lemma_supply_by_remainder(b, d, t, delta, q, rem);
        if rem + 1 < t {
            lemma_supply_by_remainder(b, d, t, delta + 1, q, rem + 1);
        } else {
            assert((q + 1) * t == q * t + t && (q + 1) * b == q * b + b) by (nonlinear_arith);
            lemma_supply_by_remainder(b, d, t, delta + 1, q + 1, 0);
        }
    }
}

} // verus!
