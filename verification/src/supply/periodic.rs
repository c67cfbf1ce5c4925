//! The periodic resource model of Shin and Lee.

use vstd::prelude::*;
use super::{lemma_div_mod, SupplyBound};
use crate::time::{Duration, Service};

verus! {

/// A reservation that delivers `budget` units of service in every `period`,
/// at an unknown place within the period.
#[derive(Debug, Clone, Copy)]
pub struct Periodic {
    pub period: Duration,
    pub budget: Service,
}

/// The supply of a periodic reservation with budget `b` and period `t`.
pub open spec fn periodic_supply(b: nat, t: nat, delta: nat) -> nat
    recommends
        b <= t,
        t > 0,
{
    let slack = (t - b) as nat;
    if delta <= slack {
        0
    } else {
        let q = (delta - slack) as nat / t;
        let x = 2 * slack + q * t;
        q * b + if x < delta { (delta - x) as nat } else { 0 }
    }
}

/// The time within which a periodic reservation certainly delivers `demand`.
pub open spec fn periodic_service_time(b: nat, t: nat, demand: nat) -> nat
    recommends
        0 < b <= t,
{
    let slack = (t - b) as nat;
    if demand == 0 {
        0
    } else {
        let q = demand / b;
        let r = (demand - q * b) as nat;
        slack + q * t + if r > 0 { slack + r } else { 0 }
    }
}

/// The supply written over the remainder of the division, which is how it is computed.
proof fn lemma_supply_by_remainder(b: nat, t: nat, delta: nat, q: nat, rem: nat)
    requires
        b <= t,
        t > 0,
        delta > t - b,
        delta - (t - b) == q * t + rem,
        rem < t,
    ensures
        periodic_supply(b, t, delta) == q * b + if rem > t - b { (rem - (t - b)) as nat } else { 0 },
        q * b <= q * t,
{
    lemma_div_mod(delta - (t - b), t as int, q as int, rem as int);
    assert(q * b <= q * t) by (nonlinear_arith)
        requires
            b <= t,
    ;
}

impl Periodic {
    /// Construct a periodic reservation; the budget must fit into the period.
    pub fn new(budget: Service, period: Duration) -> (supply: Periodic)
        requires
            budget@ <= period@,
        ensures
            period@ > 0 ==> supply.wf(),
            supply.budget == budget,
            supply.period == period,
    {
        Periodic { period, budget }
    }
}

impl SupplyBound for Periodic {
    open spec fn wf(&self) -> bool {
        self.budget@ <= self.period@ && self.period@ > 0
    }

    open spec fn supply(&self, delta: nat) -> nat {
        periodic_supply(self.budget@, self.period@, delta)
    }

    open spec fn time_for(&self, demand: nat) -> nat {
        periodic_service_time(self.budget@, self.period@, demand)
    }

    open spec fn admits_demand(&self, demand: nat) -> bool {
        demand == 0 || (self.budget@ > 0 && periodic_service_time(
            self.budget@,
            self.period@,
            demand,
        ) <= u64::MAX)
    }

    fn provided_service(&self, delta: Duration) -> (s: Service) {
        let slack: u64 = self.period.val - self.budget.val;
        if slack >= delta.val {
            return Service::none();
        }
        let full_periods: u64 = (delta.val - slack) / self.period.val;
        let rest: u64 = (delta.val - slack) % self.period.val;
        proof {
            let n = (delta@ - slack) as int;
            let t = self.period@ as int;
            let b = self.budget@ as int;
            let q = full_periods as int;
            assert(n == q * t + rest && b * q == q * b) by (nonlinear_arith)
                requires
                    t > 0,
                    q == n / t,
                    rest == n % t,
            ;
            lemma_supply_by_remainder(
                self.budget@,
                self.period@,
                delta@,
                full_periods as nat,
                rest as nat,
            );
        }
        let fractional_period: u64 = if rest > slack {
            rest - slack
        } else {
            0
        };
        Service { val: self.budget.val * full_periods + fractional_period }
    }

    fn service_time(&self, demand: Service) -> (delta: Duration) {
        if demand.is_none() {
            return Duration::zero();
        }
        let slack: u64 = self.period.val - self.budget.val;
        let full_periods: u64 = demand.val / self.budget.val;
        let rest: u64 = demand.val % self.budget.val;
        proof {
            let b = self.budget@ as int;
            let q = full_periods as int;
            assert(demand@ == q * b + rest) by (nonlinear_arith)
                requires
                    b > 0,
                    q == demand@ as int / b,
                    rest == demand@ as int % b,
            ;
            assert(q * self.period@ >= 0) by (nonlinear_arith)
                requires
                    q >= 0,
            ;
        }
        let fractional_budget: u64 = if rest > 0 {
            slack + rest
        } else {
            0
        };
        Duration { val: slack + self.period.val * full_periods + fractional_budget }
    }

    proof fn law_supply_monotone(&self, shorter: nat, longer: nat)
        decreases longer - shorter,
    {
        if shorter < longer {
            let mid = (longer - 1) as nat;
            self.law_supply_monotone(shorter, mid);
            lemma_periodic_supply_step(self.budget@, self.period@, mid);
        }
    }

    proof fn law_service_time_zero(&self) {
    }

    proof fn law_service_time_inverse(&self, demand: nat) {
        let b = self.budget@;
        let t = self.period@;
        let slack = (t - b) as nat;
        let q = demand / b;
        let r = demand % b;
        assert(demand == q * b + r && r == demand - q * b) by (nonlinear_arith)
            requires
                b > 0,
                q == demand / b,
                r == demand % b,
        ;
        let time = periodic_service_time(b, t, demand);
        if r > 0 {
            assert(time == slack + q * t + slack + r);
            lemma_supply_by_remainder(b, t, time, q, slack + r);
            if time - 1 > slack {
                lemma_supply_by_remainder(b, t, (time - 1) as nat, q, (slack + r - 1) as nat);
            }
        } else {
            assert(q >= 1) by (nonlinear_arith)
                requires
                    demand == q * b,
                    demand > 0,
            ;
            assert(time == slack + q * t);
            assert(q * t >= t && (q - 1) * t == q * t - t) by (nonlinear_arith)
                requires
                    q >= 1,
            ;
            assert((q - 1) * b == q * b - b) by (nonlinear_arith);
            lemma_supply_by_remainder(b, t, time, q, 0);
            if time - 1 > slack {
                lemma_supply_by_remainder(b, t, (time - 1) as nat, (q - 1) as nat, (t - 1) as nat);
            }
        }
    }
}

/// One more unit of time never lowers the supply.
proof fn lemma_periodic_supply_step(b: nat, t: nat, delta: nat)
    requires
        b <= t,
        t > 0,
    ensures
        periodic_supply(b, t, 0) == 0,
        periodic_supply(b, t, delta) <= periodic_supply(b, t, delta + 1),
{
    let slack = (t - b) as nat;
    if delta > slack {
        let n = (delta - slack) as nat;
        let q = n / t;
        let rem = n % t;
        assert(n == q * t + rem && rem < t) by (nonlinear_arith)
            requires
                t > 0,
                q == n / t,
                rem == n % t,
        ;
        lemma_supply_by_remainder(b, t, delta, q, rem);
        if rem + 1 < t {
            lemma_supply_by_remainder(b, t, delta + 1, q, rem + 1);
        } else {
            assert((q + 1) * t == q * t + t && (q + 1) * b == q * b + b) by (nonlinear_arith);
            lemma_supply_by_remainder(b, t, delta + 1, q + 1, 0);
        }
    } else if delta + 1 > slack {
        if t > 1 {
            lemma_supply_by_remainder(b, t, delta + 1, 0, 1);
        } else {
            lemma_supply_by_remainder(b, t, delta + 1, 1, 0);
        }
    }
}

} // verus!
