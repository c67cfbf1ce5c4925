//! Models of resource supply: dedicated processors and reservations.
//!
//! A supply bound is a lower bound on the processor service delivered in
//! any interval of a given length, together with its pseudo-inverse.

use vstd::prelude::*;
use crate::time::{Duration, Service};

pub mod constrained;
pub mod dedicated;
pub mod periodic;

pub use constrained::Constrained;
pub use dedicated::{Dedicated, DedicatedProcessor};
pub use periodic::Periodic;

verus! {

/// The interface of supply-bound functions.
pub trait SupplyBound {
    /// The parameters describe a proper supply.
    spec fn wf(&self) -> bool;

    /// The least service delivered in any interval of length `delta`.
    spec fn supply(&self, delta: nat) -> nat;

    /// The least interval length in which `demand` is certainly served.
    spec fn time_for(&self, demand: nat) -> nat;

    /// The supply is able to serve `demand` in a representable time.
    spec fn admits_demand(&self, demand: nat) -> bool;

    /// Bound the service delivered in any interval of length `delta`.
    fn provided_service(&self, delta: Duration) -> (s: Service)
        requires
            self.wf(),
        ensures
            s@ == self.supply(delta@),
    ;

    /// Bound the interval length needed to deliver `demand`.
    fn service_time(&self, demand: Service) -> (delta: Duration)
        requires
            self.wf(),
            self.admits_demand(demand@),
        ensures
            delta@ == self.time_for(demand@),
    ;

    /// No service is delivered in an empty interval, and a longer interval
    /// never delivers less.
    proof fn law_supply_monotone(&self, shorter: nat, longer: nat)
        requires
            self.wf(),
            shorter <= longer,
        ensures
            self.supply(0) == 0,
            self.supply(shorter) <= self.supply(longer),
    ;

    /// No demand is served at once.
    proof fn law_service_time_zero(&self)
        requires
            self.wf(),
        ensures
            self.admits_demand(0),
            self.time_for(0) == 0,
    ;

    /// The pseudo-inverse names the first interval length at which the
    /// supply reaches a positive demand.
    proof fn law_service_time_inverse(&self, demand: nat)
        requires
            self.wf(),
            self.admits_demand(demand),
            demand > 0,
        ensures
            self.time_for(demand) > 0,
            self.supply(self.time_for(demand)) >= demand,
            self.supply((self.time_for(demand) - 1) as nat) < demand,
    ;
}

/// A larger demand never takes less time to serve.
pub proof fn law_service_time_monotone<S: SupplyBound>(supply: &S, less: nat, more: nat)
    requires
        supply.wf(),
        less <= more,
        supply.admits_demand(less),
        supply.admits_demand(more),
    ensures
        supply.time_for(less) <= supply.time_for(more),
{
    supply.law_service_time_zero();
    if less > 0 {
        supply.law_service_time_inverse(less);
        supply.law_service_time_inverse(more);
        if supply.time_for(more) < supply.time_for(less) {
            supply.law_supply_monotone(
                supply.time_for(more),
                (supply.time_for(less) - 1) as nat,
            );
        }
    }
}

/// The supply delivers at most one unit of service per unit of time.
pub open spec fn unit_speed<S: SupplyBound>(supply: &S) -> bool {
    forall|shorter: nat, longer: nat|
        shorter <= longer ==> #[trigger] supply.supply(longer) - #[trigger] supply.supply(shorter)
            <= longer - shorter
}

/// Bound the interval length needed to deliver `demand`, by a search on the
/// supply alone: starting from the demand, the interval is extended by
/// the service that is still missing, until none is missing. It serves
/// supplies that have no closed form for [`SupplyBound::service_time`].
pub fn service_time_by_search<S: SupplyBound>(supply: &S, demand: Service) -> (delta: Duration)
    requires
        supply.wf(),
        unit_speed(supply),
        supply.admits_demand(demand@),
        supply.time_for(demand@) <= u64::MAX,
    ensures
        delta@ == supply.time_for(demand@),
{
    let ghost least = supply.time_for(demand@);
    proof {
        supply.law_service_time_zero();
        supply.law_supply_monotone(0, least);
        if demand@ > 0 {
            supply.law_service_time_inverse(demand@);
        }
        assert(supply.supply(least) - supply.supply(0) <= least - 0);
    }
    let mut t = Duration { val: demand.val };
    loop
        invariant
            supply.wf(),
            unit_speed(supply),
            supply.admits_demand(demand@),
            least == supply.time_for(demand@),
            least <= u64::MAX,
            supply.supply(least) >= demand@,
            demand@ > 0 ==> least > 0 && supply.supply((least - 1) as nat) < demand@,
            demand@ == 0 ==> least == 0,
            t@ <= least,
        ensures
            t@ == least,
        decreases least - t@,
    {
        let provided = supply.provided_service(t);
        if provided.val >= demand.val {
            proof {
                if t@ < least {
                    supply.law_supply_monotone(t@, (least - 1) as nat);
                }
            }
            break ;
        }
        proof {
            assert(supply.supply(least) - supply.supply(t@) <= least - t@);
        }
        t = Duration { val: t.val + (demand.val - provided.val) };
    }
    t
}

/// A quotient `q` and a remainder `r` that make up `n` are those of the division by `d`.
pub proof fn lemma_div_mod(n: int, d: int, q: int, r: int)
    requires
        d > 0,
        n == q * d + r,
        0 <= r < d,
    ensures
        n / d == q,
        n % d == r,
{
    vstd::arithmetic::div_mod::lemma_fundamental_div_mod_converse(n, d, q, r);
}

impl<'a, T: SupplyBound> SupplyBound for &'a T {
    open spec fn wf(&self) -> bool {
        (**self).wf()
    }

    open spec fn supply(&self, delta: nat) -> nat {
        (**self).supply(delta)
    }

    open spec fn time_for(&self, demand: nat) -> nat {
        (**self).time_for(demand)
    }

    open spec fn admits_demand(&self, demand: nat) -> bool {
        (**self).admits_demand(demand)
    }

    fn provided_service(&self, delta: Duration) -> (s: Service) {
        (**self).provided_service(delta)
    }

    fn service_time(&self, demand: Service) -> (delta: Duration) {
        (**self).service_time(demand)
    }

    proof fn law_supply_monotone(&self, shorter: nat, longer: nat) {
        (**self).law_supply_monotone(shorter, longer);
    }

    proof fn law_service_time_zero(&self) {
        (**self).law_service_time_zero();
    }

    proof fn law_service_time_inverse(&self, demand: nat) {
        (**self).law_service_time_inverse(demand);
    }
}

impl<T: SupplyBound> SupplyBound for Box<T> {
    open spec fn wf(&self) -> bool {
        (**self).wf()
    }

    open spec fn supply(&self, delta: nat) -> nat {
        (**self).supply(delta)
    }

    open spec fn time_for(&self, demand: nat) -> nat {
        (**self).time_for(demand)
    }

    open spec fn admits_demand(&self, demand: nat) -> bool {
        (**self).admits_demand(demand)
    }

    fn provided_service(&self, delta: Duration) -> (s: Service) {
        (**self).provided_service(delta)
    }

    fn service_time(&self, demand: Service) -> (delta: Duration) {
        (**self).service_time(demand)
    }

    proof fn law_supply_monotone(&self, shorter: nat, longer: nat) {
        (**self).law_supply_monotone(shorter, longer);
    }

    proof fn law_service_time_zero(&self) {
        (**self).law_service_time_zero();
    }

    proof fn law_service_time_inverse(&self, demand: nat) {
        (**self).law_service_time_inverse(demand);
    }
}

} // verus!
