//! A processor that is always available.

use vstd::prelude::*;
use super::SupplyBound;
use crate::time::{Duration, Service};

verus! {

/// A dedicated, exclusive processor of unit speed.
#[derive(Debug, Clone, Copy)]
pub struct Dedicated {}

/// A dedicated processor, by its longer name.
pub type DedicatedProcessor = Dedicated;

impl Dedicated {
    /// Construct the supply model of a dedicated processor.
    pub fn new() -> (proc: Dedicated)
        ensures
            proc.wf(),
    {
        Dedicated {  }
    }
}

impl SupplyBound for Dedicated {
    open spec fn wf(&self) -> bool {
        true
    }

    open spec fn supply(&self, delta: nat) -> nat {
        delta
    }

    open spec fn time_for(&self, demand: nat) -> nat {
        demand
    }

    open spec fn admits_demand(&self, demand: nat) -> bool {
        true
    }

    fn provided_service(&self, delta: Duration) -> (s: Service) {
        Service::in_interval(delta)
    }

    fn service_time(&self, demand: Service) -> (delta: Duration) {
        Duration { val: demand.val }
    }

    proof fn law_supply_monotone(&self, shorter: nat, longer: nat) {
    }

    proof fn law_service_time_zero(&self) {
    }

    proof fn law_service_time_inverse(&self, demand: nat) {
    }
}

/// On a dedicated processor, service and time are the same quantity.
pub proof fn law_dedicated_identity(proc: Dedicated, x: nat)
    ensures
        proc.supply(x) == x,
        proc.time_for(x) == x,
        proc.supply(proc.time_for(x)) == x,
{
}

} // verus!
