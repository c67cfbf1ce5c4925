//! Response-time analyses for timers, event sources, polling-point
//! callbacks and processing chains.

use vstd::prelude::*;
use crate::demand::RequestBound;
use crate::fixed_point::{
    bound_response_time, response_time_boundable, response_time_bounded, OffsetWorkload,
    SearchResult, Workload,
};
use crate::supply::SupplyBound;
use crate::time::{Duration, Offset, Service};

verus! {

/// The interval in which others interfere with a job that is released at
/// the end of `prefix` and responds within `response`: up to the start of
/// the job, which lies its least cost `own_wcet` before its end, and the
/// smallest unit more.
pub open spec fn interference_interval(prefix: nat, response: nat, own_wcet: nat) -> nat {
    if response > own_wcet {
        (prefix + response - own_wcet + 1) as nat
    } else {
        prefix + 1
    }
}

/// The demand of an event source: its own, up to and including the offset.
pub struct EventSourceDemand<'a, R> {
    pub demand: &'a R,
}

impl<'a, R: RequestBound> Workload for EventSourceDemand<'a, R> {
    open spec fn wf(&self) -> bool {
        self.demand.wf()
    }

    open spec fn bound(&self, delta: nat) -> nat {
        self.demand.demand(delta)
    }

    open spec fn admits(&self, delta: nat) -> bool {
        self.demand.admits(delta)
    }

    fn demand(&self, delta: Duration) -> (s: Service) {
        self.demand.service_needed(delta)
    }
}

impl<'a, R: RequestBound> OffsetWorkload for EventSourceDemand<'a, R> {
    open spec fn wf(&self) -> bool {
        self.demand.wf()
    }

    open spec fn bound(&self, offset: nat, delta: nat) -> nat {
        self.demand.demand(offset + 1)
    }

    open spec fn admits(&self, offset: nat, delta: nat) -> bool {
        offset < u64::MAX && self.demand.admits(offset + 1)
    }

    fn demand(&self, offset: Offset, _response: Duration) -> (s: Service) {
        self.demand.service_needed(offset.closed_since_time_zero())
    }
}

/// Bound the response time of an event source.
pub fn rta_event_source<S: SupplyBound, R: RequestBound>(supply: &S, demand: &R, limit: Duration) -> (result:
    SearchResult)
    requires
        response_time_boundable(
            supply,
            demand,
            &EventSourceDemand { demand },
            &EventSourceDemand { demand },
            limit,
        ),
    ensures
        response_time_bounded(
            supply,
            demand,
            &EventSourceDemand { demand },
            &EventSourceDemand { demand },
            limit,
            result,
        ),
{
    let rhs = EventSourceDemand { demand };
    bound_response_time(supply, demand, &rhs, &rhs, limit)
}

/// The demand that delays a callback: its own, the interference of
/// others until it starts, and the blocking.
pub struct CallbackDemand<'a, R1, R2> {
    pub own_demand: &'a R1,
    pub interfering_demand: &'a R2,
    pub blocking_bound: Service,
}

impl<'a, R1: RequestBound, R2: RequestBound> Workload for CallbackDemand<'a, R1, R2> {
    open spec fn wf(&self) -> bool {
        self.own_demand.wf() && self.interfering_demand.wf()
    }

    open spec fn bound(&self, delta: nat) -> nat {
        self.own_demand.demand(delta) + self.blocking_bound@ + self.interfering_demand.demand(delta)
    }

    open spec fn admits(&self, delta: nat) -> bool {
        &&& self.own_demand.admits(delta)
        &&& self.interfering_demand.admits(delta)
        &&& Workload::bound(self, delta) <= u64::MAX
    }

    fn demand(&self, delta: Duration) -> (s: Service) {
        let own = self.own_demand.service_needed(delta);
        let other = self.interfering_demand.service_needed(delta);
        Service { val: own.val + self.blocking_bound.val + other.val }
    }
}

impl<'a, R1: RequestBound, R2: RequestBound> OffsetWorkload for CallbackDemand<'a, R1, R2> {
    open spec fn wf(&self) -> bool {
        self.own_demand.wf() && self.interfering_demand.wf()
    }

    open spec fn bound(&self, offset: nat, delta: nat) -> nat {
        let interval = interference_interval(
            offset,
            delta,
            self.own_demand.least_cost(offset + delta),
        );
        self.own_demand.demand(offset + 1) + self.interfering_demand.demand(interval)
            + self.blocking_bound@
    }

    open spec fn admits(&self, offset: nat, delta: nat) -> bool {
        let interval = interference_interval(
            offset,
            delta,
            self.own_demand.least_cost(offset + delta),
        );
        &&& offset + delta < u64::MAX
        &&& self.own_demand.admits(offset + delta)
        &&& self.own_demand.admits(offset + 1)
        &&& self.interfering_demand.admits(interval)
        &&& OffsetWorkload::bound(self, offset, delta) <= u64::MAX
    }

    fn demand(&self, offset: Offset, response: Duration) -> (s: Service) {
        let prefix = offset.since_time_zero();
        let own_wcet = self.own_demand.least_wcet_in_interval(
            Duration { val: prefix.val + response.val },
        );
        let interference_interval = if response.val > own_wcet.val {
            Duration { val: prefix.val + response.val - own_wcet.val + 1 }
        } else {
            Duration { val: prefix.val + 1 }
        };
        let own = self.own_demand.service_needed(Duration { val: prefix.val + 1 });
        let other = self.interfering_demand.service_needed(interference_interval);
        Service { val: own.val + other.val + self.blocking_bound.val }
    }
}

/// Bound the response time of a timer callback.
///
/// Timers are served before polled callbacks, so only a callback that is
/// already running can block one, which `blocking_bound` accounts for.
pub fn rta_timer<S: SupplyBound, R1: RequestBound, R2: RequestBound>(
    supply: &S,
    own_demand: &R1,
    interfering_demand: &R2,
    blocking_bound: Service,
    limit: Duration,
) -> (result: SearchResult)
    requires
        response_time_boundable(
            supply,
            own_demand,
            &CallbackDemand { own_demand, interfering_demand, blocking_bound },
            &CallbackDemand { own_demand, interfering_demand, blocking_bound },
            limit,
        ),
    ensures
        response_time_bounded(
            supply,
            own_demand,
            &CallbackDemand { own_demand, interfering_demand, blocking_bound },
            &CallbackDemand { own_demand, interfering_demand, blocking_bound },
            limit,
            result,
        ),
{
    let rhs = CallbackDemand { own_demand, interfering_demand, blocking_bound };
    bound_response_time(supply, own_demand, &rhs, &rhs, limit)
}

/// Bound the response time of a polling-point callback: nothing blocks it.
pub fn rta_polling_point_callback<S: SupplyBound, R1: RequestBound, R2: RequestBound>(
    supply: &S,
    own_demand: &R1,
    interfering_demand: &R2,
    limit: Duration,
) -> (result: SearchResult)
    requires
        response_time_boundable(
            supply,
            own_demand,
            &CallbackDemand { own_demand, interfering_demand, blocking_bound: Service { val: 0 } },
            &CallbackDemand { own_demand, interfering_demand, blocking_bound: Service { val: 0 } },
            limit,
        ),
    ensures
        response_time_bounded(
            supply,
            own_demand,
            &CallbackDemand { own_demand, interfering_demand, blocking_bound: Service { val: 0 } },
            &CallbackDemand { own_demand, interfering_demand, blocking_bound: Service { val: 0 } },
            limit,
            result,
        ),
{
    let rhs = CallbackDemand { own_demand, interfering_demand, blocking_bound: Service::none() };
    bound_response_time(supply, own_demand, &rhs, &rhs, limit)
}

/// The demand that delays the last callback of a processing chain: its
/// own, and until it starts that of the callbacks before it in the chain
/// and of all other chains.
pub struct ChainDemand<'a, R1, R2, R3, R4> {
    pub chain_last_callback: &'a R1,
    pub chain_prefix: &'a R2,
    pub full_chain: &'a R3,
    pub other_chains: &'a R4,
}

impl<
    'a,
    R1: RequestBound,
    R2: RequestBound,
    R3: RequestBound,
    R4: RequestBound,
> Workload for ChainDemand<'a, R1, R2, R3, R4> {
    open spec fn wf(&self) -> bool {
        &&& self.chain_last_callback.wf()
        &&& self.chain_prefix.wf()
        &&& self.full_chain.wf()
        &&& self.other_chains.wf()
    }

    open spec fn bound(&self, delta: nat) -> nat {
        self.full_chain.demand(delta) + self.other_chains.demand(delta)
    }

    open spec fn admits(&self, delta: nat) -> bool {
        &&& self.full_chain.admits(delta)
        &&& self.other_chains.admits(delta)
        &&& Workload::bound(self, delta) <= u64::MAX
    }

    fn demand(&self, delta: Duration) -> (s: Service) {
        let chain = self.full_chain.service_needed(delta);
        let others = self.other_chains.service_needed(delta);
        Service { val: chain.val + others.val }
    }
}

impl<
    'a,
    R1: RequestBound,
    R2: RequestBound,
    R3: RequestBound,
    R4: RequestBound,
> OffsetWorkload for ChainDemand<'a, R1, R2, R3, R4> {
    open spec fn wf(&self) -> bool {
        &&& self.chain_last_callback.wf()
        &&& self.chain_prefix.wf()
        &&& self.full_chain.wf()
        &&& self.other_chains.wf()
    }

    open spec fn bound(&self, offset: nat, delta: nat) -> nat {
        let interval = interference_interval(
            offset,
            delta,
            self.chain_last_callback.least_cost(offset + delta),
        );
        self.chain_last_callback.demand(offset + 1) + self.chain_prefix.demand(interval)
            + self.other_chains.demand(interval)
    }

    open spec fn admits(&self, offset: nat, delta: nat) -> bool {
        let interval = interference_interval(
            offset,
            delta,
            self.chain_last_callback.least_cost(offset + delta),
        );
        &&& offset + delta < u64::MAX
        &&& self.chain_last_callback.admits(offset + delta)
        &&& self.chain_last_callback.admits(offset + 1)
        &&& self.chain_prefix.admits(interval)
        &&& self.other_chains.admits(interval)
        &&& OffsetWorkload::bound(self, offset, delta) <= u64::MAX
    }

    fn demand(&self, offset: Offset, response: Duration) -> (s: Service) {
        let prefix = offset.since_time_zero();
        let own_demand = self.chain_last_callback.service_needed(Duration { val: prefix.val + 1 });
        let own_wcet = self.chain_last_callback.least_wcet_in_interval(
            Duration { val: prefix.val + response.val },
        );
        let interference_interval = if response.val > own_wcet.val {
            Duration { val: prefix.val + response.val - own_wcet.val + 1 }
        } else {
            Duration { val: prefix.val + 1 }
        };
        let other_demand = self.other_chains.service_needed(interference_interval);
        let self_interference = self.chain_prefix.service_needed(interference_interval);
        Service { val: own_demand.val + self_interference.val + other_demand.val }
    }
}

/// Bound the response time of a processing chain, by way of its last callback.
///
/// `full_chain` is the demand of the whole chain: of `chain_prefix`, the
/// callbacks before the last one, and of `chain_last_callback` together.
pub fn rta_processing_chain<
    S: SupplyBound,
    R1: RequestBound,
    R2: RequestBound,
    R3: RequestBound,
    R4: RequestBound,
>(
    supply: &S,
    chain_last_callback: &R1,
    chain_prefix: &R2,
    full_chain: &R3,
    other_chains: &R4,
    limit: Duration,
) -> (result: SearchResult)
    requires
        response_time_boundable(
            supply,
            full_chain,
            &ChainDemand { chain_last_callback, chain_prefix, full_chain, other_chains },
            &ChainDemand { chain_last_callback, chain_prefix, full_chain, other_chains },
            limit,
        ),
    ensures
        response_time_bounded(
            supply,
            full_chain,
            &ChainDemand { chain_last_callback, chain_prefix, full_chain, other_chains },
            &ChainDemand { chain_last_callback, chain_prefix, full_chain, other_chains },
            limit,
            result,
        ),
{
    let rhs = ChainDemand { chain_last_callback, chain_prefix, full_chain, other_chains };
    bound_response_time(supply, full_chain, &rhs, &rhs, limit)
}

} // verus!
