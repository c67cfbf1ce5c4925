//! Window-aware response-time analysis for processing chains.
//!
//! The analysis limits the interference by the number of processing windows
//! that a chain can pass through. Unlike the other analyses of this crate it
//! rests on no published proof of soundness: its bound is an estimate.

use vstd::prelude::*;
use super::ecrts19::interference_interval;
use crate::arrival::{ArrivalBound, ArrivalModel};
use crate::demand::largest::largest_sum;
use crate::demand::{AggregateRequestBound, RequestBound, RBF};
use crate::fixed_point::{
    bound_response_time, response_time_boundable, response_time_bounded, OffsetWorkload,
    SearchResult, Workload,
};
use crate::supply::SupplyBound;
use crate::time::{Duration, Offset, Service};
use crate::wcet::curve::window_cost;
use crate::wcet::Scalar;

verus! {

/// The demand that delays the last callback of a chain, with the
/// interference limited by the processing windows of the chain.
pub struct WindowAware<'a, AB: ArrivalModel, R> {
    /// The demand of the callbacks of the chain before the last one.
    pub prefix_rbf: RBF<&'a AB, Scalar>,
    /// The demand of the last callback of the chain.
    pub suffix_rbf: RBF<&'a AB, Scalar>,
    /// The number of callbacks of the chain.
    pub chain_length: usize,
    /// The demand of everything else.
    pub interfering_demand: &'a R,
}

impl<'a, AB: ArrivalModel, R: AggregateRequestBound> WindowAware<'a, AB, R> {
    /// The processing windows that matter for a job released at `offset`.
    pub open spec fn windows(&self, offset: nat) -> nat {
        self.suffix_rbf.arrival_bound.arrivals(offset + 1) * (self.chain_length as nat)
    }

    /// The interval in which others interfere with a job released at
    /// `offset` that responds within `response`.
    pub open spec fn interval(&self, offset: nat, response: nat) -> nat {
        interference_interval(offset, response, self.suffix_rbf.wcet.wcet@)
    }
}

impl<'a, AB: ArrivalModel, R: AggregateRequestBound> Workload for WindowAware<'a, AB, R> {
    open spec fn wf(&self) -> bool {
        self.prefix_rbf.wf() && self.suffix_rbf.wf() && self.interfering_demand.wf()
    }

    open spec fn bound(&self, delta: nat) -> nat {
        self.prefix_rbf.demand(delta) + self.suffix_rbf.demand(delta)
            + self.interfering_demand.demand(delta)
    }

    open spec fn admits(&self, delta: nat) -> bool {
        &&& self.prefix_rbf.admits(delta)
        &&& self.suffix_rbf.admits(delta)
        &&& self.interfering_demand.admits(delta)
        &&& Workload::bound(self, delta) <= u64::MAX
    }

    fn demand(&self, delta: Duration) -> (s: Service) {
        let prefix = self.prefix_rbf.service_needed(delta);
        let suffix = self.suffix_rbf.service_needed(delta);
        let others = self.interfering_demand.service_needed(delta);
        Service { val: prefix.val + suffix.val + others.val }
    }
}

impl<'a, AB: ArrivalModel, R: AggregateRequestBound> OffsetWorkload for WindowAware<'a, AB, R> {
    open spec fn wf(&self) -> bool {
        self.prefix_rbf.wf() && self.suffix_rbf.wf() && self.interfering_demand.wf()
    }

    open spec fn bound(&self, offset: nat, delta: nat) -> nat {
        let interval = self.interval(offset, delta);
        self.suffix_rbf.demand(offset + 1) + largest_sum(
            self.prefix_rbf.job_costs(interval),
            self.windows(offset),
        ) + self.interfering_demand.demand_per_component(interval, 1 + self.windows(offset))
    }

    open spec fn admits(&self, offset: nat, delta: nat) -> bool {
        let interval = self.interval(offset, delta);
        &&& offset + delta < u64::MAX
        &&& self.suffix_rbf.admits(offset + 1)
        &&& self.windows(offset) < usize::MAX
        &&& self.prefix_rbf.admits(interval)
        &&& self.interfering_demand.admits_per_component(interval, 1 + self.windows(offset))
        &&& OffsetWorkload::bound(self, offset, delta) <= u64::MAX
    }

    fn demand(&self, offset: Offset, response: Duration) -> (s: Service) {
        let at = offset.since_time_zero();
        let last_cb = self.suffix_rbf.wcet.wcet;
        let released = self.suffix_rbf.arrival_bound.number_arrivals(Duration { val: at.val + 1 });
        proof {
            let n = released as int;
            let len = self.chain_length as int;
            assert(n * len >= 0) by (nonlinear_arith)
                requires
                    n >= 0,
                    len >= 0,
            ;
        }
        let num_windows: usize = released * self.chain_length;
        let interference_interval = if response.val > last_cb.val {
            Duration { val: at.val + response.val - last_cb.val + 1 }
        } else {
            Duration { val: at.val + 1 }
        };
        let own = self.suffix_rbf.service_needed(Duration { val: at.val + 1 });
        let before = self.prefix_rbf.service_needed_by_n_jobs(interference_interval, num_windows);
        let others = self.interfering_demand.service_needed_by_n_jobs_per_component(
            interference_interval,
            1 + num_windows,
        );
        Service { val: own.val + before.val + others.val }
    }
}

/// The workload of a chain whose callbacks cost `chain_costs`, in order.
pub open spec fn window_aware<'a, AB: ArrivalModel, R: AggregateRequestBound>(
    chain_costs: Seq<Service>,
    chain_arrival_bound: &'a AB,
    interfering_demand: &'a R,
) -> WindowAware<'a, AB, R> {
    let last_cb = if chain_costs.len() > 0 {
        chain_costs.last()
    } else {
        Service { val: 0 }
    };
    let prefix_cost = Service {
        val: (window_cost(chain_costs, 0, chain_costs.len()) - last_cb@) as u64,
    };
    WindowAware {
        prefix_rbf: RBF { wcet: Scalar { wcet: prefix_cost }, arrival_bound: chain_arrival_bound },
        suffix_rbf: RBF { wcet: Scalar { wcet: last_cb }, arrival_bound: chain_arrival_bound },
        chain_length: chain_costs.len() as usize,
        interfering_demand,
    }
}

/// Estimate the response time of a processing chain whose callbacks cost
/// `chain_costs`, in order, and which is triggered as `chain_arrival_bound`
/// says.
///
/// The busy window ends when all chains are quiet. At each offset, the
/// last callback is delayed by its own demand, by the costliest jobs of
/// the callbacks before it, as many as the chain passes processing
/// windows, and by one job more than that of each interfering source.
pub fn rta_processing_chain_window_aware<
    'a,
    S: SupplyBound,
    AB: ArrivalModel,
    R: AggregateRequestBound,
>(
    supply: &S,
    chain_costs: &Vec<Service>,
    chain_arrival_bound: &'a AB,
    interfering_demand: &'a R,
    limit: Duration,
) -> (result: SearchResult)
    requires
        window_cost(chain_costs@, 0, chain_costs@.len()) <= u64::MAX,
        response_time_boundable(
            supply,
            &window_aware(chain_costs@, chain_arrival_bound, interfering_demand).suffix_rbf,
            &window_aware(chain_costs@, chain_arrival_bound, interfering_demand),
            &window_aware(chain_costs@, chain_arrival_bound, interfering_demand),
            limit,
        ),
    ensures
        response_time_bounded(
            supply,
            &window_aware(chain_costs@, chain_arrival_bound, interfering_demand).suffix_rbf,
            &window_aware(chain_costs@, chain_arrival_bound, interfering_demand),
            &window_aware(chain_costs@, chain_arrival_bound, interfering_demand),
            limit,
            result,
        ),
{
    let mut total: u64 = 0;
    let mut last_cb = Service::none();
    let mut chain_length: usize = 0;
    while chain_length < chain_costs.len()
        invariant
            window_cost(chain_costs@, 0, chain_costs@.len()) <= u64::MAX,
            chain_length <= chain_costs.len(),
            total == window_cost(chain_costs@, 0, chain_length as nat),
            last_cb == if chain_length > 0 {
                chain_costs@[chain_length - 1]
            } else {
                Service { val: 0 }
            },
        decreases chain_costs.len() - chain_length,
    {
        proof {
            lemma_cost_so_far(chain_costs@, (chain_length + 1) as nat);
        }
        let c = chain_costs[chain_length];
        total = total + c.val;
        last_cb = c;
        chain_length += 1;
    }
    proof {
        if chain_length > 0 {
            lemma_cost_so_far(chain_costs@, chain_length as nat);
        }
    }
    let prefix_cost = Service { val: total - last_cb.val };
    let rhs = WindowAware {
        prefix_rbf: RBF::new(chain_arrival_bound, Scalar::new(prefix_cost)),
        suffix_rbf: RBF::new(chain_arrival_bound, Scalar::new(last_cb)),
        chain_length,
        interfering_demand,
    };
    proof {
        assert(rhs == window_aware(chain_costs@, chain_arrival_bound, interfering_demand));
    }
    bound_response_time(supply, &rhs.suffix_rbf, &rhs, &rhs, limit)
}

/// The cost of the first callbacks is within the cost of all, and holds the
/// cost of the last of them.
proof fn lemma_cost_so_far(costs: Seq<Service>, upto: nat)
    requires
        1 <= upto <= costs.len(),
    ensures
        window_cost(costs, 0, upto) <= window_cost(costs, 0, costs.len()),
        window_cost(costs, 0, upto) >= costs[upto - 1]@,
    decreases costs.len() - upto,
{
    if upto < costs.len() {
        lemma_cost_so_far(costs, upto + 1);
    }
}

} // verus!
