//! The request-bound function of one task.

use vstd::prelude::*;
use super::RequestBound;
use crate::arrival::{ArrivalBound, ArrivalModel};
use super::largest::{lemma_largest_sum_of_same_costs, service_values, sum_of_largest};
use crate::time::{Duration, Service, Time};
use crate::wcet::JobCostModel;

verus! {

/// The demand of a task whose jobs arrive as `arrival_bound` says and cost
/// what `wcet` says.
#[derive(Clone, Debug)]
pub struct RBF<B: ArrivalModel, C: JobCostModel> {
    pub wcet: C,
    pub arrival_bound: B,
}

/// A request-bound function, by the name that says what it bounds.
pub type WorstCaseRBF<B, C> = RBF<B, C>;

impl<B: ArrivalModel, C: JobCostModel> RBF<B, C> {
    /// Pair an arrival bound with a cost model.
    pub fn new(arrival_bound: B, wcet: C) -> (rbf: Self)
        ensures
            rbf.arrival_bound == arrival_bound,
            rbf.wcet == wcet,
    {
        RBF { wcet, arrival_bound }
    }
}

impl<B: ArrivalModel, C: JobCostModel> RequestBound for RBF<B, C> {
    open spec fn wf(&self) -> bool {
        self.wcet.wf() && self.arrival_bound.wf()
    }

    open spec fn releases(&self, delta: nat) -> nat {
        self.arrival_bound.arrivals(delta)
    }

    open spec fn demand(&self, delta: nat) -> nat {
        self.wcet.cost(self.arrival_bound.arrivals(delta))
    }

    open spec fn least_cost(&self, delta: nat) -> nat {
        self.wcet.least(self.arrival_bound.arrivals(delta))
    }

    open spec fn admits(&self, delta: nat) -> bool {
        &&& self.arrival_bound.admits(delta)
        &&& self.arrival_bound.arrivals(delta) <= usize::MAX
        &&& self.wcet.cost(self.arrival_bound.arrivals(delta)) <= u64::MAX
    }

    open spec fn job_costs(&self, delta: nat) -> Seq<Time> {
        Seq::new(self.arrival_bound.arrivals(delta), |i: int| self.wcet.job_cost(i as nat) as Time)
    }

    fn service_needed(&self, delta: Duration) -> (s: Service) {
        self.wcet.cost_of_jobs(self.arrival_bound.number_arrivals(delta))
    }

    fn service_needed_by_n_jobs(&self, delta: Duration, max_jobs: usize) -> (s: Service) {
        let costs = self.job_cost_iter(delta);
        proof {
            lemma_largest_sum_of_same_costs(
                service_values(costs@),
                self.job_costs(delta@),
                max_jobs as nat,
            );
        }
        sum_of_largest(&costs, max_jobs)
    }

    fn job_cost_iter(&self, delta: Duration) -> (costs: Vec<Service>) {
        let costs = self.wcet.job_cost_iter(self.arrival_bound.number_arrivals(delta));
        proof {
            assert(service_values(costs@) =~= self.job_costs(delta@));
        }
        costs
    }

    fn least_wcet_in_interval(&self, delta: Duration) -> (s: Service) {
        self.wcet.least_wcet(self.arrival_bound.number_arrivals(delta))
    }

    fn steps_iter(&self, horizon: Duration) -> (steps: Vec<Duration>) {
        let steps = self.arrival_bound.steps_iter(horizon);
        proof {
            assert((|delta: nat| self.releases(delta)) == (|delta: nat|
                self.arrival_bound.arrivals(delta)));
        }
        steps
    }

    proof fn law_demand(&self, shorter: nat, longer: nat) {
        self.arrival_bound.law_arrivals(shorter, longer);
        self.wcet.law_cost(
            self.arrival_bound.arrivals(shorter),
            self.arrival_bound.arrivals(longer),
        );
    }
}

} // verus!
