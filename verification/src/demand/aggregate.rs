//! The joint demand of an owned collection of demand sources.

use vstd::prelude::*;
use super::largest::{lemma_largest_sum_of_same_costs, service_values, sum_of_largest};
use super::slice::{
    all_admit, all_job_costs, all_wf, joint_job_costs, joint_steps, largest_per_component,
    least_wcet_of, lemma_sum_demand, min_least_cost, sum_demand, sum_largest, sum_releases,
    total_service_needed,
};
use super::{AggregateRequestBound, RequestBound};
use crate::time::{Duration, Service, Time};

verus! {

/// The joint demand of a collection of demand sources.
#[derive(Clone, Debug)]
pub struct Aggregate<T> {
    pub individual: Vec<T>,
}

impl<T> Aggregate<T> {
    /// The joint demand of the `components`.
    pub fn new(components: Vec<T>) -> (joint: Self)
        ensures
            joint.individual == components,
    {
        Aggregate { individual: components }
    }
}

impl<T: RequestBound> RequestBound for Aggregate<T> {
    open spec fn wf(&self) -> bool {
        all_wf(self.individual@)
    }

    open spec fn releases(&self, delta: nat) -> nat {
        sum_releases(self.individual@, delta)
    }

    open spec fn demand(&self, delta: nat) -> nat {
        sum_demand(self.individual@, delta)
    }

    open spec fn least_cost(&self, delta: nat) -> nat {
        min_least_cost(self.individual@, delta)
    }

    open spec fn admits(&self, delta: nat) -> bool {
        all_admit(self.individual@, delta)
    }

    open spec fn job_costs(&self, delta: nat) -> Seq<Time> {
        all_job_costs(self.individual@, delta)
    }

    fn service_needed_by_n_jobs(&self, delta: Duration, max_jobs: usize) -> (s: Service) {
        let costs = self.job_cost_iter(delta);
        proof {
            lemma_largest_sum_of_same_costs(
                service_values(costs@),
                self.job_costs(delta@),
                max_jobs as nat,
            );
        }
        sum_of_largest(&costs, max_jobs)
    }

    fn job_cost_iter(&self, delta: Duration) -> (costs: Vec<Service>) {
        joint_job_costs(self.individual.as_slice(), delta)
    }

    fn service_needed(&self, delta: Duration) -> (s: Service) {
        total_service_needed(self.individual.as_slice(), delta)
    }

    fn least_wcet_in_interval(&self, delta: Duration) -> (s: Service) {
        least_wcet_of(self.individual.as_slice(), delta)
    }

    fn steps_iter(&self, horizon: Duration) -> (steps: Vec<Duration>) {
        let steps = joint_steps(self.individual.as_slice(), horizon);
        proof {
            assert((|delta: nat| self.releases(delta)) == (|delta: nat|
                sum_releases(self.individual@, delta)));
        }
        steps
    }

    proof fn law_demand(&self, shorter: nat, longer: nat) {
        lemma_sum_demand(self.individual@, shorter, longer);
    }
}

impl<T: RequestBound> AggregateRequestBound for Aggregate<T> {
    open spec fn demand_per_component(&self, delta: nat, max_jobs: nat) -> nat {
        sum_largest(self.individual@, delta, max_jobs)
    }

    open spec fn admits_per_component(&self, delta: nat, max_jobs: nat) -> bool {
        all_admit(self.individual@, delta) && sum_largest(self.individual@, delta, max_jobs) <= u64::MAX
    }

    fn service_needed_by_n_jobs_per_component(&self, delta: Duration, max_jobs: usize) -> (s:
        Service) {
        largest_per_component(self.individual.as_slice(), delta, max_jobs)
    }
}

} // verus!
