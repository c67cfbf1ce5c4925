//! Request-bound functions: the total demand for processor service of one
//! or more tasks in any interval of a given length.

use vstd::prelude::*;
use crate::arrival::lists_steps;
use crate::time::{Duration, Offset, Service, Time};
use largest::{largest_sum, service_values};

pub mod aggregate;
pub mod largest;
pub mod rbf;
pub mod slice;

pub use aggregate::Aggregate;
pub use rbf::{WorstCaseRBF, RBF};
pub use slice::Slice;

verus! {

/// The interface of request-bound functions.
pub trait RequestBound {
    /// The demand is built from proper parts.
    spec fn wf(&self) -> bool;

    /// The greatest number of jobs released in any interval of length `delta`.
    spec fn releases(&self, delta: nat) -> nat;

    /// The greatest service demanded in any interval of length `delta`.
    spec fn demand(&self, delta: nat) -> nat;

    /// The least cost of a job among those released in an interval of
    /// length `delta`, zero if there is none.
    spec fn least_cost(&self, delta: nat) -> nat;

    /// The demand at `delta` can be computed within the machine's limits.
    spec fn admits(&self, delta: nat) -> bool;

    /// The costs of the jobs released in an interval of length `delta`, in
    /// some order.
    spec fn job_costs(&self, delta: nat) -> Seq<Time>;

    /// Bound the total service needed in an interval of length `delta`.
    fn service_needed(&self, delta: Duration) -> (s: Service)
        requires
            self.wf(),
            self.admits(delta@),
        ensures
            s@ == self.demand(delta@),
    ;

    /// The least cost of any job released in an interval of length `delta`.
    fn least_wcet_in_interval(&self, delta: Duration) -> (s: Service)
        requires
            self.wf(),
            self.admits(delta@),
        ensures
            s@ == self.least_cost(delta@),
    ;

    /// Bound the service needed by the `max_jobs` costliest of the jobs
    /// released in an interval of length `delta`.
    fn service_needed_by_n_jobs(&self, delta: Duration, max_jobs: usize) -> (s: Service)
        requires
            self.wf(),
            self.admits(delta@),
            largest_sum(self.job_costs(delta@), max_jobs as nat) <= u64::MAX,
        ensures
            s@ == largest_sum(self.job_costs(delta@), max_jobs as nat),
    ;

    /// The costs of the jobs released in an interval of length `delta`, in
    /// no particular order.
    fn job_cost_iter(&self, delta: Duration) -> (costs: Vec<Service>)
        requires
            self.wf(),
            self.admits(delta@),
        ensures
            service_values(costs@).to_multiset() == self.job_costs(delta@).to_multiset(),
    ;

    /// The interval lengths up to `horizon` at which the number of released
    /// jobs grows, in increasing order.
    fn steps_iter(&self, horizon: Duration) -> (steps: Vec<Duration>)
        requires
            self.wf(),
            self.admits(horizon@),
        ensures
            lists_steps(steps@, |delta: nat| self.releases(delta), horizon@),
    ;

    /// No service is demanded in an empty interval, and a longer interval
    /// never demands less.
    proof fn law_demand(&self, shorter: nat, longer: nat)
        requires
            self.wf(),
            shorter <= longer,
        ensures
            self.demand(0) == 0,
            self.releases(0) == 0,
            self.demand(shorter) <= self.demand(longer),
            self.releases(shorter) <= self.releases(longer),
            self.admits(longer) ==> self.admits(shorter),
    ;
}

/// Demand bounds over a collection of demand sources.
pub trait AggregateRequestBound: RequestBound {
    /// The service that the `max_jobs` costliest jobs of each source need
    /// in an interval of length `delta`, summed over the sources.
    spec fn demand_per_component(&self, delta: nat, max_jobs: nat) -> nat;

    /// That sum can be computed within the machine's limits.
    spec fn admits_per_component(&self, delta: nat, max_jobs: nat) -> bool;

    /// Bound the service needed by up to `max_jobs` jobs of each source.
    fn service_needed_by_n_jobs_per_component(&self, delta: Duration, max_jobs: usize) -> (s:
        Service)
        requires
            self.wf(),
            self.admits_per_component(delta@, max_jobs as nat),
        ensures
            s@ == self.demand_per_component(delta@, max_jobs as nat),
    ;
}

/// The offsets that belong to a list of steps: each step is the length of
/// the closed interval that ends at its offset.
pub fn step_offsets(steps: &Vec<Duration>) -> (offsets: Vec<Offset>)
    requires
        forall|i: int| 0 <= i < steps@.len() ==> (#[trigger] steps@[i])@ >= 1,
    ensures
        offsets@.len() == steps@.len(),
        forall|i: int| 0 <= i < steps@.len() ==> (#[trigger] offsets@[i])@ == steps@[i]@ - 1,
{
    let mut offsets: Vec<Offset> = Vec::new();
    let mut i: usize = 0;
    while i < steps.len()
        invariant
            forall|i: int| 0 <= i < steps@.len() ==> (#[trigger] steps@[i])@ >= 1,
            i <= steps.len(),
            offsets@.len() == i,
            forall|j: int| 0 <= j < i ==> (#[trigger] offsets@[j])@ == steps@[j]@ - 1,
        decreases steps.len() - i,
    {
        offsets.push(Offset::closed_from_time_zero(steps[i]));
        i += 1;
    }
    offsets
}

impl<'a, T: RequestBound> RequestBound for &'a T {
    open spec fn wf(&self) -> bool {
        (**self).wf()
    }

    open spec fn releases(&self, delta: nat) -> nat {
        (**self).releases(delta)
    }

    open spec fn demand(&self, delta: nat) -> nat {
        (**self).demand(delta)
    }

    open spec fn least_cost(&self, delta: nat) -> nat {
        (**self).least_cost(delta)
    }

    open spec fn admits(&self, delta: nat) -> bool {
        (**self).admits(delta)
    }

    open spec fn job_costs(&self, delta: nat) -> Seq<Time> {
        (**self).job_costs(delta)
    }

    fn service_needed_by_n_jobs(&self, delta: Duration, max_jobs: usize) -> (s: Service) {
        (**self).service_needed_by_n_jobs(delta, max_jobs)
    }

    fn job_cost_iter(&self, delta: Duration) -> (costs: Vec<Service>) {
        (**self).job_cost_iter(delta)
    }

    fn service_needed(&self, delta: Duration) -> (s: Service) {
        (**self).service_needed(delta)
    }

    fn least_wcet_in_interval(&self, delta: Duration) -> (s: Service) {
        (**self).least_wcet_in_interval(delta)
    }

    fn steps_iter(&self, horizon: Duration) -> (steps: Vec<Duration>) {
        let steps = (**self).steps_iter(horizon);
        proof {
            assert((|delta: nat| self.releases(delta)) == (|delta: nat| (**self).releases(delta)));
        }
        steps
    }

    proof fn law_demand(&self, shorter: nat, longer: nat) {
        (**self).law_demand(shorter, longer);
    }
}

impl<T: RequestBound> RequestBound for Box<T> {
    open spec fn wf(&self) -> bool {
        (**self).wf()
    }

    open spec fn releases(&self, delta: nat) -> nat {
        (**self).releases(delta)
    }

    open spec fn demand(&self, delta: nat) -> nat {
        (**self).demand(delta)
    }

    open spec fn least_cost(&self, delta: nat) -> nat {
        (**self).least_cost(delta)
    }

    open spec fn admits(&self, delta: nat) -> bool {
        (**self).admits(delta)
    }

    open spec fn job_costs(&self, delta: nat) -> Seq<Time> {
        (**self).job_costs(delta)
    }

    fn service_needed_by_n_jobs(&self, delta: Duration, max_jobs: usize) -> (s: Service) {
        (**self).service_needed_by_n_jobs(delta, max_jobs)
    }

    fn job_cost_iter(&self, delta: Duration) -> (costs: Vec<Service>) {
        (**self).job_cost_iter(delta)
    }

    fn service_needed(&self, delta: Duration) -> (s: Service) {
        (**self).service_needed(delta)
    }

    fn least_wcet_in_interval(&self, delta: Duration) -> (s: Service) {
        (**self).least_wcet_in_interval(delta)
    }

    fn steps_iter(&self, horizon: Duration) -> (steps: Vec<Duration>) {
        let steps = (**self).steps_iter(horizon);
        proof {
            assert((|delta: nat| self.releases(delta)) == (|delta: nat| (**self).releases(delta)));
        }
        steps
    }

    proof fn law_demand(&self, shorter: nat, longer: nat) {
        (**self).law_demand(shorter, longer);
    }
}

} // verus!
