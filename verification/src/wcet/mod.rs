//! Models of the processor service that jobs need, such as a scalar
//! worst-case execution time.

use vstd::prelude::*;
use crate::time::Service;

pub mod curve;
pub mod multiframe;
pub mod scalar;

pub use curve::{Curve, ExtrapolatingCurve};
pub use multiframe::Multiframe;
pub use scalar::Scalar;

verus! {

/// The sum of the first `n` values of `costs`.
pub open spec fn total_cost(costs: spec_fn(nat) -> nat, n: nat) -> nat
    decreases n,
{
    if n == 0 {
        0
    } else {
        total_cost(costs, (n - 1) as nat) + costs((n - 1) as nat)
    }
}

/// The interface of models that bound the cumulative cost of consecutive jobs.
pub trait JobCostModel {
    /// The parameters describe a proper cost model.
    spec fn wf(&self) -> bool;

    /// The cost of the job at position `i` of the sequence of marginal costs.
    spec fn job_cost(&self, i: nat) -> nat;

    /// The greatest cumulative cost of any `n` consecutive jobs.
    spec fn cost(&self, n: nat) -> nat;

    /// The least marginal cost among the first `n` jobs, zero for no job.
    spec fn least(&self, n: nat) -> nat;

    /// Bound the cumulative cost of any `n` consecutive jobs.
    fn cost_of_jobs(&self, n: usize) -> (s: Service)
        requires
            self.wf(),
            self.cost(n as nat) <= u64::MAX,
        ensures
            s@ == self.cost(n as nat),
    ;

    /// The least cost among the first `n` jobs.
    fn least_wcet(&self, n: usize) -> (s: Service)
        requires
            self.wf(),
        ensures
            s@ == self.least(n as nat),
    ;

    /// The marginal costs of the first `n` jobs, in order.
    fn job_cost_iter(&self, n: usize) -> (costs: Vec<Service>)
        requires
            self.wf(),
            self.cost(n as nat) <= u64::MAX,
        ensures
            costs@.len() == n,
            forall|i: int| 0 <= i < n ==> (#[trigger] costs@[i])@ == self.job_cost(i as nat),
    ;

    /// No job costs nothing, more jobs never cost less, and the cumulative
    /// cost is the sum of the marginal costs.
    proof fn law_cost(&self, fewer: nat, more: nat)
        requires
            self.wf(),
            fewer <= more,
        ensures
            self.cost(0) == 0,
            self.cost(fewer) <= self.cost(more),
            self.cost(more) == total_cost(|i: nat| self.job_cost(i), more),
    ;

    /// Looking at more jobs never raises the least cost.
    proof fn law_least_wcet(&self, n: nat)
        requires
            self.wf(),
            n >= 1,
        ensures
            self.least(n + 1) <= self.least(n),
    ;
}

impl<'a, T: JobCostModel> JobCostModel for &'a T {
    open spec fn wf(&self) -> bool {
        (**self).wf()
    }

    open spec fn job_cost(&self, i: nat) -> nat {
        (**self).job_cost(i)
    }

    open spec fn cost(&self, n: nat) -> nat {
        (**self).cost(n)
    }

    open spec fn least(&self, n: nat) -> nat {
        (**self).least(n)
    }

    fn cost_of_jobs(&self, n: usize) -> (s: Service) {
        (**self).cost_of_jobs(n)
    }

    fn least_wcet(&self, n: usize) -> (s: Service) {
        (**self).least_wcet(n)
    }

    fn job_cost_iter(&self, n: usize) -> (costs: Vec<Service>) {
        (**self).job_cost_iter(n)
    }

    proof fn law_cost(&self, fewer: nat, more: nat) {
        (**self).law_cost(fewer, more);
        assert((|i: nat| self.job_cost(i)) == (|i: nat| (**self).job_cost(i)));
    }

    proof fn law_least_wcet(&self, n: nat) {
        (**self).law_least_wcet(n);
    }
}

impl<T: JobCostModel> JobCostModel for Box<T> {
    open spec fn wf(&self) -> bool {
        (**self).wf()
    }

    open spec fn job_cost(&self, i: nat) -> nat {
        (**self).job_cost(i)
    }

    open spec fn cost(&self, n: nat) -> nat {
        (**self).cost(n)
    }

    open spec fn least(&self, n: nat) -> nat {
        (**self).least(n)
    }

    fn cost_of_jobs(&self, n: usize) -> (s: Service) {
        (**self).cost_of_jobs(n)
    }

    fn least_wcet(&self, n: usize) -> (s: Service) {
        (**self).least_wcet(n)
    }

    fn job_cost_iter(&self, n: usize) -> (costs: Vec<Service>) {
        (**self).job_cost_iter(n)
    }

    proof fn law_cost(&self, fewer: nat, more: nat) {
        (**self).law_cost(fewer, more);
        assert((|i: nat| self.job_cost(i)) == (|i: nat| (**self).job_cost(i)));
    }

    proof fn law_least_wcet(&self, n: nat) {
        (**self).law_least_wcet(n);
    }
}

} // verus!
