//! The multiframe task model: job costs that repeat in a fixed cycle.

use vstd::prelude::*;
use super::{total_cost, JobCostModel};
use crate::time::Service;

verus! {

/// A cost model in which the costs of consecutive jobs cycle through a
/// given, non-empty vector.
#[derive(Debug, Clone)]
pub struct Multiframe {
    pub costs: Vec<Service>,
}

/// The least of the first `m` entries of `costs`, for `1 <= m <= costs.len()`.
pub open spec fn least_entry(costs: Seq<Service>, m: nat) -> nat
    decreases m,
{
    if m <= 1 {
        costs[0]@
    } else {
        let before = least_entry(costs, (m - 1) as nat);
        if costs[m - 1]@ < before {
            costs[m - 1]@
        } else {
            before
        }
    }
}

impl Multiframe {
    /// Construct the cost model that cycles through `costs`.
    pub fn new(costs: Vec<Service>) -> (model: Multiframe)
        ensures
            model.costs == costs,
            costs@.len() > 0 ==> model.wf(),
    {
        Multiframe { costs }
    }
}

impl JobCostModel for Multiframe {
    open spec fn wf(&self) -> bool {
        self.costs@.len() > 0
    }

    open spec fn job_cost(&self, i: nat) -> nat {
        self.costs@[(i % self.costs@.len()) as int]@
    }

    open spec fn cost(&self, n: nat) -> nat {
        total_cost(|i: nat| self.job_cost(i), n)
    }

    open spec fn least(&self, n: nat) -> nat {
        if n == 0 {
            0
        } else if n < self.costs@.len() {
            least_entry(self.costs@, n)
        } else {
            least_entry(self.costs@, self.costs@.len())
        }
    }

    fn cost_of_jobs(&self, n: usize) -> (s: Service) {
        let mut total: u64 = 0;
        let mut i: usize = 0;
        while i < n
            invariant
                self.wf(),
                i <= n,
                total == total_cost(|i: nat| self.job_cost(i), i as nat),
                total_cost(|i: nat| self.job_cost(i), n as nat) <= u64::MAX,
            decreases n - i,
        {
            proof {
                self.law_cost((i + 1) as nat, n as nat);
            }
            total = total + self.costs[i % self.costs.len()].val;
            i += 1;
        }
        Service { val: total }
    }

    fn least_wcet(&self, n: usize) -> (s: Service) {
        if n == 0 {
            return Service::none();
        }
        let mut least: u64 = self.costs[0].val;
        let mut i: usize = 1;
        while i < self.costs.len() && i < n
            invariant
                1 <= i <= self.costs.len(),
                i <= n,
                least == least_entry(self.costs@, i as nat),
            decreases self.costs.len() - i,
        {
            if self.costs[i].val < least {
                least = self.costs[i].val;
            }
            i += 1;
        }
        Service { val: least }
    }

    fn job_cost_iter(&self, n: usize) -> (costs: Vec<Service>) {
        let mut costs: Vec<Service> = Vec::new();
        let mut i: usize = 0;
        while i < n
            invariant
                self.wf(),
                i <= n,
                costs@.len() == i,
                forall|j: int| 0 <= j < i ==> (#[trigger] costs@[j])@ == self.job_cost(j as nat),
            decreases n - i,
        {
            costs.push(self.costs[i % self.costs.len()]);
            i += 1;
        }
        costs
    }

    proof fn law_cost(&self, fewer: nat, more: nat)
        decreases more,
    {
        if fewer < more {
            self.law_cost(fewer, (more - 1) as nat);
        }
    }

    proof fn law_least_wcet(&self, n: nat) {
    }
}

} // verus!
