//! The classic scalar worst-case execution time.

use vstd::prelude::*;
use vstd::std_specs::convert::FromSpecImpl;
use super::JobCostModel;
use crate::time::Service;

verus! {

/// One bound on the cost of every job.
#[derive(Debug, Clone, Copy)]
pub struct Scalar {
    pub wcet: Service,
}

impl Scalar {
    /// Construct the cost model with the given bound.
    pub fn new(wcet: Service) -> (model: Scalar)
        ensures
            model.wcet == wcet,
            model.wf(),
    {
        Scalar { wcet }
    }
}

impl From<Service> for Scalar {
    fn from(val: Service) -> (model: Scalar) {
        Scalar { wcet: val }
    }
}

impl FromSpecImpl<Service> for Scalar {
    open spec fn obeys_from_spec() -> bool {
        true
    }

    open spec fn from_spec(val: Service) -> Scalar {
        Scalar { wcet: val }
    }
}

impl JobCostModel for Scalar {
    open spec fn wf(&self) -> bool {
        true
    }

    open spec fn job_cost(&self, i: nat) -> nat {
        self.wcet@
    }

    open spec fn cost(&self, n: nat) -> nat {
        n * self.wcet@
    }

    open spec fn least(&self, n: nat) -> nat {
        if n > 0 {
            self.wcet@
        } else {
            0
        }
    }

    fn cost_of_jobs(&self, n: usize) -> (s: Service) {
        proof {
            assert(n * self.wcet@ == self.wcet@ * n) by (nonlinear_arith);
        }
        Service { val: self.wcet.val * (n as u64) }
    }

    fn least_wcet(&self, n: usize) -> (s: Service) {
        if n > 0 {
            self.wcet
        } else {
            Service::none()
        }
    }

    fn job_cost_iter(&self, n: usize) -> (costs: Vec<Service>) {
        let mut costs: Vec<Service> = Vec::new();
        let mut i: usize = 0;
        while i < n
            invariant
                i <= n,
                costs@.len() == i,
                forall|j: int| 0 <= j < i ==> (#[trigger] costs@[j])@ == self.wcet@,
            decreases n - i,
        {
            costs.push(self.wcet);
            i += 1;
        }
        costs
    }

    proof fn law_cost(&self, fewer: nat, more: nat)
        decreases more,
    {
        let c = self.wcet@;
        assert(fewer * c <= more * c) by (nonlinear_arith)
            requires
                fewer <= more,
        ;
        if more > 0 {
            self.law_cost(0, (more - 1) as nat);
            assert(more * c == (more - 1) * c + c) by (nonlinear_arith);
        }
    }

    proof fn law_least_wcet(&self, n: nat) {
    }
}

} // verus!
