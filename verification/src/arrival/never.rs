//! The arrival process of a task that never releases a job.

use vstd::prelude::*;
use super::{ArrivalBound, ArrivalModel};
use crate::time::Duration;

verus! {

/// A pathological corner case: no job ever arrives.
#[derive(Copy, Clone, Debug)]
pub struct Never {}

impl ArrivalBound for Never {
    open spec fn wf(&self) -> bool {
        true
    }

    open spec fn arrivals(&self, delta: nat) -> nat {
        0
    }

    open spec fn admits(&self, delta: nat) -> bool {
        true
    }

    fn number_arrivals(&self, _delta: Duration) -> (n: usize) {
        0
    }

    fn duplicate(&self) -> (copy: Self) {
        Never {  }
    }

    proof fn law_arrivals(&self, shorter: nat, longer: nat) {
    }
}

impl ArrivalModel for Never {
    type Jittered = Never;

    fn steps_iter(&self, _horizon: Duration) -> (steps: Vec<Duration>) {
        Vec::new()
    }

    open spec fn admits_jitter(&self, jitter: nat) -> bool {
        true
    }

    fn clone_with_jitter(&self, _jitter: Duration) -> (ab: Never) {
        Never {  }
    }
}

} // verus!
