//! Arrivals that are triggered by the completions of another component.

use vstd::prelude::*;
use super::{steps_by_bisection, ArrivalBound, ArrivalModel};
use crate::time::Duration;

verus! {

/// The arrivals induced by a precedence relation.
///
/// If each activation of a component triggers up to one activation of
/// another, `input_event_model` bounds the activations of the first, and
/// `response_time_jitter` bounds its response time, then this model bounds
/// the activations of the second.
#[derive(Clone, Debug)]
pub struct Propagated<T: ArrivalBound> {
    pub response_time_jitter: Duration,
    pub input_event_model: T,
}

impl<T: ArrivalBound> Propagated<T> {
    /// Propagate the arrivals of `event_model` with the given jitter.
    pub fn with_jitter(event_model: &T, response_time_jitter: Duration) -> (ab: Self)
        requires
            event_model.wf(),
        ensures
            ab.wf(),
            ab.response_time_jitter == response_time_jitter,
            forall|delta: nat|
                #[trigger] ab.input_event_model.arrivals(delta) == event_model.arrivals(delta),
            forall|delta: nat|
                #[trigger] ab.input_event_model.admits(delta) == event_model.admits(delta),
    {
        Propagated { input_event_model: event_model.duplicate(), response_time_jitter }
    }
}

impl<T: ArrivalBound> ArrivalBound for Propagated<T> {
    open spec fn wf(&self) -> bool {
        self.input_event_model.wf()
    }

    open spec fn arrivals(&self, delta: nat) -> nat {
        if delta > 0 {
            self.input_event_model.arrivals(delta + self.response_time_jitter@)
        } else {
            0
        }
    }

    open spec fn admits(&self, delta: nat) -> bool {
        delta > 0 ==> delta + self.response_time_jitter@ <= u64::MAX
            && self.input_event_model.admits(delta + self.response_time_jitter@)
    }

    fn number_arrivals(&self, delta: Duration) -> (n: usize) {
        if delta.is_non_zero() {
            self.input_event_model.number_arrivals(
                Duration { val: delta.val + self.response_time_jitter.val },
            )
        } else {
            0
        }
    }

    fn duplicate(&self) -> (copy: Self) {
        Propagated {
            response_time_jitter: self.response_time_jitter,
            input_event_model: self.input_event_model.duplicate(),
        }
    }

    proof fn law_arrivals(&self, shorter: nat, longer: nat) {
        let jitter = self.response_time_jitter@;
        self.input_event_model.law_arrivals(shorter + jitter, longer + jitter);
    }
}

impl<T: ArrivalBound> ArrivalModel for Propagated<T> {
    type Jittered = Propagated<T>;

    fn steps_iter(&self, horizon: Duration) -> (steps: Vec<Duration>) {
        steps_by_bisection(self, horizon)
    }

    open spec fn admits_jitter(&self, jitter: nat) -> bool {
        self.response_time_jitter@ + jitter <= u64::MAX
    }

    fn clone_with_jitter(&self, added_jitter: Duration) -> (ab: Propagated<T>) {
        Propagated {
            response_time_jitter: Duration {
                val: self.response_time_jitter.val + added_jitter.val,
            },
            input_event_model: self.input_event_model.duplicate(),
        }
    }
}

} // verus!
