//! Response-time analysis for FIFO scheduling on a dedicated uniprocessor.

use vstd::prelude::*;
use crate::arrival::lists_steps;
use crate::demand::{step_offsets, RequestBound};
use crate::fixed_point::{
    law_search_fixed_point, lemma_below_search_result, lemma_search_within_limit,
    lemma_searchable_is_iterable, minus,
    monotone, search, search_from, searchable, SearchFailure, SearchResult, Workload,
};
use crate::supply::{Dedicated, SupplyBound};
use crate::time::{Duration, Offset, Service};

verus! {

/// The demand of all tasks: under FIFO scheduling it delays every job alike.
pub struct TotalDemand<'a, R> {
    pub tasks_rbf: &'a R,
}

impl<'a, R: RequestBound> Workload for TotalDemand<'a, R> {
    open spec fn wf(&self) -> bool {
        self.tasks_rbf.wf()
    }

    open spec fn bound(&self, delta: nat) -> nat {
        self.tasks_rbf.demand(delta)
    }

    open spec fn admits(&self, delta: nat) -> bool {
        self.tasks_rbf.admits(delta)
    }

    fn demand(&self, delta: Duration) -> (s: Service) {
        self.tasks_rbf.service_needed(delta)
    }
}

/// The greatest response time over the offsets that belong to `steps`: the
/// demand up to and including an offset, less the offset.
pub open spec fn greatest_response<R: RequestBound>(tasks_rbf: &R, steps: Seq<Duration>) -> nat
    decreases steps.len(),
{
    if steps.len() == 0 {
        0
    } else {
        let before = greatest_response(tasks_rbf, steps.drop_last());
        let here = minus(tasks_rbf.demand(steps.last()@), (steps.last()@ - 1) as nat);
        if here > before {
            here
        } else {
            before
        }
    }
}

/// Bound the response time of any task under FIFO scheduling on a
/// dedicated uniprocessor.
///
/// All tasks share one bound. First the busy window is bounded by the
/// demand of all tasks, `tasks_rbf`. Then, for each offset in the busy
/// window at which the demand steps, a job released there is done once
/// the demand up to and including the offset is served; the bound is the
/// largest distance from an offset to that time. If no busy window is
/// found up to `limit`, the analysis fails.
#[allow(non_snake_case)]
pub fn dedicated_uniproc_rta<R: RequestBound>(tasks_rbf: &R, limit: Duration) -> (result:
    SearchResult)
    requires
        tasks_rbf.wf(),
        tasks_rbf.admits(limit@),
    ensures
        match search_from(&Dedicated {  }, &TotalDemand { tasks_rbf }, 0, limit@, 1) {
            None => result == Err::<Duration, SearchFailure>(
                SearchFailure::DivergenceLimitExceeded { offset: Offset { val: 0 }, limit },
            ),
            Some(busy_window) => exists|steps: Seq<Duration>|
                lists_steps(steps, |delta: nat| tasks_rbf.releases(delta), busy_window)
                    && result == Ok::<Duration, SearchFailure>(
                    Duration { val: #[trigger] greatest_response(tasks_rbf, steps) as u64 },
                ),
        },
{
    let proc = Dedicated::new();
    let everybody = TotalDemand { tasks_rbf };
    proof {
        assert forall|r: nat| 1 <= r <= limit@ implies #[trigger] everybody.admits(r)
            && proc.admits_demand(everybody.bound(r)) && proc.time_for(everybody.bound(r))
            >= 0 by {
            tasks_rbf.law_demand(r, limit@);
        }
        assert forall|a: nat, b: nat| a <= b implies #[trigger] everybody.bound(a)
            <= #[trigger] everybody.bound(b) by {
            tasks_rbf.law_demand(a, b);
        }
    }
    proof {
        lemma_searchable_is_iterable(&proc, &everybody, 0, limit@, 1);
    }
    let L = match search(&proc, limit, &everybody) {
        Ok(L) => L,
        Err(failure) => {
            return Err(failure);
        },
    };
    proof {
        lemma_search_within_limit(
            &proc,
            &everybody,
            limit@,
            1,
        );
        tasks_rbf.law_demand(L@, limit@);
        law_search_fixed_point(&proc, &everybody, 0, limit@);
    }
    let steps = tasks_rbf.steps_iter(L);
    let offsets = step_offsets(&steps);
    let mut greatest = Duration::zero();
    let mut i: usize = 0;
    while i < offsets.len()
        invariant
            tasks_rbf.wf(),
            tasks_rbf.admits(limit@),
            everybody == (TotalDemand { tasks_rbf }),
            monotone(&everybody),
            searchable(&proc, &everybody, 0, limit@),
            search_from(&proc, &everybody, 0, limit@, 1) == Some(L@),
            L@ == 0 || tasks_rbf.demand(L@) == L@,
            lists_steps(steps@, |delta: nat| tasks_rbf.releases(delta), L@),
            L@ <= limit@,
            offsets@.len() == steps@.len(),
            forall|j: int| 0 <= j < steps@.len() ==> (#[trigger] offsets@[j])@ == steps@[j]@ - 1,
            i <= offsets.len(),
            greatest@ == greatest_response(tasks_rbf, steps@.take(i as int)),
        decreases offsets.len() - i,
    {
        let A = offsets[i];
        proof {
            let step = steps@[i as int]@;
            assert(step <= L@);
            tasks_rbf.law_demand(step, limit@);
            if step < L@ {
                lemma_below_search_result(&proc, &everybody, 0, limit@, step);
            }
            assert(steps@.take(i + 1).drop_last() == steps@.take(i as int));
        }
        let total_service = tasks_rbf.service_needed(A.closed_since_time_zero());
        let response = Duration { val: total_service.val - A.since_time_zero().val };
        if response.val > greatest.val {
            greatest = response;
        }
        i += 1;
    }
    proof {
        assert(steps@.take(i as int) == steps@);
    }
    Ok(greatest)
}

} // verus!
