//! Response-time analysis for fully preemptive earliest-deadline-first
//! scheduling on a dedicated uniprocessor.

use vstd::prelude::*;
use super::busy_window::{analysable, analysed, busy_window_rta, Other};
use crate::demand::RequestBound;
use crate::fixed_point::SearchResult;
use crate::time::{Duration, Service};

verus! {

/// A task: its demand and its relative deadline.
pub struct Task<'a, R> {
    pub rbf: &'a R,
    pub deadline: Duration,
}

/// The task under analysis.
pub type TaskUnderAnalysis<'a, T> = Task<'a, T>;

/// A task that interferes with the task under analysis.
pub type InterferingTask<'a, T> = Task<'a, T>;

/// `others` are the `tasks` as the analysis sees them: nothing blocks
/// under fully preemptive scheduling.
pub open spec fn stands_for<'a, R>(others: &[Other<&'a R>], tasks: Seq<Task<'a, R>>) -> bool {
    &&& others@.len() == tasks.len()
    &&& forall|j: int|
        0 <= j < tasks.len() ==> (#[trigger] others@[j]) == (Other {
            rbf: tasks[j].rbf,
            deadline: tasks[j].deadline,
            blocking: Service { val: 0 },
        })
}

/// Bound the response time of a task under fully preemptive
/// earliest-deadline-first scheduling on a dedicated uniprocessor.
pub fn dedicated_uniproc_rta<'a, R1: RequestBound, R2: RequestBound>(
    tua: &TaskUnderAnalysis<R1>,
    other_tasks: &[TaskUnderAnalysis<'a, R2>],
    limit: Duration,
) -> (result: SearchResult)
    requires
        forall|others: &[Other<&'a R2>]| #[trigger]
            stands_for(others, other_tasks@) ==> analysable(
                tua.rbf,
                tua.deadline,
                others,
                Service { val: 0 },
                limit,
            ),
    ensures
        exists|others: &[Other<&'a R2>]| #[trigger]
            stands_for(others, other_tasks@) && analysed(
                tua.rbf,
                tua.deadline,
                others,
                Service { val: 0 },
                limit,
                result,
            ),
{
    let mut others: Vec<Other<&'a R2>> = Vec::new();
    let mut j: usize = 0;
    while j < other_tasks.len()
        invariant
            j <= other_tasks.len(),
            others@.len() == j,
            forall|k: int|
                0 <= k < j ==> (#[trigger] others@[k]) == (Other {
                    rbf: other_tasks@[k].rbf,
                    deadline: other_tasks@[k].deadline,
                    blocking: Service { val: 0 },
                }),
        decreases other_tasks.len() - j,
    {
        others.push(
            Other {
                rbf: other_tasks[j].rbf,
                deadline: other_tasks[j].deadline,
                blocking: Service::none(),
            },
        );
        j += 1;
    }
    let seen = others.as_slice();
    proof {
        assert(stands_for(seen, other_tasks@));
    }
    busy_window_rta(tua.rbf, tua.deadline, seen, Service::none(), limit)
}

} // verus!
