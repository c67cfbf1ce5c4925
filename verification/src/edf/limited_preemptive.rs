//! Response-time analysis for earliest-deadline-first scheduling with
//! limited-preemptive jobs on a dedicated uniprocessor.

use vstd::prelude::*;
use super::busy_window::{analysable, analysed, busy_window_rta, Other};
use crate::arrival::ArrivalModel;
use crate::demand::{RequestBound, RBF};
use crate::fixed_point::{minus, SearchResult};
use crate::time::{Duration, Service};
use crate::wcet::Scalar;

verus! {

/// The task under analysis.
pub struct TaskUnderAnalysis<'a, AB> {
    /// The cost of a job of the task.
    pub wcet: Scalar,
    /// The arrivals of the task.
    pub arrivals: &'a AB,
    /// The relative deadline of the task.
    pub deadline: Duration,
    /// The length of the last segment of a job, which runs without preemption.
    pub last_np_segment: Service,
}

/// A task that interferes with the task under analysis.
pub struct InterferingTask<'a, R> {
    /// The demand of the task.
    pub rbf: &'a R,
    /// The relative deadline of the task.
    pub deadline: Duration,
    /// The length of the longest segment of a job that runs without preemption.
    pub max_np_segment: Service,
}

/// How long a job of `task` can block: its longest non-preemptive
/// segment less the smallest unit, if the task releases any job with a cost.
pub open spec fn blocking_of<R: RequestBound>(task: InterferingTask<R>) -> nat {
    if task.rbf.demand(1) > 0 {
        minus(task.max_np_segment@, 1)
    } else {
        0
    }
}

/// `others` are the `tasks` as the analysis sees them.
pub open spec fn stands_for<'a, R: RequestBound>(
    others: &[Other<&'a R>],
    tasks: Seq<InterferingTask<'a, R>>,
) -> bool {
    &&& others@.len() == tasks.len()
    &&& forall|j: int|
        0 <= j < tasks.len() ==> (#[trigger] others@[j]) == (Other {
            rbf: tasks[j].rbf,
            deadline: tasks[j].deadline,
            blocking: Service { val: blocking_of(tasks[j]) as u64 },
        })
}

/// Bound the response time of a task under earliest-deadline-first
/// scheduling with limited-preemptive jobs on a dedicated uniprocessor.
///
/// A job can be preempted until it reaches its last segment; the response
/// time is the time until then, plus what remains of the job.
pub fn dedicated_uniproc_rta<'a, R: RequestBound, AB: ArrivalModel>(
    tua: &TaskUnderAnalysis<AB>,
    other_tasks: &[InterferingTask<'a, R>],
    limit: Duration,
) -> (result: SearchResult)
    requires
        1 <= tua.last_np_segment@ <= tua.wcet.wcet@ + 1,
        forall|j: int|
            0 <= j < other_tasks@.len() ==> (#[trigger] other_tasks@[j]).rbf.wf()
                && other_tasks@[j].rbf.admits(1),
        forall|others: &[Other<&'a R>]| #[trigger]
            stands_for(others, other_tasks@) ==> analysable(
                &RBF { wcet: tua.wcet, arrival_bound: tua.arrivals },
                tua.deadline,
                others,
                Service { val: (tua.last_np_segment@ - 1) as u64 },
                limit,
            ),
    ensures
        exists|others: &[Other<&'a R>]| #[trigger]
            stands_for(others, other_tasks@) && analysed(
                &RBF { wcet: tua.wcet, arrival_bound: tua.arrivals },
                tua.deadline,
                others,
                Service { val: (tua.last_np_segment@ - 1) as u64 },
                limit,
                result,
            ),
{
    let tua_rbf = RBF::new(tua.arrivals, tua.wcet);
    let mut others: Vec<Other<&'a R>> = Vec::new();
    let mut j: usize = 0;
    while j < other_tasks.len()
        invariant
            forall|j: int|
                0 <= j < other_tasks@.len() ==> (#[trigger] other_tasks@[j]).rbf.wf()
                    && other_tasks@[j].rbf.admits(1),
            j <= other_tasks.len(),
            others@.len() == j,
            forall|k: int|
                0 <= k < j ==> (#[trigger] others@[k]) == (Other {
                    rbf: other_tasks@[k].rbf,
                    deadline: other_tasks@[k].deadline,
                    blocking: Service { val: blocking_of(other_tasks@[k]) as u64 },
                }),
        decreases other_tasks.len() - j,
    {
        let ot = &other_tasks[j];
        let blocking = if ot.rbf.service_needed(Duration::epsilon()).val > 0 {
            ot.max_np_segment.saturating_sub(Service::epsilon())
        } else {
            Service::none()
        };
        others.push(Other { rbf: ot.rbf, deadline: ot.deadline, blocking });
        j += 1;
    }
    let seen = others.as_slice();
    proof {
        assert(stands_for(seen, other_tasks@));
    }
    let rtct = Service {
        val: tua.wcet.wcet.val - (tua.last_np_segment.val - Service::epsilon().val),
    };
    let rem_cost = Service { val: tua.wcet.wcet.val - rtct.val };
    busy_window_rta(&tua_rbf, tua.deadline, seen, rem_cost, limit)
}

} // verus!
