//! Response-time analysis for fully non-preemptive earliest-deadline-first
//! scheduling on a dedicated uniprocessor.

use vstd::prelude::*;
use super::busy_window::{analysable, analysed, busy_window_rta, Other};
use crate::arrival::ArrivalModel;
use crate::demand::RBF;
use crate::fixed_point::{minus, SearchResult};
use crate::time::{Duration, Service};
use crate::wcet::Scalar;

verus! {

/// A task: the cost of its jobs, its arrivals and its relative deadline.
pub struct Task<'a, AB> {
    pub wcet: Scalar,
    pub arrivals: &'a AB,
    pub deadline: Duration,
}

/// The task under analysis.
pub type TaskUnderAnalysis<'a, T> = Task<'a, T>;

/// A task that interferes with the task under analysis.
pub type InterferingTask<'a, T> = Task<'a, T>;

impl<'a, AB: ArrivalModel> Task<'a, AB> {
    /// The demand of the task.
    pub fn rbf(&self) -> (rbf: RBF<&'a AB, Scalar>)
        ensures
            rbf == (RBF { wcet: self.wcet, arrival_bound: self.arrivals }),
    {
        RBF::new(self.arrivals, self.wcet)
    }
}

/// `others` are the `tasks` as the analysis sees them: a job that has
/// started runs to its end, so it blocks for its cost less the smallest unit.
pub open spec fn stands_for<'a, AB: ArrivalModel>(
    others: &[Other<RBF<&'a AB, Scalar>>],
    tasks: Seq<Task<'a, AB>>,
) -> bool {
    &&& others@.len() == tasks.len()
    &&& forall|j: int|
        0 <= j < tasks.len() ==> (#[trigger] others@[j]) == (Other {
            rbf: RBF { wcet: tasks[j].wcet, arrival_bound: tasks[j].arrivals },
            deadline: tasks[j].deadline,
            blocking: Service { val: minus(tasks[j].wcet.wcet@, 1) as u64 },
        })
}

/// Bound the response time of a task under fully non-preemptive
/// earliest-deadline-first scheduling on a dedicated uniprocessor.
///
/// A job can be preempted only before it starts: once it has received the
/// smallest unit of service, the rest of its cost follows without delay.
pub fn dedicated_uniproc_rta<'a, AB1: ArrivalModel, AB2: ArrivalModel>(
    tua: &TaskUnderAnalysis<AB1>,
    other_tasks: &[InterferingTask<'a, AB2>],
    limit: Duration,
) -> (result: SearchResult)
    requires
        tua.wcet.wcet@ >= 1,
        forall|others: &[Other<RBF<&'a AB2, Scalar>>]| #[trigger]
            stands_for(others, other_tasks@) ==> analysable(
                &RBF { wcet: tua.wcet, arrival_bound: tua.arrivals },
                tua.deadline,
                others,
                Service { val: (tua.wcet.wcet@ - 1) as u64 },
                limit,
            ),
    ensures
        exists|others: &[Other<RBF<&'a AB2, Scalar>>]| #[trigger]
            stands_for(others, other_tasks@) && analysed(
                &RBF { wcet: tua.wcet, arrival_bound: tua.arrivals },
                tua.deadline,
                others,
                Service { val: (tua.wcet.wcet@ - 1) as u64 },
                limit,
                result,
            ),
{
    let task_under_analysis = tua.rbf();
    let mut others: Vec<Other<RBF<&'a AB2, Scalar>>> = Vec::new();
    let mut j: usize = 0;
    while j < other_tasks.len()
        invariant
            j <= other_tasks.len(),
            others@.len() == j,
            forall|k: int|
                0 <= k < j ==> (#[trigger] others@[k]) == (Other {
                    rbf: RBF { wcet: other_tasks@[k].wcet, arrival_bound: other_tasks@[k].arrivals },
                    deadline: other_tasks@[k].deadline,
                    blocking: Service { val: minus(other_tasks@[k].wcet.wcet@, 1) as u64 },
                }),
        decreases other_tasks.len() - j,
    {
        let ot = &other_tasks[j];
        others.push(
            Other {
                rbf: ot.rbf(),
                deadline: ot.deadline,
                blocking: ot.wcet.wcet.saturating_sub(Service::epsilon()),
            },
        );
        j += 1;
    }
    let seen = others.as_slice();
    proof {
        assert(stands_for(seen, other_tasks@));
    }
    let rtct = Service::epsilon();
    let rem_cost = Service { val: tua.wcet.wcet.val - rtct.val };
    busy_window_rta(&task_under_analysis, tua.deadline, seen, rem_cost, limit)
}

} // verus!
