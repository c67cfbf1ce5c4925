//! Response-time analysis for fixed-priority scheduling with
//! limited-preemptive jobs on a dedicated uniprocessor.

use vstd::prelude::*;
use super::busy_window::{analysable, analysed, busy_window_rta};
use crate::arrival::ArrivalModel;
use crate::demand::{RequestBound, RBF};
use crate::fixed_point::SearchResult;
use crate::time::{Duration, Service};
use crate::wcet::Scalar;

verus! {

/// The task under analysis and what blocks it.
pub struct TaskUnderAnalysis<'a, AB> {
    /// The cost of a job of the task.
    pub wcet: Scalar,
    /// The arrivals of the task.
    pub arrivals: &'a AB,
    /// The length of the last segment of a job, which runs without preemption.
    pub last_np_segment: Service,
    /// A bound on the blocking by lower-priority tasks: the longest
    /// non-preemptive segment of any of them.
    pub blocking_bound: Service,
}

/// The cost of a job that remains once it has reached its last segment
/// and can no longer be preempted: the segment less the smallest unit.
pub open spec fn remaining_cost(last_np_segment: Service) -> Service {
    Service { val: (last_np_segment@ - 1) as u64 }
}

/// Bound the response time of a task under fixed-priority scheduling with
/// limited-preemptive jobs on a dedicated uniprocessor.
///
/// A job can be preempted until it reaches its last segment; the response
/// time is the time until then, plus what remains of the job.
pub fn dedicated_uniproc_rta<AB: ArrivalModel, I: RequestBound>(
    tua: &TaskUnderAnalysis<AB>,
    interfering_tasks: &[I],
    limit: Duration,
) -> (result: SearchResult)
    requires
        1 <= tua.last_np_segment@ <= tua.wcet.wcet@ + 1,
        analysable(
            &RBF { wcet: tua.wcet, arrival_bound: tua.arrivals },
            interfering_tasks,
            tua.blocking_bound,
            remaining_cost(tua.last_np_segment),
            limit,
        ),
    ensures
        analysed(
            &RBF { wcet: tua.wcet, arrival_bound: tua.arrivals },
            interfering_tasks,
            tua.blocking_bound,
            remaining_cost(tua.last_np_segment),
            limit,
            result,
        ),
{
    let tua_rbf = RBF::new(tua.arrivals, tua.wcet);
    let rtct = Service {
        val: tua.wcet.wcet.val - (tua.last_np_segment.val - Service::epsilon().val),
    };
    let rem_cost = Service { val: tua.wcet.wcet.val - rtct.val };
    busy_window_rta(&tua_rbf, interfering_tasks, tua.blocking_bound, rem_cost, limit)
}

} // verus!
