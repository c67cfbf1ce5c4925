//! Response-time analysis for fixed-priority scheduling with floating
//! non-preemptive sections on a dedicated uniprocessor.

use vstd::prelude::*;
use super::busy_window::{analysable, analysed, busy_window_rta};
use crate::demand::RequestBound;
use crate::fixed_point::SearchResult;
use crate::time::{Duration, Service};

verus! {

/// The task under analysis and what blocks it.
pub struct TaskUnderAnalysis<'a, R> {
    /// The demand of the task under analysis.
    pub rbf: &'a R,
    /// A bound on the blocking by lower-priority tasks: the longest
    /// non-preemptive section of any of them.
    pub blocking_bound: Service,
}

/// Bound the response time of a task under fixed-priority scheduling with
/// floating non-preemptive sections on a dedicated uniprocessor.
///
/// Where a job can be preempted is not known beforehand, so a job counts as
/// preemptable until it is done: no cost remains after that.
pub fn dedicated_uniproc_rta<R: RequestBound, I: RequestBound>(
    tua: &TaskUnderAnalysis<R>,
    interfering_tasks: &[I],
    limit: Duration,
) -> (result: SearchResult)
    requires
        analysable(tua.rbf, interfering_tasks, tua.blocking_bound, Service { val: 0 }, limit),
    ensures
        analysed(
            tua.rbf,
            interfering_tasks,
            tua.blocking_bound,
            Service { val: 0 },
            limit,
            result,
        ),
{
    busy_window_rta(tua.rbf, interfering_tasks, tua.blocking_bound, Service::none(), limit)
}

} // verus!
