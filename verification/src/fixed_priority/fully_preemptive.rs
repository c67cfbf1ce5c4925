//! Response-time analysis for fully preemptive fixed-priority scheduling on a
//! dedicated uniprocessor.

use vstd::prelude::*;
use super::busy_window::{analysable, analysed, busy_window_rta};
use crate::demand::RequestBound;
use crate::fixed_point::SearchResult;
use crate::time::{Duration, Service};

verus! {

/// Bound the response time of a task under fully preemptive fixed-priority
/// scheduling on a dedicated uniprocessor.
///
/// `interfering_tasks` are the tasks of higher or equal priority, `tua` is
/// the task under analysis. Nothing blocks the task, and a job can be
/// preempted until it is done.
pub fn dedicated_uniproc_rta<T: RequestBound, I: RequestBound>(
    tua: &T,
    interfering_tasks: &[I],
    limit: Duration,
) -> (result: SearchResult)
    requires
        analysable(tua, interfering_tasks, Service { val: 0 }, Service { val: 0 }, limit),
    ensures
        analysed(tua, interfering_tasks, Service { val: 0 }, Service { val: 0 }, limit, result),
{
    busy_window_rta(tua, interfering_tasks, Service::none(), Service::none(), limit)
}

} // verus!
