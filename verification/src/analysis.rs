//! Fixed-point searches that report a search without a result as `None`.

use vstd::prelude::*;
use crate::fixed_point::{iterable, search, search_from, search_with_offset, Workload};
use crate::supply::SupplyBound;
use crate::time::{Duration, Offset};

verus! {

/// What a search found, as a plain value.
pub open spec fn found(result: Option<Duration>) -> Option<nat> {
    match result {
        Some(bound) => Some(bound@),
        None => None,
    }
}

/// Iterative fixed-point search up to `divergence_limit`, for a fixed
/// `offset` within the busy window; `None` if the limit is exceeded.
pub fn fixed_point_search_with_offset<S: SupplyBound, W: Workload>(
    supply: &S,
    offset: Offset,
    divergence_limit: Duration,
    workload: &W,
) -> (result: Option<Duration>)
    requires
        supply.wf(),
        workload.wf(),
        iterable(supply, workload, offset@, divergence_limit@, 1),
    ensures
        found(result) == search_from(supply, workload, offset@, divergence_limit@, 1),
{
    match search_with_offset(supply, offset, divergence_limit, workload) {
        Ok(bound) => Some(bound),
        Err(_) => None,
    }
}

/// Iterative fixed-point search up to `divergence_limit` from the start of
/// the busy window; `None` if the limit is exceeded.
pub fn fixed_point_search<S: SupplyBound, W: Workload>(
    supply: &S,
    divergence_limit: Duration,
    workload_bound: &W,
) -> (result: Option<Duration>)
    requires
        supply.wf(),
        workload_bound.wf(),
        iterable(supply, workload_bound, 0, divergence_limit@, 1),
    ensures
        found(result) == search_from(supply, workload_bound, 0, divergence_limit@, 1),
{
    match search(supply, divergence_limit, workload_bound) {
        Ok(bound) => Some(bound),
        Err(_) => None,
    }
}

} // verus!
