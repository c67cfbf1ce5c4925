//! Fixed-point searches: the iterative solution of response-time recurrences.

use vstd::prelude::*;
use crate::arrival::{is_step, lists_steps};
use crate::demand::{step_offsets, RequestBound};
use crate::supply::{law_service_time_monotone, SupplyBound};
use crate::time::{Duration, Offset, Service};

verus! {

/// The reason for which a fixed-point search fails.
#[derive(Debug, Copy, Clone, Eq, PartialEq, Structural)]
pub enum SearchFailure {
    /// No fixed point was found up to the given divergence limit.
    DivergenceLimitExceeded { offset: Offset, limit: Duration },
}

/// The outcome of a fixed-point search.
pub type SearchResult = Result<Duration, SearchFailure>;

/// The right-hand side of a recurrence: a bound on the service demanded
/// when the response time is assumed to be `delta`.
pub trait Workload {
    /// The workload is built from proper parts.
    spec fn wf(&self) -> bool;

    /// The demand at an assumed response time of `delta`.
    spec fn bound(&self, delta: nat) -> nat;

    /// The demand at `delta` can be computed within the machine's limits.
    spec fn admits(&self, delta: nat) -> bool;

    /// Compute the demand at an assumed response time of `delta`.
    fn demand(&self, delta: Duration) -> (s: Service)
        requires
            self.wf(),
            self.admits(delta@),
        ensures
            s@ == self.bound(delta@),
    ;
}

/// The difference `a - b`, with a floor of zero.
pub open spec fn minus(a: nat, b: nat) -> nat {
    if a >= b {
        (a - b) as nat
    } else {
        0
    }
}

/// The next iterate of the recurrence after the assumed response time `r`.
pub open spec fn next_iterate<S: SupplyBound, W: Workload>(
    supply: &S,
    workload: &W,
    offset: nat,
    r: nat,
) -> nat {
    minus(supply.time_for(workload.bound(r)), offset)
}

/// The outcome of the iteration that continues at the assumed response time
/// `r`: the first iterate that does not exceed its predecessor, or `None` once
/// an iterate exceeds `limit`.
pub open spec fn search_from<S: SupplyBound, W: Workload>(
    supply: &S,
    workload: &W,
    offset: nat,
    limit: nat,
    r: nat,
) -> Option<nat>
    decreases minus(limit + 1, r),
{
    if r > limit {
        None
    } else {
        let next = next_iterate(supply, workload, offset, r);
        if next <= r {
            Some(next)
        } else {
            search_from(supply, workload, offset, limit, next)
        }
    }
}

/// Every assumed response time up to `limit` can be evaluated: the demand is
/// computable, the supply can serve it, and it is not served before `offset`.
pub open spec fn searchable<S: SupplyBound, W: Workload>(
    supply: &S,
    workload: &W,
    offset: nat,
    limit: nat,
) -> bool {
    forall|r: nat|
        1 <= r <= limit ==> {
            &&& #[trigger] workload.admits(r)
            &&& supply.admits_demand(workload.bound(r))
            &&& supply.time_for(workload.bound(r)) >= offset
        }
}

/// The iteration that continues at the assumed response time `r` can be
/// carried out: at each iterate up to `limit` the demand is computable,
/// the supply can serve it, and it is not served before `offset`.
pub open spec fn iterable<S: SupplyBound, W: Workload>(
    supply: &S,
    workload: &W,
    offset: nat,
    limit: nat,
    r: nat,
) -> bool
    decreases minus(limit + 1, r),
{
    r > limit || {
        &&& workload.admits(r)
        &&& supply.admits_demand(workload.bound(r))
        &&& supply.time_for(workload.bound(r)) >= offset
        &&& next_iterate(supply, workload, offset, r) > r ==> iterable(
            supply,
            workload,
            offset,
            limit,
            next_iterate(supply, workload, offset, r),
        )
    }
}

/// What can be evaluated at every assumed response time can be iterated.
pub proof fn lemma_searchable_is_iterable<S: SupplyBound, W: Workload>(
    supply: &S,
    workload: &W,
    offset: nat,
    limit: nat,
    r: nat,
)
    requires
        searchable(supply, workload, offset, limit),
        r >= 1,
    ensures
        iterable(supply, workload, offset, limit, r),
    decreases minus(limit + 1, r),
{
    if r <= limit {
        assert(workload.admits(r));
        let next = next_iterate(supply, workload, offset, r);
        if next > r {
            lemma_searchable_is_iterable(supply, workload, offset, limit, next);
        }
    }
}

/// What a search result says, as a plain value.
pub open spec fn outcome(result: SearchResult) -> Option<nat> {
    match result {
        Ok(bound) => Some(bound@),
        Err(_) => None,
    }
}

/// Iterative fixed-point search up to `divergence_limit`, for a fixed
/// `offset` within the busy window.
///
/// Starting from the smallest unit of time, the assumed response time is
/// replaced by the time at which the supply has served the demand, measured
/// from `offset`, until it no longer grows.
pub fn search_with_offset<S: SupplyBound, W: Workload>(
    supply: &S,
    offset: Offset,
    divergence_limit: Duration,
    workload: &W,
) -> (result: SearchResult)
    requires
        supply.wf(),
        workload.wf(),
        iterable(supply, workload, offset@, divergence_limit@, 1),
    ensures
        outcome(result) == search_from(supply, workload, offset@, divergence_limit@, 1),
        result is Err ==> result == Err::<Duration, SearchFailure>(
            SearchFailure::DivergenceLimitExceeded { offset, limit: divergence_limit },
        ),
{
    let mut assumed_response_time = Duration { val: 1 };
    while assumed_response_time.val <= divergence_limit.val
        invariant
            supply.wf(),
            workload.wf(),
            iterable(supply, workload, offset@, divergence_limit@, assumed_response_time@),
            assumed_response_time@ >= 1,
            search_from(supply, workload, offset@, divergence_limit@, 1) == search_from(
                supply,
                workload,
                offset@,
                divergence_limit@,
                assumed_response_time@,
            ),
        decreases minus(divergence_limit@ + 1, assumed_response_time@),
    {
        let demand = workload.demand(assumed_response_time);
        let demand_met = Offset::from_time_zero(supply.service_time(demand));
        let response_time_bound = offset.distance_to(demand_met);
        if response_time_bound.val <= assumed_response_time.val {
            return Ok(response_time_bound);
        } else {
            assumed_response_time = response_time_bound;
        }
    }
    Err(SearchFailure::DivergenceLimitExceeded { offset, limit: divergence_limit })
}

/// Iterative fixed-point search up to `divergence_limit` from the start of
/// the busy window.
pub fn search<S: SupplyBound, W: Workload>(
    supply: &S,
    divergence_limit: Duration,
    workload_bound: &W,
) -> (result: SearchResult)
    requires
        supply.wf(),
        workload_bound.wf(),
        iterable(supply, workload_bound, 0, divergence_limit@, 1),
    ensures
        outcome(result) == search_from(supply, workload_bound, 0, divergence_limit@, 1),
        result is Err ==> result == Err::<Duration, SearchFailure>(
            SearchFailure::DivergenceLimitExceeded {
                offset: Offset { val: 0 },
                limit: divergence_limit,
            },
        ),
{
    search_with_offset(supply, Offset { val: 0 }, divergence_limit, workload_bound)
}

/// The first failure among `results`, if there is one.
pub open spec fn first_failure(results: Seq<SearchResult>) -> Option<SearchFailure>
    decreases results.len(),
{
    if results.len() == 0 {
        None
    } else {
        match first_failure(results.drop_last()) {
            Some(failure) => Some(failure),
            None => match results.last() {
                Ok(_) => None,
                Err(failure) => Some(failure),
            },
        }
    }
}

/// The largest bound among the successful `results`, zero if there is none.
pub open spec fn max_bound(results: Seq<SearchResult>) -> nat
    decreases results.len(),
{
    if results.len() == 0 {
        0
    } else {
        let before = max_bound(results.drop_last());
        match results.last() {
            Ok(bound) => if bound@ > before { bound@ } else { before },
            Err(_) => before,
        }
    }
}

/// Reduce the search results of all offsets: the first failure if any search
/// failed, the largest bound otherwise, and zero if there was no offset.
pub fn max_response_time(rta_per_offset: &[SearchResult]) -> (result: SearchResult)
    ensures
        match first_failure(rta_per_offset@) {
            Some(failure) => result == Err::<Duration, SearchFailure>(failure),
            None => result is Ok && outcome(result) == Some(max_bound(rta_per_offset@)),
        },
{
    let mut best: SearchResult = Ok(Duration::zero());
    let mut i: usize = 0;
    while i < rta_per_offset.len()
        invariant
            i <= rta_per_offset.len(),
            match first_failure(rta_per_offset@.take(i as int)) {
                Some(failure) => best == Err::<Duration, SearchFailure>(failure),
                None => best is Ok && outcome(best) == Some(
                    max_bound(rta_per_offset@.take(i as int)),
                ),
            },
        decreases rta_per_offset.len() - i,
    {
        proof {
            let upto = rta_per_offset@.take(i + 1);
            assert(upto.drop_last() == rta_per_offset@.take(i as int));
            assert(upto.last() == rta_per_offset@[i as int]);
        }
        match best {
            Err(_) => {},
            Ok(so_far) => {
                match rta_per_offset[i] {
                    Err(failure) => {
                        best = Err(failure);
                    },
                    Ok(bound) => {
                        if bound.val > so_far.val {
                            best = Ok(bound);
                        }
                    },
                }
            },
        }
        i += 1;
    }
    proof {
        assert(rta_per_offset@.take(i as int) == rta_per_offset@);
    }
    best
}

/// The first failure among `results`, or else their largest bound.
pub open spec fn reduced(results: Seq<SearchResult>) -> SearchResult {
    match first_failure(results) {
        Some(failure) => Err(failure),
        None => Ok(Duration { val: max_bound(results) as u64 }),
    }
}

/// The right-hand side of a recurrence that depends on the offset in the
/// busy window: a bound on the service demanded when a job is released at
/// `offset` and its response time is assumed to be `delta`.
pub trait OffsetWorkload {
    /// The workload is built from proper parts.
    spec fn wf(&self) -> bool;

    /// The demand at `offset` for an assumed response time of `delta`.
    spec fn bound(&self, offset: nat, delta: nat) -> nat;

    /// The demand at `offset` and `delta` can be computed within the
    /// machine's limits.
    spec fn admits(&self, offset: nat, delta: nat) -> bool;

    /// Compute the demand at `offset` for an assumed response time of `delta`.
    fn demand(&self, offset: Offset, delta: Duration) -> (s: Service)
        requires
            self.wf(),
            self.admits(offset@, delta@),
        ensures
            s@ == self.bound(offset@, delta@),
    ;
}

/// An offset-dependent workload at one offset.
pub struct AtOffset<'a, G> {
    pub workload: &'a G,
    pub offset: Offset,
}

impl<'a, G: OffsetWorkload> Workload for AtOffset<'a, G> {
    open spec fn wf(&self) -> bool {
        self.workload.wf()
    }

    open spec fn bound(&self, delta: nat) -> nat {
        self.workload.bound(self.offset@, delta)
    }

    open spec fn admits(&self, delta: nat) -> bool {
        self.workload.admits(self.offset@, delta)
    }

    fn demand(&self, delta: Duration) -> (s: Service) {
        self.workload.demand(self.offset, delta)
    }
}

/// The iteration at the offset `a` can be carried out up to `limit`.
pub open spec fn iterable_at<S: SupplyBound, G: OffsetWorkload>(
    supply: &S,
    offset_demand_bound: &G,
    a: nat,
    limit: nat,
) -> bool {
    iterable(
        supply,
        &AtOffset { workload: offset_demand_bound, offset: Offset { val: a as u64 } },
        a,
        limit,
        1,
    )
}

/// The outcome of the search at the offset `a`.
pub open spec fn outcome_at<S: SupplyBound, G: OffsetWorkload>(
    supply: &S,
    offset_demand_bound: &G,
    limit: Duration,
    a: nat,
) -> SearchResult {
    let offset = Offset { val: a as u64 };
    match search_from(supply, &AtOffset { workload: offset_demand_bound, offset }, a, limit@, 1) {
        Some(response) => Ok(Duration { val: response as u64 }),
        None => Err(SearchFailure::DivergenceLimitExceeded { offset, limit }),
    }
}

/// The outcomes of the searches at the offsets that belong to `steps`.
pub open spec fn outcomes<S: SupplyBound, G: OffsetWorkload>(
    supply: &S,
    offset_demand_bound: &G,
    limit: Duration,
    steps: Seq<Duration>,
) -> Seq<SearchResult> {
    Seq::new(
        steps.len(),
        |i: int| outcome_at(supply, offset_demand_bound, limit, (steps[i]@ - 1) as nat),
    )
}

/// What the search per offset asks of its inputs: proper parts, and
/// iterations that can be carried out up to the limit, for the busy window
/// and at each offset up to it at which `demand` steps.
pub open spec fn response_time_boundable<
    S: SupplyBound,
    R: RequestBound,
    W: Workload,
    G: OffsetWorkload,
>(supply: &S, demand: &R, bw_demand_bound: &W, offset_demand_bound: &G, limit: Duration) -> bool {
    &&& supply.wf()
    &&& demand.wf()
    &&& bw_demand_bound.wf()
    &&& offset_demand_bound.wf()
    &&& limit@ < u64::MAX
    &&& demand.admits(limit@ + 1)
    &&& iterable(supply, bw_demand_bound, 0, limit@, 1)
    &&& match search_from(supply, bw_demand_bound, 0, limit@, 1) {
        None => true,
        Some(max_bw) => forall|a: nat|
            a <= max_bw && is_step(|delta: nat| demand.releases(delta), a + 1)
                ==> #[trigger] iterable_at(supply, offset_demand_bound, a, limit@),
    }
}

/// The result of the search per offset: the failure if the busy window is
/// not found up to the limit, else the reduced outcomes of the searches at
/// the offsets at which `demand` steps, up to the busy window.
pub open spec fn response_time_bounded<
    S: SupplyBound,
    R: RequestBound,
    W: Workload,
    G: OffsetWorkload,
>(
    supply: &S,
    demand: &R,
    bw_demand_bound: &W,
    offset_demand_bound: &G,
    limit: Duration,
    result: SearchResult,
) -> bool {
    match search_from(supply, bw_demand_bound, 0, limit@, 1) {
        None => result == Err::<Duration, SearchFailure>(
            SearchFailure::DivergenceLimitExceeded { offset: Offset { val: 0 }, limit },
        ),
        Some(max_bw) => exists|steps: Seq<Duration>|
            lists_steps(steps, |delta: nat| demand.releases(delta), max_bw + 1) && result
                == reduced(#[trigger] outcomes(supply, offset_demand_bound, limit, steps)),
    }
}

/// Bound a response time by a search per offset in the busy window.
///
/// First the busy window is bounded by a search on `bw_demand_bound`; if
/// that fails, there is no bound. Then, for each offset up to the busy
/// window at which `demand` steps (a step is the length of the closed
/// interval that ends at its offset), the recurrence of
/// `offset_demand_bound` at that offset is solved. The result is the
/// first failure among these searches, or else their largest bound.
pub fn bound_response_time<S: SupplyBound, R: RequestBound, W: Workload, G: OffsetWorkload>(
    supply: &S,
    demand: &R,
    bw_demand_bound: &W,
    offset_demand_bound: &G,
    limit: Duration,
) -> (result: SearchResult)
    requires
        response_time_boundable(supply, demand, bw_demand_bound, offset_demand_bound, limit),
    ensures
        response_time_bounded(supply, demand, bw_demand_bound, offset_demand_bound, limit, result),
{
    let max_bw = match search(supply, limit, bw_demand_bound) {
        Ok(max_bw) => max_bw,
        Err(failure) => {
            return Err(failure);
        },
    };
    proof {
        lemma_search_within_limit(supply, bw_demand_bound, limit@, 1);
        demand.law_demand(max_bw@ + 1, limit@ + 1);
    }
    let steps = demand.steps_iter(Duration { val: max_bw.val + 1 });
    let offsets = step_offsets(&steps);
    let mut rta_bounds: Vec<SearchResult> = Vec::new();
    let mut i: usize = 0;
    while i < offsets.len()
        invariant
            response_time_boundable(supply, demand, bw_demand_bound, offset_demand_bound, limit),
            search_from(supply, bw_demand_bound, 0, limit@, 1) == Some(max_bw@),
            max_bw@ <= limit@,
            lists_steps(steps@, |delta: nat| demand.releases(delta), max_bw@ + 1),
            offsets@.len() == steps@.len(),
            forall|j: int| 0 <= j < steps@.len() ==> (#[trigger] offsets@[j])@ == steps@[j]@ - 1,
            i <= offsets.len(),
            rta_bounds@ == outcomes(supply, offset_demand_bound, limit, steps@).take(i as int),
        decreases offsets.len() - i,
    {
        let offset = offsets[i];
        let rhs = AtOffset { workload: offset_demand_bound, offset };
        proof {
            assert(steps@[i as int]@ <= max_bw@ + 1);
            assert(is_step(|delta: nat| demand.releases(delta), offset@ + 1));
            assert(offset == Offset { val: offset@ as u64 });
            assert(iterable_at(supply, offset_demand_bound, offset@, limit@));
        }
        let rta = search_with_offset(supply, offset, limit, &rhs);
        rta_bounds.push(rta);
        proof {
            let all = outcomes(supply, offset_demand_bound, limit, steps@);
            assert(all[i as int] == rta);
            assert(rta_bounds@ == all.take(i + 1));
        }
        i += 1;
    }
    proof {
        let all = outcomes(supply, offset_demand_bound, limit, steps@);
        assert(all.take(i as int) == all);
    }
    max_response_time(rta_bounds.as_slice())
}

/// A search that converges ends at or below the limit.
pub proof fn lemma_search_within_limit<S: SupplyBound, W: Workload>(
    supply: &S,
    workload: &W,
    limit: nat,
    r: nat,
)
    ensures
        match search_from(supply, workload, 0, limit, r) {
            Some(found) => found <= limit,
            None => true,
        },
    decreases minus(limit + 1, r),
{
    if r <= limit {
        let next = next_iterate(supply, workload, 0, r);
        if next > r {
            lemma_search_within_limit(supply, workload, limit, next);
        }
    }
}

/// A longer assumed response time never lowers the demand.
pub open spec fn monotone<W: Workload>(workload: &W) -> bool {
    forall|a: nat, b: nat| a <= b ==> #[trigger] workload.bound(a) <= #[trigger] workload.bound(b)
}

/// The iteration at `r` was reached from the start: `r` is the first
/// assumed response time, or the next iterate of an earlier one.
spec fn reached<S: SupplyBound, W: Workload>(
    supply: &S,
    workload: &W,
    offset: nat,
    limit: nat,
    r: nat,
    prev: nat,
) -> bool {
    r == 1 || (1 <= prev < r && prev <= limit && r == next_iterate(supply, workload, offset, prev))
}

proof fn lemma_iterates_grow<S: SupplyBound, W: Workload>(
    supply: &S,
    workload: &W,
    offset: nat,
    limit: nat,
    r: nat,
    prev: nat,
)
    requires
        supply.wf(),
        monotone(workload),
        searchable(supply, workload, offset, limit),
        reached(supply, workload, offset, limit, r, prev),
        1 < r <= limit,
    ensures
        r <= next_iterate(supply, workload, offset, r),
{
    assert(workload.admits(prev) && workload.admits(r));
    assert(workload.bound(prev) <= workload.bound(r));
    law_service_time_monotone(supply, workload.bound(prev), workload.bound(r));
}

proof fn lemma_search_fixed_point<S: SupplyBound, W: Workload>(
    supply: &S,
    workload: &W,
    offset: nat,
    limit: nat,
    r: nat,
    prev: nat,
)
    requires
        supply.wf(),
        monotone(workload),
        searchable(supply, workload, offset, limit),
        supply.admits_demand(workload.bound(0)),
        reached(supply, workload, offset, limit, r, prev),
        search_from(supply, workload, offset, limit, r) is Some,
    ensures
        next_iterate(
            supply,
            workload,
            offset,
            search_from(supply, workload, offset, limit, r).unwrap(),
        ) == search_from(supply, workload, offset, limit, r).unwrap(),
    decreases minus(limit + 1, r),
{
    let next = next_iterate(supply, workload, offset, r);
    assert(workload.admits(r));
    if next <= r {
        if r > 1 {
            lemma_iterates_grow(supply, workload, offset, limit, r, prev);
        } else if next == 0 {
            assert(workload.bound(0) <= workload.bound(1));
            law_service_time_monotone(supply, workload.bound(0), workload.bound(1));
        }
    } else {
        lemma_search_fixed_point(supply, workload, offset, limit, next, r);
    }
}

/// Below the result of a search that converges, every assumed response time
/// is exceeded by its next iterate.
pub proof fn lemma_below_search_result<S: SupplyBound, W: Workload>(
    supply: &S,
    workload: &W,
    offset: nat,
    limit: nat,
    x: nat,
)
    requires
        supply.wf(),
        monotone(workload),
        searchable(supply, workload, offset, limit),
        search_from(supply, workload, offset, limit, 1) is Some,
        1 <= x < search_from(supply, workload, offset, limit, 1).unwrap(),
    ensures
        x < next_iterate(supply, workload, offset, x),
        x <= limit,
{
    lemma_below_from(supply, workload, offset, limit, 1, 0, x);
}

proof fn lemma_below_from<S: SupplyBound, W: Workload>(
    supply: &S,
    workload: &W,
    offset: nat,
    limit: nat,
    r: nat,
    prev: nat,
    x: nat,
)
    requires
        supply.wf(),
        monotone(workload),
        searchable(supply, workload, offset, limit),
        reached(supply, workload, offset, limit, r, prev),
        search_from(supply, workload, offset, limit, r) is Some,
        r <= x < search_from(supply, workload, offset, limit, r).unwrap(),
    ensures
        x < next_iterate(supply, workload, offset, x),
        x <= limit,
    decreases minus(limit + 1, r),
{
    let next = next_iterate(supply, workload, offset, r);
    assert(workload.admits(r));
    if next > r {
        if x < next {
            assert(x <= limit) by {
                if x > limit {
                    assert(next > limit);
                    assert(search_from(supply, workload, offset, limit, next) is None);
                }
            }
            assert(workload.admits(x));
            assert(workload.bound(r) <= workload.bound(x));
            law_service_time_monotone(supply, workload.bound(r), workload.bound(x));
        } else {
            lemma_below_from(supply, workload, offset, limit, next, r, x);
        }
    }
}

/// If the search converges, its result `R` solves the recurrence: the supply
/// has served the demand at `R` exactly `R` after the offset. This holds of
/// every workload that is monotone and can be evaluated up to the limit.
pub proof fn law_search_fixed_point<S: SupplyBound, W: Workload>(
    supply: &S,
    workload: &W,
    offset: nat,
    limit: nat,
)
    requires
        supply.wf(),
        monotone(workload),
        searchable(supply, workload, offset, limit),
        supply.admits_demand(workload.bound(0)),
        search_from(supply, workload, offset, limit, 1) is Some,
    ensures
        next_iterate(
            supply,
            workload,
            offset,
            search_from(supply, workload, offset, limit, 1).unwrap(),
        ) == search_from(supply, workload, offset, limit, 1).unwrap(),
{
    lemma_search_fixed_point(supply, workload, offset, limit, 1, 0);
}

/// The outcome of the exhaustive search that continues at the assumed
/// response time `r`: zero where the demand is zero, else the first `r` at
/// which supply and demand meet, or `None` beyond `limit`.
pub open spec fn brute_force_from<S: SupplyBound, W: Workload>(
    supply: &S,
    workload: &W,
    offset: nat,
    limit: nat,
    r: nat,
) -> Option<nat>
    decreases minus(limit + 1, r),
{
    if r > limit {
        None
    } else if workload.bound(r) == 0 {
        Some(0)
    } else if supply.supply(offset + r) == workload.bound(r) {
        Some(r)
    } else {
        brute_force_from(supply, workload, offset, limit, r + 1)
    }
}

/// Exhaustive search for the first assumed response time at which the supply
/// meets the demand. Slow; it serves to cross-check [`search_with_offset`].
pub fn brute_force_search_with_offset<S: SupplyBound, W: Workload>(
    supply: &S,
    offset: Offset,
    divergence_limit: Duration,
    workload: &W,
) -> (result: SearchResult)
    requires
        supply.wf(),
        workload.wf(),
        offset@ + divergence_limit@ <= u64::MAX,
        forall|r: nat| 1 <= r <= divergence_limit@ ==> #[trigger] workload.admits(r),
    ensures
        outcome(result) == brute_force_from(supply, workload, offset@, divergence_limit@, 1),
        result is Err ==> result == Err::<Duration, SearchFailure>(
            SearchFailure::DivergenceLimitExceeded { offset, limit: divergence_limit },
        ),
{
    let mut r: u64 = 1;
    while r <= divergence_limit.val
        invariant
            supply.wf(),
            workload.wf(),
            offset@ + divergence_limit@ <= u64::MAX,
            forall|r: nat| 1 <= r <= divergence_limit@ ==> #[trigger] workload.admits(r),
            1 <= r <= divergence_limit@ + 1,
            brute_force_from(supply, workload, offset@, divergence_limit@, 1) == brute_force_from(
                supply,
                workload,
                offset@,
                divergence_limit@,
                r as nat,
            ),
        decreases divergence_limit@ + 1 - r,
    {
        let assumed_response_time = Duration { val: r };
        assert(workload.admits(assumed_response_time@));
        let lhs = supply.provided_service(Duration { val: offset.val + r });
        let rhs = workload.demand(assumed_response_time);
        if rhs.is_none() {
            return Ok(Duration::zero());
        } else if lhs.val == rhs.val {
            return Ok(assumed_response_time);
        }
        if r == divergence_limit.val {
            assert(brute_force_from(
                supply,
                workload,
                offset@,
                divergence_limit@,
                (r + 1) as nat,
            ) is None);
            return Err(SearchFailure::DivergenceLimitExceeded { offset, limit: divergence_limit });
        }
        r += 1;
    }
    Err(SearchFailure::DivergenceLimitExceeded { offset, limit: divergence_limit })
}

proof fn lemma_brute_force_skips<S: SupplyBound, W: Workload>(
    supply: &S,
    workload: &W,
    offset: nat,
    limit: nat,
    from: nat,
    to: nat,
)
    requires
        from <= to <= limit + 1,
        forall|r: nat|
            from <= r < to ==> #[trigger] workload.bound(r) != 0 && supply.supply(offset + r)
                != workload.bound(r),
    ensures
        brute_force_from(supply, workload, offset, limit, from) == brute_force_from(
            supply,
            workload,
            offset,
            limit,
            to,
        ),
    decreases to - from,
{
    if from < to {
        assert(workload.bound(from) != 0);
        lemma_brute_force_skips(supply, workload, offset, limit, from + 1, to);
    }
}

/// The supply reaches every demand of the workload exactly, not only at least.
pub open spec fn meets_exactly<S: SupplyBound, W: Workload>(
    supply: &S,
    workload: &W,
    limit: nat,
) -> bool {
    forall|r: nat|
        1 <= r <= limit ==> supply.supply(supply.time_for(#[trigger] workload.bound(r)))
            == workload.bound(r)
}

proof fn lemma_searches_agree<S: SupplyBound, W: Workload>(
    supply: &S,
    workload: &W,
    offset: nat,
    limit: nat,
    r: nat,
    prev: nat,
)
    requires
        supply.wf(),
        monotone(workload),
        searchable(supply, workload, offset, limit),
        meets_exactly(supply, workload, limit),
        limit >= 1 ==> workload.bound(1) == 0 || supply.time_for(workload.bound(1)) > offset,
        reached(supply, workload, offset, limit, r, prev),
    ensures
        search_from(supply, workload, offset, limit, r) == brute_force_from(
            supply,
            workload,
            offset,
            limit,
            r,
        ),
    decreases minus(limit + 1, r),
{
    if r <= limit {
        let next = next_iterate(supply, workload, offset, r);
        let demand = workload.bound(r);
        assert(workload.admits(r));
        supply.law_service_time_zero();
        if next <= r {
            if r > 1 {
                lemma_iterates_grow(supply, workload, offset, limit, r, prev);
            }
            if demand != 0 {
                assert(supply.supply(supply.time_for(workload.bound(r))) == demand);
            }
        } else {
            let to = if next <= limit { next } else { limit + 1 };
            supply.law_service_time_inverse(demand);
            assert forall|x: nat| r <= x < to implies #[trigger] workload.bound(x) != 0
                && supply.supply(offset + x) != workload.bound(x) by {
                assert(workload.bound(r) <= workload.bound(x));
                supply.law_supply_monotone(offset + x, (supply.time_for(demand) - 1) as nat);
            }
            lemma_brute_force_skips(supply, workload, offset, limit, r, to);
            lemma_searches_agree(supply, workload, offset, limit, next, r);
        }
    }
}

/// The iterative and the exhaustive search agree, on every monotone workload
/// whose demands the supply meets exactly, unless the very first demand is
/// positive and already served at the offset.
pub proof fn law_searches_agree<S: SupplyBound, W: Workload>(
    supply: &S,
    workload: &W,
    offset: nat,
    limit: nat,
)
    requires
        supply.wf(),
        monotone(workload),
        searchable(supply, workload, offset, limit),
        meets_exactly(supply, workload, limit),
        limit >= 1 ==> workload.bound(1) == 0 || supply.time_for(workload.bound(1)) > offset,
    ensures
        search_from(supply, workload, offset, limit, 1) == brute_force_from(
            supply,
            workload,
            offset,
            limit,
            1,
        ),
{
    lemma_searches_agree(supply, workload, offset, limit, 1, 0);
}

} // verus!
