//! The analysis that the fixed-priority policies share: a busy window, a
//! search per offset in it, and the largest response time over the offsets.

use vstd::prelude::*;
use crate::arrival::{is_step, lists_steps};
use crate::demand::slice::{all_admit, all_wf, lemma_sum_demand, sum_demand, total_service_needed};
use crate::demand::{step_offsets, RequestBound};
use crate::fixed_point::{
    law_search_fixed_point, lemma_below_search_result, lemma_search_within_limit, lemma_searchable_is_iterable,
    max_response_time, minus, reduced, search,
    search_from, SearchFailure, SearchResult, Workload,
};
use crate::supply::{Dedicated, SupplyBound};
use crate::time::{Duration, Offset, Service};

verus! {

/// The demand of everybody: of the task under analysis and of all tasks
/// that interfere with it. It bounds the length of the busy window.
pub struct BusyWindow<'a, T, I> {
    pub blocking_bound: Service,
    pub tua: &'a T,
    pub interfering_tasks: &'a [I],
}

impl<'a, T: RequestBound, I: RequestBound> Workload for BusyWindow<'a, T, I> {
    open spec fn wf(&self) -> bool {
        self.tua.wf() && all_wf(self.interfering_tasks@)
    }

    open spec fn bound(&self, delta: nat) -> nat {
        self.blocking_bound@ + sum_demand(self.interfering_tasks@, delta) + self.tua.demand(delta)
    }

    open spec fn admits(&self, delta: nat) -> bool {
        &&& self.tua.admits(delta)
        &&& all_admit(self.interfering_tasks@, delta)
        &&& self.bound(delta) <= u64::MAX
    }

    fn demand(&self, delta: Duration) -> (s: Service) {
        let interference_bound = total_service_needed(self.interfering_tasks, delta);
        let own = self.tua.service_needed(delta);
        Service { val: self.blocking_bound.val + interference_bound.val + own.val }
    }
}

/// The demand that delays a job of the task under analysis released at a
/// given offset: `tua_demand`, which is fixed by the offset (the blocking and
/// what the task itself demands up to and including the offset, less what
/// runs without preemption at the end), and the interference in the interval
/// under consideration.
pub struct AtOffset<'a, I> {
    pub tua_demand: Service,
    pub interfering_tasks: &'a [I],
}

impl<'a, I: RequestBound> Workload for AtOffset<'a, I> {
    open spec fn wf(&self) -> bool {
        all_wf(self.interfering_tasks@)
    }

    open spec fn bound(&self, delta: nat) -> nat {
        self.tua_demand@ + sum_demand(self.interfering_tasks@, delta)
    }

    open spec fn admits(&self, delta: nat) -> bool {
        &&& all_admit(self.interfering_tasks@, delta)
        &&& self.bound(delta) <= u64::MAX
    }

    fn demand(&self, delta: Duration) -> (s: Service) {
        let interfering_demand = total_service_needed(self.interfering_tasks, delta);
        Service { val: self.tua_demand.val + interfering_demand.val }
    }
}

/// The failure that every search of this analysis reports.
pub open spec fn divergence(limit: Duration) -> SearchFailure {
    SearchFailure::DivergenceLimitExceeded { offset: Offset { val: 0 }, limit }
}

/// What the offset `a` fixes of the demand: the blocking and the demand of
/// the task under analysis up to and including the offset, less the cost
/// that remains once a job can no longer be preempted.
pub open spec fn fixed_demand<T: RequestBound>(
    tua: &T,
    blocking_bound: Service,
    rem_cost: Service,
    a: nat,
) -> nat {
    blocking_bound@ + minus(tua.demand(a + 1), rem_cost@)
}

/// The time at which a job released at offset `a` can no longer be
/// preempted, if the search for it converges.
pub open spec fn busy_until<T: RequestBound, I: RequestBound>(
    tua: &T,
    interfering_tasks: &[I],
    blocking_bound: Service,
    rem_cost: Service,
    limit: nat,
    a: nat,
) -> Option<nat> {
    search_from(
        &Dedicated {  },
        &AtOffset {
            tua_demand: Service { val: fixed_demand(tua, blocking_bound, rem_cost, a) as u64 },
            interfering_tasks,
        },
        0,
        limit,
        1,
    )
}

/// The response-time bounds of the offsets that belong to `steps`.
pub open spec fn responses<T: RequestBound, I: RequestBound>(
    tua: &T,
    interfering_tasks: &[I],
    blocking_bound: Service,
    rem_cost: Service,
    limit: Duration,
    steps: Seq<Duration>,
) -> Seq<SearchResult> {
    Seq::new(
        steps.len(),
        |i: int|
            match busy_until(
                tua,
                interfering_tasks,
                blocking_bound,
                rem_cost,
                limit@,
                (steps[i]@ - 1) as nat,
            ) {
                Some(af) => Ok(
                    Duration { val: (minus(af, (steps[i]@ - 1) as nat) + rem_cost@) as u64 },
                ),
                None => Err(divergence(limit)),
            },
    )
}

/// No search ends before its offset, for the offsets within the busy
/// window at which the demand of the task under analysis steps.
pub open spec fn offsets_within_busy_windows<T: RequestBound, I: RequestBound>(
    tua: &T,
    interfering_tasks: &[I],
    blocking_bound: Service,
    rem_cost: Service,
    limit: nat,
) -> bool {
    match search_from(
        &Dedicated {  },
        &BusyWindow { blocking_bound, tua, interfering_tasks },
        0,
        limit,
        1,
    ) {
        None => true,
        Some(busy_window) => forall|a: nat|
            a < busy_window && is_step(|delta: nat| tua.releases(delta), a + 1)
                ==> match #[trigger] busy_until(
                tua,
                interfering_tasks,
                blocking_bound,
                rem_cost,
                limit,
                a,
            ) {
                Some(af) => af >= a,
                None => true,
            },
    }
}

/// The result of the analysis: the failure if the busy window is not found
/// up to the limit, else the reduced response-time bounds of the offsets at
/// the steps of the task under analysis within the busy window.
pub open spec fn analysed<T: RequestBound, I: RequestBound>(
    tua: &T,
    interfering_tasks: &[I],
    blocking_bound: Service,
    rem_cost: Service,
    limit: Duration,
    result: SearchResult,
) -> bool {
    match search_from(
        &Dedicated {  },
        &BusyWindow { blocking_bound, tua, interfering_tasks },
        0,
        limit@,
        1,
    ) {
        None => result == Err::<Duration, SearchFailure>(divergence(limit)),
        Some(busy_window) => exists|steps: Seq<Duration>|
            lists_steps(steps, |delta: nat| tua.releases(delta), busy_window) && result == reduced(
                #[trigger] responses(
                    tua,
                    interfering_tasks,
                    blocking_bound,
                    rem_cost,
                    limit,
                    steps,
                ),
            ),
    }
}

/// What the analysis asks of its inputs: proper parts, demands within the
/// machine's limits up to `limit`, a task under analysis whose first job
/// costs at least `rem_cost`, and no search that ends before its offset.
pub open spec fn analysable<T: RequestBound, I: RequestBound>(
    tua: &T,
    interfering_tasks: &[I],
    blocking_bound: Service,
    rem_cost: Service,
    limit: Duration,
) -> bool {
    &&& tua.wf()
    &&& all_wf(interfering_tasks@)
    &&& (BusyWindow { blocking_bound, tua, interfering_tasks }).admits(limit@)
    &&& limit@ + rem_cost@ <= u64::MAX
    &&& tua.demand(1) >= rem_cost@
    &&& offsets_within_busy_windows(tua, interfering_tasks, blocking_bound, rem_cost, limit@)
}

/// Bound the response time of a task on a dedicated uniprocessor, with
/// `interfering_tasks` of higher or equal priority, a bound on the blocking
/// by lower-priority tasks, and `rem_cost`, the cost of a job that remains
/// once it can no longer be preempted.
///
/// First the busy window is bounded by the blocking and the demand of
/// everybody. Then, for each offset in the busy window at which the
/// demand of the task under analysis steps, the time is found at which a
/// job released there can no longer be preempted; the bound is the largest
/// distance from an offset to that time, plus `rem_cost`. If any search
/// exceeds `limit`, so does the analysis.
#[allow(non_snake_case)]
pub fn busy_window_rta<T: RequestBound, I: RequestBound>(
    tua: &T,
    interfering_tasks: &[I],
    blocking_bound: Service,
    rem_cost: Service,
    limit: Duration,
) -> (result: SearchResult)
    requires
        analysable(tua, interfering_tasks, blocking_bound, rem_cost, limit),
    ensures
        analysed(tua, interfering_tasks, blocking_bound, rem_cost, limit, result),
{
    let proc = Dedicated::new();
    let everybody = BusyWindow { blocking_bound, tua, interfering_tasks };
    proof {
        assert forall|r: nat| 1 <= r <= limit@ implies #[trigger] everybody.admits(r)
            && proc.admits_demand(everybody.bound(r)) && proc.time_for(everybody.bound(r))
            >= 0 by {
            tua.law_demand(r, limit@);
            lemma_sum_demand(interfering_tasks@, r, limit@);
        }
    }
    proof {
        lemma_searchable_is_iterable(&proc, &everybody, 0, limit@, 1);
    }
    let L = match search(&proc, limit, &everybody) {
        Ok(L) => L,
        Err(failure) => {
            return Err(failure);
        },
    };
    proof {
        lemma_search_within_limit(&proc, &everybody, limit@, 1);
        tua.law_demand(L@, limit@);
    }
    let steps = tua.steps_iter(L);
    let offsets = step_offsets(&steps);
    let mut results: Vec<SearchResult> = Vec::new();
    let mut i: usize = 0;
    while i < offsets.len()
        invariant
            analysable(tua, interfering_tasks, blocking_bound, rem_cost, limit),
            search_from(&proc, &everybody, 0, limit@, 1) == Some(L@),
            everybody == (BusyWindow { blocking_bound, tua, interfering_tasks }),
            lists_steps(steps@, |delta: nat| tua.releases(delta), L@),
            L@ <= limit@,
            offsets@.len() == steps@.len(),
            forall|j: int| 0 <= j < steps@.len() ==> (#[trigger] offsets@[j])@ == steps@[j]@ - 1,
            i <= offsets.len(),
            results@ == responses(
                tua,
                interfering_tasks,
                blocking_bound,
                rem_cost,
                limit,
                steps@,
            ).take(i as int),
        decreases offsets.len() - i,
    {
        let A = offsets[i];
        proof {
            assert(steps@[i as int]@ <= L@);
            assert(is_step(|delta: nat| tua.releases(delta), A@ + 1));
            tua.law_demand(A@ + 1, limit@);
            tua.law_demand(1, A@ + 1);
        }
        let self_interference = tua.service_needed(A.closed_since_time_zero());
        let tua_demand = Service {
            val: blocking_bound.val + (self_interference.val - rem_cost.val),
        };
        let rhs = AtOffset { tua_demand, interfering_tasks };
        proof {
            assert(rhs.tua_demand == Service {
                val: fixed_demand(tua, blocking_bound, rem_cost, A@) as u64,
            });
            assert forall|r: nat| 1 <= r <= limit@ implies #[trigger] rhs.admits(r)
                && proc.admits_demand(rhs.bound(r)) && proc.time_for(rhs.bound(r)) >= 0 by {
                lemma_sum_demand(interfering_tasks@, r, limit@);
            }
            assert(busy_until(tua, interfering_tasks, blocking_bound, rem_cost, limit@, A@)
                == search_from(&proc, &rhs, 0, limit@, 1));
            lemma_search_within_limit(&proc, &rhs, limit@, 1);
            lemma_searchable_is_iterable(&proc, &rhs, 0, limit@, 1);
        }
        let outcome_at_offset: SearchResult = match search(&proc, limit, &rhs) {
            Ok(AF) => {
                let F = Duration { val: AF.val - A.since_time_zero().val };
                Ok(Duration { val: F.val + rem_cost.val })
            },
            Err(failure) => Err(failure),
        };
        results.push(outcome_at_offset);
        proof {
            let all = responses(tua, interfering_tasks, blocking_bound, rem_cost, limit, steps@);
            assert(all[i as int] == outcome_at_offset);
            assert(results@ == all.take(i + 1));
        }
        i += 1;
    }
    proof {
        let all = responses(tua, interfering_tasks, blocking_bound, rem_cost, limit, steps@);
        assert(all.take(i as int) == all);
    }
    max_response_time(results.as_slice())
}

/// Where a job can be preempted until it is done and the first job of the
/// task under analysis has a cost, no search ends before its offset.
pub proof fn law_offsets_within_busy_windows<T: RequestBound, I: RequestBound>(
    tua: &T,
    interfering_tasks: &[I],
    blocking_bound: Service,
    limit: Duration,
)
    requires
        tua.wf(),
        all_wf(interfering_tasks@),
        (BusyWindow { blocking_bound, tua, interfering_tasks }).admits(limit@),
        tua.demand(1) > 0,
    ensures
        offsets_within_busy_windows(
            tua,
            interfering_tasks,
            blocking_bound,
            Service { val: 0 },
            limit@,
        ),
{
    let proc = Dedicated {  };
    let rem_cost = Service { val: 0 };
    let everybody = BusyWindow { blocking_bound, tua, interfering_tasks };
    assert forall|r: nat| 1 <= r <= limit@ implies #[trigger] everybody.admits(r)
        && proc.admits_demand(everybody.bound(r)) && proc.time_for(everybody.bound(r)) >= 0 by {
        tua.law_demand(r, limit@);
        lemma_sum_demand(interfering_tasks@, r, limit@);
    }
    assert forall|x: nat, y: nat| x <= y implies #[trigger] everybody.bound(x)
        <= #[trigger] everybody.bound(y) by {
        tua.law_demand(x, y);
        lemma_sum_demand(interfering_tasks@, x, y);
    }
    match search_from(&proc, &everybody, 0, limit@, 1) {
        None => {},
        Some(busy_window) => {
            lemma_search_within_limit(&proc, &everybody, limit@, 1);
            assert forall|a: nat|
                a < busy_window && is_step(
                    |delta: nat| tua.releases(delta),
                    a + 1,
                ) implies match #[trigger] busy_until(
                tua,
                interfering_tasks,
                blocking_bound,
                rem_cost,
                limit@,
                a,
            ) {
                Some(af) => af >= a,
                None => true,
            } by {
                let fixed = fixed_demand(tua, blocking_bound, rem_cost, a);
                tua.law_demand(a + 1, limit@);
                tua.law_demand(1, a + 1);
                let rhs = AtOffset { tua_demand: Service { val: fixed as u64 }, interfering_tasks };
                assert forall|r: nat| 1 <= r <= limit@ implies #[trigger] rhs.admits(r)
                    && proc.admits_demand(rhs.bound(r)) && proc.time_for(rhs.bound(r)) >= 0 by {
                    lemma_sum_demand(interfering_tasks@, r, limit@);
                }
                assert forall|x: nat, y: nat| x <= y implies #[trigger] rhs.bound(x)
                    <= #[trigger] rhs.bound(y) by {
                    lemma_sum_demand(interfering_tasks@, x, y);
                }
                match search_from(&proc, &rhs, 0, limit@, 1) {
                    None => {},
                    Some(af) => {
                        if af < a {
                            law_search_fixed_point(&proc, &rhs, 0, limit@);
                            lemma_below_search_result(&proc, &everybody, 0, limit@, af);
                            tua.law_demand(af, a + 1);
                        }
                    },
                }
            }
        },
    }
}

} // verus!
