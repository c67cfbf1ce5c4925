//! The analysis that the earliest-deadline-first policies share: a busy
//! window, a search per offset in it, and the largest response time over
//! the offsets.

use vstd::prelude::*;
use crate::arrival::aggregated::{merge_steps, never_decreasing};
use crate::arrival::{holds, increasing, is_step, lists_steps};
use crate::demand::RequestBound;
use crate::fixed_point::{
    lemma_search_within_limit, lemma_searchable_is_iterable, max_response_time, minus, reduced, search, search_from,
    SearchFailure, SearchResult, Workload,
};
use crate::supply::{Dedicated, SupplyBound};
use crate::time::{Duration, Offset, Service};

verus! {

/// A task other than the one under analysis, as the analysis sees it.
pub struct Other<R> {
    /// The demand of the task.
    pub rbf: R,
    /// The relative deadline of the task.
    pub deadline: Duration,
    /// How long the task can block a job whose deadline is earlier.
    pub blocking: Service,
}

/// The lesser of the two numbers.
pub open spec fn least(a: nat, b: nat) -> nat {
    if a < b {
        a
    } else {
        b
    }
}

/// The demand of all `others` in an interval of length `delta`.
pub open spec fn sum_all<R: RequestBound>(others: Seq<Other<R>>, delta: nat) -> nat
    decreases others.len(),
{
    if others.len() == 0 {
        0
    } else {
        sum_all(others.drop_last(), delta) + others.last().rbf.demand(delta)
    }
}

/// The demand of the jobs of `others` that have a deadline no later than a
/// job with the absolute deadline `base`, in an interval of length `af`.
pub open spec fn sum_capped<R: RequestBound>(others: Seq<Other<R>>, af: nat, base: nat) -> nat
    decreases others.len(),
{
    if others.len() == 0 {
        0
    } else {
        sum_capped(others.drop_last(), af, base) + others.last().rbf.demand(
            least(af, minus(base, others.last().deadline@)),
        )
    }
}

/// The longest blocking by one of `others` whose deadline is later than `threshold`.
pub open spec fn blocking_at<R: RequestBound>(others: Seq<Other<R>>, threshold: nat) -> nat
    decreases others.len(),
{
    if others.len() == 0 {
        0
    } else {
        let before = blocking_at(others.drop_last(), threshold);
        if others.last().deadline@ > threshold && others.last().blocking@ > before {
            others.last().blocking@
        } else {
            before
        }
    }
}

/// Every one of `others` has a proper demand that can be computed at `delta`.
pub open spec fn all_ready<R: RequestBound>(others: Seq<Other<R>>, delta: nat) -> bool {
    forall|j: int|
        0 <= j < others.len() ==> (#[trigger] others[j]).rbf.wf() && others[j].rbf.admits(delta)
}

proof fn lemma_sums<R: RequestBound>(others: Seq<Other<R>>, af: nat, base: nat, delta: nat, k: int)
    requires
        forall|j: int| 0 <= j < others.len() ==> (#[trigger] others[j]).rbf.wf(),
        af <= delta,
        0 <= k <= others.len(),
    ensures
        sum_capped(others.take(k), af, base) <= sum_capped(others, af, base) <= sum_all(
            others,
            delta,
        ),
        sum_all(others.take(k), delta) <= sum_all(others, delta),
        k < others.len() ==> sum_capped(others.take(k + 1), af, base) == sum_capped(
            others.take(k),
            af,
            base,
        ) + others[k].rbf.demand(least(af, minus(base, others[k].deadline@))),
        k < others.len() ==> sum_all(others.take(k + 1), delta) == sum_all(others.take(k), delta)
            + others[k].rbf.demand(delta),
    decreases others.len(),
{
    if k < others.len() {
        assert(others.take(k + 1).drop_last() == others.take(k));
    }
    if others.len() > 0 {
        let before = others.drop_last();
        others.last().rbf.law_demand(least(af, minus(base, others.last().deadline@)), delta);
        if k < others.len() {
            lemma_sums(before, af, base, delta, k);
            assert(before.take(k) == others.take(k));
        } else {
            lemma_sums(before, af, base, delta, k - 1);
            assert(others.take(k) == others);
        }
    } else {
        assert(others.take(k) == others);
    }
}

proof fn lemma_blocking<R: RequestBound>(others: Seq<Other<R>>, threshold: nat, k: int)
    requires
        0 <= k <= others.len(),
    ensures
        blocking_at(others.take(k), threshold) <= blocking_at(others, threshold),
        blocking_at(others, threshold) <= blocking_at(others, 0),
    decreases others.len(),
{
    if others.len() > 0 {
        let before = others.drop_last();
        if k < others.len() {
            lemma_blocking(before, threshold, k);
            assert(before.take(k) == others.take(k));
        } else {
            lemma_blocking(before, threshold, k - 1);
            assert(others.take(k) == others);
        }
    } else {
        assert(others.take(k) == others);
    }
}

/// The demand of everybody: it bounds the length of the busy window.
pub struct BusyWindow<'a, T, R> {
    pub tua: &'a T,
    pub others: &'a [Other<R>],
}

impl<'a, T: RequestBound, R: RequestBound> Workload for BusyWindow<'a, T, R> {
    open spec fn wf(&self) -> bool {
        self.tua.wf() && forall|j: int|
            0 <= j < self.others@.len() ==> (#[trigger] self.others@[j]).rbf.wf()
    }

    open spec fn bound(&self, delta: nat) -> nat {
        sum_all(self.others@, delta) + self.tua.demand(delta)
    }

    open spec fn admits(&self, delta: nat) -> bool {
        &&& self.tua.admits(delta)
        &&& all_ready(self.others@, delta)
        &&& self.bound(delta) <= u64::MAX
    }

    fn demand(&self, delta: Duration) -> (s: Service) {
        let mut interference_bound: u64 = 0;
        let mut j: usize = 0;
        while j < self.others.len()
            invariant
                self.wf(),
                self.admits(delta@),
                j <= self.others.len(),
                interference_bound == sum_all(self.others@.take(j as int), delta@),
            decreases self.others.len() - j,
        {
            proof {
                lemma_sums(self.others@, delta@, 0, delta@, j as int);
                lemma_sums(self.others@, delta@, 0, delta@, j + 1);
            }
            interference_bound = interference_bound + self.others[j].rbf.service_needed(
                delta,
            ).val;
            j += 1;
        }
        proof {
            assert(self.others@.take(j as int) == self.others@);
        }
        Service { val: interference_bound + self.tua.service_needed(delta).val }
    }
}

/// The demand that delays a job released at a given offset: `fixed`, the
/// blocking and the demand of the task under analysis itself, and the
/// demand of the jobs of others whose deadline is no later than
/// the job's, which is `base` after the start of the busy window.
pub struct AtOffset<'a, R> {
    pub fixed: Service,
    pub base: Duration,
    pub others: &'a [Other<R>],
}

impl<'a, R: RequestBound> Workload for AtOffset<'a, R> {
    open spec fn wf(&self) -> bool {
        forall|j: int| 0 <= j < self.others@.len() ==> (#[trigger] self.others@[j]).rbf.wf()
    }

    open spec fn bound(&self, delta: nat) -> nat {
        self.fixed@ + sum_capped(self.others@, delta, self.base@)
    }

    open spec fn admits(&self, delta: nat) -> bool {
        &&& all_ready(self.others@, delta)
        &&& self.bound(delta) <= u64::MAX
    }

    fn demand(&self, delta: Duration) -> (s: Service) {
        let mut total: u64 = 0;
        let mut j: usize = 0;
        while j < self.others.len()
            invariant
                self.wf(),
                self.admits(delta@),
                j <= self.others.len(),
                total == sum_capped(self.others@.take(j as int), delta@, self.base@),
            decreases self.others.len() - j,
        {
            let ot = &self.others[j];
            let until = self.base.saturating_sub(ot.deadline);
            let interval = if delta.val < until.val {
                delta
            } else {
                until
            };
            proof {
                lemma_sums(self.others@, delta@, self.base@, delta@, j as int);
                lemma_sums(self.others@, delta@, self.base@, delta@, j + 1);
                ot.rbf.law_demand(interval@, delta@);
            }
            total = total + ot.rbf.service_needed(interval).val;
            j += 1;
        }
        proof {
            assert(self.others@.take(j as int) == self.others@);
        }
        Service { val: self.fixed.val + total }
    }
}

/// The offset that a step of another task adds to the search space: where
/// a job of the task under analysis must be released for its deadline to
/// meet that of a job of the other task released at the step.
pub open spec fn shifted(step: nat, deadline: nat, tua_deadline: nat) -> nat {
    minus((step - 1 + deadline) as nat, tua_deadline)
}

/// The offset `a` belongs to the search space: the demand of the task
/// under analysis steps right after it, or a step of another task is
/// shifted to it.
pub open spec fn in_search_space<T: RequestBound, R: RequestBound>(
    tua: &T,
    tua_deadline: nat,
    others: Seq<Other<R>>,
    a: nat,
) -> bool {
    is_step(|delta: nat| tua.releases(delta), a + 1) || exists|j: int|
        0 <= j < others.len() && #[trigger] shifts_to(others[j], tua_deadline, a)
}

/// The releases of the task `other` grow at the interval length `step`.
pub open spec fn steps_at<R: RequestBound>(other: Other<R>, step: nat) -> bool {
    is_step(|delta: nat| other.rbf.releases(delta), step)
}

/// A step of the task `other` is shifted to the offset `a`.
pub open spec fn shifts_to<R: RequestBound>(other: Other<R>, tua_deadline: nat, a: nat) -> bool {
    exists|step: nat|
        #[trigger] steps_at(other, step) && a == shifted(step, other.deadline@, tua_deadline)
}

/// `offsets` lists, in increasing order, exactly the offsets of the search
/// space below `max_offset`.
pub open spec fn lists_offsets<T: RequestBound, R: RequestBound>(
    offsets: Seq<Duration>,
    tua: &T,
    tua_deadline: nat,
    others: Seq<Other<R>>,
    max_offset: nat,
) -> bool {
    &&& increasing(offsets)
    &&& forall|a: nat|
        #![trigger holds(offsets, a)]
        #![trigger in_search_space(tua, tua_deadline, others, a)]
        holds(offsets, a) <==> a < max_offset && in_search_space(tua, tua_deadline, others, a)
}

/// What the offset `a` fixes of the demand: the blocking by jobs with
/// later deadlines, and the demand of the task under analysis up to and
/// including the offset, less the cost that remains once a job can no
/// longer be preempted.
pub open spec fn fixed_demand<T: RequestBound, R: RequestBound>(
    tua: &T,
    tua_deadline: nat,
    others: Seq<Other<R>>,
    rem_cost: Service,
    a: nat,
) -> nat {
    blocking_at(others, tua_deadline + a) + minus(tua.demand(a + 1), rem_cost@)
}

/// The time at which a job released at offset `a` can no longer be
/// preempted, if the search for it converges.
pub open spec fn busy_until<T: RequestBound, R: RequestBound>(
    tua: &T,
    tua_deadline: Duration,
    others: &[Other<R>],
    rem_cost: Service,
    limit: nat,
    a: nat,
) -> Option<nat> {
    search_from(
        &Dedicated {  },
        &AtOffset {
            fixed: Service {
                val: fixed_demand(tua, tua_deadline@, others@, rem_cost, a) as u64,
            },
            base: Duration { val: (a + 1 + tua_deadline@) as u64 },
            others,
        },
        0,
        limit,
        1,
    )
}

/// The response-time bounds of the offsets in `offsets`.
pub open spec fn responses<T: RequestBound, R: RequestBound>(
    tua: &T,
    tua_deadline: Duration,
    others: &[Other<R>],
    rem_cost: Service,
    limit: Duration,
    offsets: Seq<Duration>,
) -> Seq<SearchResult> {
    Seq::new(
        offsets.len(),
        |i: int|
            match busy_until(tua, tua_deadline, others, rem_cost, limit@, offsets[i]@) {
                Some(af) => Ok(Duration { val: (minus(af, offsets[i]@) + rem_cost@) as u64 }),
                None => Err(
                    SearchFailure::DivergenceLimitExceeded { offset: Offset { val: 0 }, limit },
                ),
            },
    )
}

/// What the analysis asks of its inputs: proper parts, demands within the
/// machine's limits up to `limit` and the deadline of the task under
/// analysis beyond it, and a first job that costs at least `rem_cost`.
pub open spec fn analysable<T: RequestBound, R: RequestBound>(
    tua: &T,
    tua_deadline: Duration,
    others: &[Other<R>],
    rem_cost: Service,
    limit: Duration,
) -> bool {
    &&& tua.wf()
    &&& limit@ + tua_deadline@ + rem_cost@ < u64::MAX
    &&& tua.admits(limit@)
    &&& all_ready(others@, limit@ + tua_deadline@)
    &&& blocking_at(others@, 0) + sum_all(others@, limit@) + tua.demand(limit@) <= u64::MAX
    &&& tua.demand(1) >= rem_cost@
}

/// The result of the analysis: the failure if the busy window is not found
/// up to the limit, else the reduced response-time bounds of the offsets
/// of the search space within the busy window.
pub open spec fn analysed<T: RequestBound, R: RequestBound>(
    tua: &T,
    tua_deadline: Duration,
    others: &[Other<R>],
    rem_cost: Service,
    limit: Duration,
    result: SearchResult,
) -> bool {
    match search_from(&Dedicated {  }, &BusyWindow { tua, others }, 0, limit@, 1) {
        None => result == Err::<Duration, SearchFailure>(
            SearchFailure::DivergenceLimitExceeded { offset: Offset { val: 0 }, limit },
        ),
        Some(busy_window) => exists|offsets: Seq<Duration>|
            lists_offsets(offsets, tua, tua_deadline@, others@, busy_window) && result == reduced(
                #[trigger] responses(tua, tua_deadline, others, rem_cost, limit, offsets),
            ),
    }
}

/// The longest blocking by one of `others` whose deadline is later than `threshold`.
fn blocking_bound<R: RequestBound>(others: &[Other<R>], threshold: Duration) -> (s: Service)
    ensures
        s@ == blocking_at(others@, threshold@),
{
    let mut greatest = Service::none();
    let mut j: usize = 0;
    while j < others.len()
        invariant
            j <= others.len(),
            greatest@ == blocking_at(others@.take(j as int), threshold@),
        decreases others.len() - j,
    {
        proof {
            assert(others@.take(j + 1).drop_last() == others@.take(j as int));
        }
        if others[j].deadline.val > threshold.val && others[j].blocking.val > greatest.val {
            greatest = others[j].blocking;
        }
        j += 1;
    }
    proof {
        assert(others@.take(j as int) == others@);
    }
    greatest
}

/// The offsets below `max_offset` to which the steps of `other` are shifted.
fn shifted_offsets<R: RequestBound>(
    other: &Other<R>,
    tua_deadline: Duration,
    max_offset: Duration,
) -> (offsets: Vec<Duration>)
    requires
        other.rbf.wf(),
        max_offset@ + tua_deadline@ <= u64::MAX,
        other.rbf.admits(max_offset@ + tua_deadline@),
    ensures
        never_decreasing(offsets@),
        forall|a: nat|
            holds(offsets@, a) <==> a < max_offset@ && shifts_to(*other, tua_deadline@, a),
{
    let mut offsets: Vec<Duration> = Vec::new();
    if max_offset.val == 0 {
        proof {
            assert forall|a: nat| !holds(offsets@, a) by {}
        }
        return offsets;
    }
    let reach = Duration { val: max_offset.val + tua_deadline.val };
    let horizon = reach.saturating_sub(other.deadline);
    proof {
        other.rbf.law_demand(horizon@, reach@);
    }
    let steps = other.rbf.steps_iter(horizon);
    let mut i: usize = 0;
    while i < steps.len()
        invariant
            max_offset@ >= 1,
            max_offset@ + tua_deadline@ <= u64::MAX,
            horizon@ == minus(max_offset@ + tua_deadline@, other.deadline@),
            lists_steps(steps@, |delta: nat| other.rbf.releases(delta), horizon@),
            i <= steps.len(),
            offsets@.len() == i,
            forall|m: int|
                0 <= m < i ==> (#[trigger] offsets@[m])@ == shifted(
                    steps@[m]@,
                    other.deadline@,
                    tua_deadline@,
                ),
        decreases steps.len() - i,
    {
        proof {
            assert(steps@[i as int]@ <= horizon@);
        }
        let delta = Offset::closed_from_time_zero(steps[i]);
        let at = Duration { val: delta.val + other.deadline.val };
        offsets.push(at.saturating_sub(tua_deadline));
        i += 1;
    }
    proof {
        let releases = |delta: nat| other.rbf.releases(delta);
        assert forall|m: int, n: int| 0 <= m <= n < offsets@.len() implies offsets@[m]@
            <= offsets@[n]@ by {
            if m < n {
                assert(steps@[m]@ < steps@[n]@);
            }
        }
        assert forall|a: nat|
            holds(offsets@, a) <==> a < max_offset@ && shifts_to(*other, tua_deadline@, a) by {
            if holds(offsets@, a) {
                let m = choose|m: int| 0 <= m < offsets@.len() && (#[trigger] offsets@[m])@ == a;
                assert(steps@[m]@ <= horizon@);
                assert(steps_at(*other, steps@[m]@));
            }
            if a < max_offset@ && shifts_to(*other, tua_deadline@, a) {
                let step = choose|step: nat|
                    #[trigger] steps_at(*other, step) && a == shifted(
                        step,
                        other.deadline@,
                        tua_deadline@,
                    );
                assert(step <= horizon@);
                assert(holds(steps@, step));
                let m = choose|m: int| 0 <= m < steps@.len() && (#[trigger] steps@[m])@ == step;
                assert(offsets@[m]@ == a);
            }
        }
    }
    offsets
}

/// The offsets of the search space below `max_offset`: the merged offsets
/// of the steps of the task under analysis and of the shifted steps of
/// the other tasks.
fn search_space<T: RequestBound, R: RequestBound>(
    tua: &T,
    tua_deadline: Duration,
    others: &[Other<R>],
    max_offset: Duration,
) -> (offsets: Vec<Duration>)
    requires
        tua.wf(),
        tua.admits(max_offset@),
        max_offset@ + tua_deadline@ <= u64::MAX,
        all_ready(others@, max_offset@ + tua_deadline@),
    ensures
        lists_offsets(offsets@, tua, tua_deadline@, others@, max_offset@),
{
    let mut lists: Vec<Vec<Duration>> = Vec::new();
    let mut j: usize = 0;
    while j < others.len()
        invariant
            max_offset@ + tua_deadline@ <= u64::MAX,
            all_ready(others@, max_offset@ + tua_deadline@),
            j <= others.len(),
            lists@.len() == j,
            forall|k: int| 0 <= k < j ==> never_decreasing(#[trigger] lists@[k]@),
            forall|k: int, a: nat|
                0 <= k < j ==> (#[trigger] holds(lists@[k]@, a) <==> a < max_offset@ && shifts_to(
                    others@[k],
                    tua_deadline@,
                    a,
                )),
        decreases others.len() - j,
    {
        lists.push(shifted_offsets(&others[j], tua_deadline, max_offset));
        j += 1;
    }
    let steps = tua.steps_iter(max_offset);
    let mut own: Vec<Duration> = Vec::new();
    let mut i: usize = 0;
    while i < steps.len()
        invariant
            lists_steps(steps@, |delta: nat| tua.releases(delta), max_offset@),
            i <= steps.len(),
            own@.len() == i,
            forall|m: int| 0 <= m < i ==> (#[trigger] own@[m])@ == steps@[m]@ - 1,
        decreases steps.len() - i,
    {
        own.push(Offset::closed_from_time_zero(steps[i]).since_time_zero());
        i += 1;
    }
    proof {
        assert forall|m: int, n: int| 0 <= m <= n < own@.len() implies own@[m]@ <= own@[n]@ by {
            if m < n {
                assert(steps@[m]@ < steps@[n]@);
            }
        }
    }
    let ghost shifted_lists = lists@;
    lists.push(own);
    let offsets = merge_steps(&lists);
    proof {
        let releases = |delta: nat| tua.releases(delta);
        assert forall|k: int| 0 <= k < lists@.len() implies never_decreasing(
            #[trigger] lists@[k]@,
        ) by {
            if k < shifted_lists.len() {
                assert(lists@[k] == shifted_lists[k]);
            }
        }
        assert forall|a: nat|
            #![trigger holds(offsets@, a)]
            #![trigger in_search_space(tua, tua_deadline@, others@, a)]
            holds(offsets@, a) <==> a < max_offset@ && in_search_space(
                tua,
                tua_deadline@,
                others@,
                a,
            ) by {
            if holds(offsets@, a) {
                let k = choose|k: int| 0 <= k < lists@.len() && holds(#[trigger] lists@[k]@, a);
                if k < shifted_lists.len() {
                    assert(lists@[k] == shifted_lists[k]);
                    assert(holds(shifted_lists[k]@, a));
                    assert(shifts_to(others@[k], tua_deadline@, a));
                } else {
                    let m = choose|m: int| 0 <= m < own@.len() && (#[trigger] own@[m])@ == a;
                    assert(steps@[m]@ == a + 1);
                    assert(is_step(releases, a + 1));
                }
            }
            if a < max_offset@ && in_search_space(tua, tua_deadline@, others@, a) {
                if is_step(releases, a + 1) {
                    assert(holds(steps@, a + 1));
                    let m = choose|m: int| 0 <= m < steps@.len() && (#[trigger] steps@[m])@ == a + 1;
                    assert(own@[m]@ == a);
                    assert(holds(lists@[shifted_lists.len() as int]@, a));
                } else {
                    let k = choose|k: int|
                        0 <= k < others@.len() && #[trigger] shifts_to(
                            others@[k],
                            tua_deadline@,
                            a,
                        );
                    assert(holds(shifted_lists[k]@, a));
                    assert(lists@[k] == shifted_lists[k]);
                    assert(holds(lists@[k]@, a));
                }
            }
        }
    }
    offsets
}

/// Bound the response time of a task under earliest-deadline-first
/// scheduling on a dedicated uniprocessor.
///
/// First the busy window is bounded by the demand of everybody. Then,
/// for each offset of the search space within the busy window, the time
/// is found at which a job released there can no longer be preempted:
/// the least time by which the processor has served the blocking by a job
/// with a later deadline, the demand of the task under analysis up to
/// and including the offset less `rem_cost`, and the demand of the jobs of
/// others whose deadline is no later. The bound is the largest distance
/// from an offset to that time, with a floor of zero, plus `rem_cost`. If any
/// search exceeds `limit`, so does the analysis.
#[allow(non_snake_case)]
pub fn busy_window_rta<T: RequestBound, R: RequestBound>(
    tua: &T,
    tua_deadline: Duration,
    others: &[Other<R>],
    rem_cost: Service,
    limit: Duration,
) -> (result: SearchResult)
    requires
        analysable(tua, tua_deadline, others, rem_cost, limit),
    ensures
        analysed(tua, tua_deadline, others, rem_cost, limit, result),
{
    let proc = Dedicated::new();
    let everybody = BusyWindow { tua, others };
    proof {
        assert forall|r: nat| 1 <= r <= limit@ implies #[trigger] everybody.admits(r)
            && proc.admits_demand(everybody.bound(r)) && proc.time_for(everybody.bound(r))
            >= 0 by {
            lemma_all_ready(others@, r, limit@ + tua_deadline@);
            lemma_sum_all_grows(others@, r, limit@);
            tua.law_demand(r, limit@);
        }
    }
    proof {
        lemma_searchable_is_iterable(&proc, &everybody, 0, limit@, 1);
    }
    let L = match search(&proc, limit, &everybody) {
        Ok(L) => L,
        Err(failure) => {
            return Err(failure);
        },
    };
    proof {
        lemma_search_within_limit(&proc, &everybody, limit@, 1);
        tua.law_demand(L@, limit@);
        lemma_all_ready(others@, L@ + tua_deadline@, limit@ + tua_deadline@);
    }
    let offsets = search_space(tua, tua_deadline, others, L);
    let mut results: Vec<SearchResult> = Vec::new();
    let mut i: usize = 0;
    while i < offsets.len()
        invariant
            analysable(tua, tua_deadline, others, rem_cost, limit),
            L@ <= limit@,
            lists_offsets(offsets@, tua, tua_deadline@, others@, L@),
            i <= offsets.len(),
            results@ == responses(tua, tua_deadline, others, rem_cost, limit, offsets@).take(
                i as int,
            ),
        decreases offsets.len() - i,
    {
        let A = Offset::from_time_zero(offsets[i]);
        proof {
            assert(offsets@[i as int]@ == A@);
            assert(holds(offsets@, A@));
            tua.law_demand(A@ + 1, limit@);
            tua.law_demand(1, A@ + 1);
            lemma_blocking(others@, tua_deadline@ + A@, 0);
        }
        let blocking = blocking_bound(
            others,
            Duration { val: tua_deadline.val + A.since_time_zero().val },
        );
        let self_interference = tua.service_needed(A.closed_since_time_zero());
        let fixed = Service { val: blocking.val + (self_interference.val - rem_cost.val) };
        let base = Duration { val: A.closed_since_time_zero().val + tua_deadline.val };
        let rhs = AtOffset { fixed, base, others };
        proof {
            assert(rhs.fixed == Service {
                val: fixed_demand(tua, tua_deadline@, others@, rem_cost, A@) as u64,
            });
            assert(rhs.base == Duration { val: (A@ + 1 + tua_deadline@) as u64 });
            assert forall|r: nat| 1 <= r <= limit@ implies #[trigger] rhs.admits(r)
                && proc.admits_demand(rhs.bound(r)) && proc.time_for(rhs.bound(r)) >= 0 by {
                lemma_all_ready(others@, r, limit@ + tua_deadline@);
                lemma_sums(others@, r, base@, limit@, 0);
            }
            assert(busy_until(tua, tua_deadline, others, rem_cost, limit@, A@) == search_from(
                &proc,
                &rhs,
                0,
                limit@,
                1,
            ));
            lemma_search_within_limit(&proc, &rhs, limit@, 1);
            lemma_searchable_is_iterable(&proc, &rhs, 0, limit@, 1);
        }
        let outcome_at_offset: SearchResult = match search(&proc, limit, &rhs) {
            Ok(AF) => {
                let F = AF.saturating_sub(A.since_time_zero());
                Ok(Duration { val: F.val + rem_cost.val })
            },
            Err(failure) => Err(failure),
        };
        results.push(outcome_at_offset);
        proof {
            let all = responses(tua, tua_deadline, others, rem_cost, limit, offsets@);
            assert(all[i as int] == outcome_at_offset);
            assert(results@ == all.take(i + 1));
        }
        i += 1;
    }
    proof {
        let all = responses(tua, tua_deadline, others, rem_cost, limit, offsets@);
        assert(all.take(i as int) == all);
    }
    max_response_time(results.as_slice())
}

proof fn lemma_all_ready<R: RequestBound>(others: Seq<Other<R>>, shorter: nat, longer: nat)
    requires
        all_ready(others, longer),
        shorter <= longer,
    ensures
        all_ready(others, shorter),
{
    assert forall|j: int| 0 <= j < others.len() implies (#[trigger] others[j]).rbf.wf()
        && others[j].rbf.admits(shorter) by {
        others[j].rbf.law_demand(shorter, longer);
    }
}

proof fn lemma_sum_all_grows<R: RequestBound>(others: Seq<Other<R>>, shorter: nat, longer: nat)
    requires
        forall|j: int| 0 <= j < others.len() ==> (#[trigger] others[j]).rbf.wf(),
        shorter <= longer,
    ensures
        sum_all(others, shorter) <= sum_all(others, longer),
    decreases others.len(),
{
    if others.len() > 0 {
        lemma_sum_all_grows(others.drop_last(), shorter, longer);
        others.last().rbf.law_demand(shorter, longer);
    }
}

} // verus!
