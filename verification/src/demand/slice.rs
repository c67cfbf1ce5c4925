//! The joint demand of a borrowed collection of demand sources.

use vstd::prelude::*;
use super::largest::{
    largest_sum, lemma_largest_sum_of_same_costs, service_values, sum_of_largest, to_services,
    to_values,
};
use super::{AggregateRequestBound, RequestBound};
use crate::arrival::aggregated::merge_steps;
use crate::arrival::{holds, is_step, lists_steps};
use crate::merge::{all_entries, kmerge_times};
use crate::time::{Duration, Service, Time};

verus! {

/// The joint demand of the sources in a slice.
#[derive(Clone, Debug)]
pub struct Slice<'a, T> {
    pub slice: &'a [T],
}

/// The joint demand of all `parts` in an interval of length `delta`.
pub open spec fn sum_demand<T: RequestBound>(parts: Seq<T>, delta: nat) -> nat
    decreases parts.len(),
{
    if parts.len() == 0 {
        0
    } else {
        sum_demand(parts.drop_last(), delta) + parts.last().demand(delta)
    }
}

/// The joint releases of all `parts` in an interval of length `delta`.
pub open spec fn sum_releases<T: RequestBound>(parts: Seq<T>, delta: nat) -> nat
    decreases parts.len(),
{
    if parts.len() == 0 {
        0
    } else {
        sum_releases(parts.drop_last(), delta) + parts.last().releases(delta)
    }
}

/// The least of the least job costs of all `parts`, zero if there is no part.
pub open spec fn min_least_cost<T: RequestBound>(parts: Seq<T>, delta: nat) -> nat
    decreases parts.len(),
{
    if parts.len() == 0 {
        0
    } else if parts.len() == 1 {
        parts.last().least_cost(delta)
    } else {
        let before = min_least_cost(parts.drop_last(), delta);
        if parts.last().least_cost(delta) < before {
            parts.last().least_cost(delta)
        } else {
            before
        }
    }
}

/// The costs of the jobs that all `parts` release in an interval of length
/// `delta`, part by part.
pub open spec fn all_job_costs<T: RequestBound>(parts: Seq<T>, delta: nat) -> Seq<Time>
    decreases parts.len(),
{
    if parts.len() == 0 {
        Seq::empty()
    } else {
        all_job_costs(parts.drop_last(), delta) + parts.last().job_costs(delta)
    }
}

/// The service that the `max_jobs` costliest jobs of each part need in an
/// interval of length `delta`, summed over the parts.
pub open spec fn sum_largest<T: RequestBound>(parts: Seq<T>, delta: nat, max_jobs: nat) -> nat
    decreases parts.len(),
{
    if parts.len() == 0 {
        0
    } else {
        sum_largest(parts.drop_last(), delta, max_jobs) + largest_sum(
            parts.last().job_costs(delta),
            max_jobs,
        )
    }
}

/// Every one of the `parts` is a proper demand source.
pub open spec fn all_wf<T: RequestBound>(parts: Seq<T>) -> bool {
    forall|k: int| 0 <= k < parts.len() ==> (#[trigger] parts[k]).wf()
}

/// The demand of every part, and the joint demand, can be computed at `delta`.
pub open spec fn all_admit<T: RequestBound>(parts: Seq<T>, delta: nat) -> bool {
    &&& forall|k: int| 0 <= k < parts.len() ==> (#[trigger] parts[k]).admits(delta)
    &&& sum_demand(parts, delta) <= u64::MAX
}

/// The joint demand of the first parts is among the joint demand of all.
pub proof fn lemma_sum_demand_prefix<T: RequestBound>(parts: Seq<T>, k: int, delta: nat)
    requires
        0 <= k < parts.len(),
    ensures
        sum_demand(parts.take(k + 1), delta) == sum_demand(parts.take(k), delta)
            + parts[k].demand(delta),
        sum_demand(parts.take(k + 1), delta) <= sum_demand(parts, delta),
    decreases parts.len(),
{
    assert(parts.take(k + 1).drop_last() == parts.take(k));
    if k + 1 < parts.len() {
        let before = parts.drop_last();
        lemma_sum_demand_prefix(before, k, delta);
        assert(before.take(k + 1) == parts.take(k + 1));
        assert(before.take(k) == parts.take(k));
    } else {
        assert(parts.take(k + 1) == parts);
    }
}

/// The joint demand and the joint releases are proper bounds, and the joint
/// releases grow exactly where the releases of a part grow.
pub proof fn lemma_sum_demand<T: RequestBound>(parts: Seq<T>, shorter: nat, longer: nat)
    requires
        all_wf(parts),
        shorter <= longer,
    ensures
        sum_demand(parts, 0) == 0,
        sum_releases(parts, 0) == 0,
        sum_demand(parts, shorter) <= sum_demand(parts, longer),
        sum_releases(parts, shorter) <= sum_releases(parts, longer),
        all_admit(parts, longer) ==> all_admit(parts, shorter),
        is_step(|delta: nat| sum_releases(parts, delta), longer) <==> exists|k: int|
            0 <= k < parts.len() && is_step(|delta: nat| (#[trigger] parts[k]).releases(delta), longer),
    decreases parts.len(),
{
    if parts.len() > 0 {
        let before = parts.drop_last();
        let last = parts.last();
        lemma_sum_demand(before, shorter, longer);
        last.law_demand(shorter, longer);
        if longer >= 1 {
            lemma_sum_demand(before, (longer - 1) as nat, longer);
            last.law_demand((longer - 1) as nat, longer);
        }
        if all_admit(parts, longer) {
            assert forall|k: int| 0 <= k < parts.len() implies (#[trigger] parts[k]).admits(
                shorter,
            ) by {
                parts[k].law_demand(shorter, longer);
            }
        }
        if is_step(|delta: nat| sum_releases(parts, delta), longer) {
            if is_step(|delta: nat| sum_releases(before, delta), longer) {
                let k = choose|k: int|
                    0 <= k < before.len() && is_step(
                        |delta: nat| (#[trigger] before[k]).releases(delta),
                        longer,
                    );
                assert(parts[k] == before[k]);
            } else {
                assert(is_step(|delta: nat| parts[parts.len() - 1].releases(delta), longer));
            }
        }
        if exists|k: int|
            0 <= k < parts.len() && is_step(
                |delta: nat| (#[trigger] parts[k]).releases(delta),
                longer,
            ) {
            let k = choose|k: int|
                0 <= k < parts.len() && is_step(
                    |delta: nat| (#[trigger] parts[k]).releases(delta),
                    longer,
                );
            if k < before.len() {
                assert(before[k] == parts[k]);
                assert(is_step(|delta: nat| sum_releases(before, delta), longer));
            }
        }
    }
}

/// The joint demand of the `parts` in an interval of length `delta`.
pub fn total_service_needed<T: RequestBound>(parts: &[T], delta: Duration) -> (s: Service)
    requires
        all_wf(parts@),
        all_admit(parts@, delta@),
    ensures
        s@ == sum_demand(parts@, delta@),
{
    let mut total: u64 = 0;
    let mut k: usize = 0;
    while k < parts.len()
        invariant
            all_wf(parts@),
            all_admit(parts@, delta@),
            k <= parts.len(),
            total == sum_demand(parts@.take(k as int), delta@),
        decreases parts.len() - k,
    {
        proof {
            lemma_sum_demand_prefix(parts@, k as int, delta@);
        }
        total = total + parts[k].service_needed(delta).val;
        k += 1;
    }
    proof {
        assert(parts@.take(k as int) == parts@);
    }
    Service { val: total }
}

/// The least of the least job costs of the `parts` in an interval of
/// length `delta`, zero if there is no part.
pub fn least_wcet_of<T: RequestBound>(parts: &[T], delta: Duration) -> (s: Service)
    requires
        all_wf(parts@),
        all_admit(parts@, delta@),
    ensures
        s@ == min_least_cost(parts@, delta@),
{
    if parts.len() == 0 {
        return Service::none();
    }
    proof {
        assert(parts@.take(1).drop_last() == parts@.take(0));
    }
    let mut least = parts[0].least_wcet_in_interval(delta);
    let mut k: usize = 1;
    while k < parts.len()
        invariant
            all_wf(parts@),
            all_admit(parts@, delta@),
            1 <= k <= parts.len(),
            least@ == min_least_cost(parts@.take(k as int), delta@),
        decreases parts.len() - k,
    {
        proof {
            assert(parts@.take(k + 1).drop_last() == parts@.take(k as int));
        }
        let here = parts[k].least_wcet_in_interval(delta);
        if here.val < least.val {
            least = here;
        }
        k += 1;
    }
    proof {
        assert(parts@.take(k as int) == parts@);
    }
    least
}

/// The steps of the joint releases of the `parts` up to `horizon`: the
/// merged steps of the parts.
pub fn joint_steps<T: RequestBound>(parts: &[T], horizon: Duration) -> (steps: Vec<Duration>)
    requires
        all_wf(parts@),
        all_admit(parts@, horizon@),
    ensures
        lists_steps(steps@, |delta: nat| sum_releases(parts@, delta), horizon@),
{
    let mut lists: Vec<Vec<Duration>> = Vec::new();
    let mut k: usize = 0;
    while k < parts.len()
        invariant
            all_wf(parts@),
            all_admit(parts@, horizon@),
            k <= parts.len(),
            lists@.len() == k,
            forall|m: int|
                0 <= m < k ==> lists_steps(
                    (#[trigger] lists@[m])@,
                    |delta: nat| parts@[m].releases(delta),
                    horizon@,
                ),
        decreases parts.len() - k,
    {
        lists.push(parts[k].steps_iter(horizon));
        k += 1;
    }
    let steps = merge_steps(&lists);
    proof {
        let joint = |delta: nat| sum_releases(parts@, delta);
        assert forall|i: int| 0 <= i < steps@.len() implies (#[trigger] steps@[i])@ <= horizon@
            && is_step(joint, steps@[i]@) by {
            let delta = steps@[i]@;
            assert(holds(steps@, delta));
            let m = choose|m: int| 0 <= m < lists@.len() && holds(#[trigger] lists@[m]@, delta);
            let j = choose|j: int| 0 <= j < lists@[m]@.len() && (#[trigger] lists@[m]@[j])@ == delta;
            assert(is_step(|delta: nat| parts@[m].releases(delta), delta));
            lemma_sum_demand(parts@, delta, delta);
        }
        assert forall|delta: nat|
            delta <= horizon@ && #[trigger] is_step(joint, delta) implies holds(steps@, delta) by {
            lemma_sum_demand(parts@, delta, delta);
            let m = choose|m: int|
                0 <= m < parts@.len() && is_step(
                    |delta: nat| (#[trigger] parts@[m]).releases(delta),
                    delta,
                );
            assert(holds(lists@[m]@, delta));
        }
    }
    steps
}

/// The costs of the jobs that the `parts` release in an interval of length
/// `delta`, merged.
pub fn joint_job_costs<T: RequestBound>(parts: &[T], delta: Duration) -> (costs: Vec<Service>)
    requires
        all_wf(parts@),
        all_admit(parts@, delta@),
    ensures
        service_values(costs@).to_multiset() == all_job_costs(parts@, delta@).to_multiset(),
{
    let mut lists: Vec<Vec<Time>> = Vec::new();
    let mut k: usize = 0;
    proof {
        broadcast use vstd::seq_lib::group_to_multiset_ensures;
        broadcast use vstd::multiset::group_multiset_axioms;

        assert(all_job_costs(parts@.take(0), delta@) =~= Seq::<Time>::empty());
        assert(Seq::<Time>::empty().to_multiset() =~= vstd::multiset::Multiset::empty());
    }
    while k < parts.len()
        invariant
            all_wf(parts@),
            all_admit(parts@, delta@),
            k <= parts.len(),
            lists@.len() == k,
            all_entries(lists@) == all_job_costs(parts@.take(k as int), delta@).to_multiset(),
        decreases parts.len() - k,
    {
        let part = parts[k].job_cost_iter(delta);
        let values = to_values(&part);
        let ghost before = lists@;
        lists.push(values);
        proof {
            assert(lists@.drop_last() == before);
            assert(parts@.take(k + 1).drop_last() == parts@.take(k as int));
            vstd::seq_lib::lemma_multiset_commutative(
                all_job_costs(parts@.take(k as int), delta@),
                parts@[k as int].job_costs(delta@),
            );
        }
        k += 1;
    }
    proof {
        assert(parts@.take(k as int) == parts@);
    }
    let merged = kmerge_times(lists);
    to_services(&merged)
}

/// The service that the `max_jobs` costliest jobs of each part need in an
/// interval of length `delta`, summed over the parts.
pub fn largest_per_component<T: RequestBound>(parts: &[T], delta: Duration, max_jobs: usize) -> (s:
    Service)
    requires
        all_wf(parts@),
        all_admit(parts@, delta@),
        sum_largest(parts@, delta@, max_jobs as nat) <= u64::MAX,
    ensures
        s@ == sum_largest(parts@, delta@, max_jobs as nat),
{
    let mut total: u64 = 0;
    let mut k: usize = 0;
    while k < parts.len()
        invariant
            all_wf(parts@),
            all_admit(parts@, delta@),
            sum_largest(parts@, delta@, max_jobs as nat) <= u64::MAX,
            k <= parts.len(),
            total == sum_largest(parts@.take(k as int), delta@, max_jobs as nat),
        decreases parts.len() - k,
    {
        proof {
            lemma_sum_largest_prefix(parts@, k as int, delta@, max_jobs as nat);
        }
        total = total + parts[k].service_needed_by_n_jobs(delta, max_jobs).val;
        k += 1;
    }
    proof {
        assert(parts@.take(k as int) == parts@);
    }
    Service { val: total }
}

proof fn lemma_sum_largest_prefix<T: RequestBound>(parts: Seq<T>, k: int, delta: nat, max_jobs: nat)
    requires
        0 <= k < parts.len(),
    ensures
        sum_largest(parts.take(k + 1), delta, max_jobs) == sum_largest(
            parts.take(k),
            delta,
            max_jobs,
        ) + largest_sum(parts[k].job_costs(delta), max_jobs),
        sum_largest(parts.take(k + 1), delta, max_jobs) <= sum_largest(parts, delta, max_jobs),
    decreases parts.len(),
{
    assert(parts.take(k + 1).drop_last() == parts.take(k));
    if k + 1 < parts.len() {
        let before = parts.drop_last();
        lemma_sum_largest_prefix(before, k, delta, max_jobs);
        assert(before.take(k + 1) == parts.take(k + 1));
        assert(before.take(k) == parts.take(k));
    } else {
        assert(parts.take(k + 1) == parts);
    }
}

impl<'a, T> Slice<'a, T> {
    /// The joint demand of the sources in `slice`.
    pub fn of(slice: &'a [T]) -> (joint: Self)
        ensures
            joint.slice == slice,
    {
        Slice { slice }
    }
}

impl<'a, T: RequestBound> RequestBound for Slice<'a, T> {
    open spec fn wf(&self) -> bool {
        all_wf(self.slice@)
    }

    open spec fn releases(&self, delta: nat) -> nat {
        sum_releases(self.slice@, delta)
    }

    open spec fn demand(&self, delta: nat) -> nat {
        sum_demand(self.slice@, delta)
    }

    open spec fn least_cost(&self, delta: nat) -> nat {
        min_least_cost(self.slice@, delta)
    }

    open spec fn admits(&self, delta: nat) -> bool {
        all_admit(self.slice@, delta)
    }

    open spec fn job_costs(&self, delta: nat) -> Seq<Time> {
        all_job_costs(self.slice@, delta)
    }

    fn service_needed_by_n_jobs(&self, delta: Duration, max_jobs: usize) -> (s: Service) {
        let costs = self.job_cost_iter(delta);
        proof {
            lemma_largest_sum_of_same_costs(
                service_values(costs@),
                self.job_costs(delta@),
                max_jobs as nat,
            );
        }
        sum_of_largest(&costs, max_jobs)
    }

    fn job_cost_iter(&self, delta: Duration) -> (costs: Vec<Service>) {
        joint_job_costs(self.slice, delta)
    }

    fn service_needed(&self, delta: Duration) -> (s: Service) {
        total_service_needed(self.slice, delta)
    }

    fn least_wcet_in_interval(&self, delta: Duration) -> (s: Service) {
        least_wcet_of(self.slice, delta)
    }

    fn steps_iter(&self, horizon: Duration) -> (steps: Vec<Duration>) {
        let steps = joint_steps(self.slice, horizon);
        proof {
            assert((|delta: nat| self.releases(delta)) == (|delta: nat|
                sum_releases(self.slice@, delta)));
        }
        steps
    }

    proof fn law_demand(&self, shorter: nat, longer: nat) {
        lemma_sum_demand(self.slice@, shorter, longer);
    }
}

impl<'a, T: RequestBound> AggregateRequestBound for Slice<'a, T> {
    open spec fn demand_per_component(&self, delta: nat, max_jobs: nat) -> nat {
        sum_largest(self.slice@, delta, max_jobs)
    }

    open spec fn admits_per_component(&self, delta: nat, max_jobs: nat) -> bool {
        all_admit(self.slice@, delta) && sum_largest(self.slice@, delta, max_jobs) <= u64::MAX
    }

    fn service_needed_by_n_jobs_per_component(&self, delta: Duration, max_jobs: usize) -> (s:
        Service) {
        largest_per_component(self.slice, delta, max_jobs)
    }
}

} // verus!
