//! Sums of arrival bounds: the joint arrivals of several processes.

use vstd::prelude::*;
use super::{holds, increasing, is_step, lists_steps, ArrivalBound, ArrivalModel};
use crate::merge::{
    ascending, dedup_times, kmerge_times, lemma_all_entries_contains,
    lemma_merged_contains, lemma_without_repeats, merge_times, strictly_ascending,
};
use crate::time::{Duration, Time};

verus! {

/// The plain time values of a list of interval lengths.
pub fn to_times(list: &Vec<Duration>) -> (times: Vec<Time>)
    ensures
        times@.len() == list@.len(),
        forall|i: int|
            #![trigger times@[i]]
            #![trigger list@[i]]
            0 <= i < list@.len() ==> times@[i] == list@[i].val,
{
    let mut times: Vec<Time> = Vec::new();
    let mut i: usize = 0;
    while i < list.len()
        invariant
            i <= list.len(),
            times@.len() == i,
            forall|j: int|
                #![trigger times@[j]]
                #![trigger list@[j]]
                0 <= j < i ==> times@[j] == list@[j].val,
        decreases list.len() - i,
    {
        times.push(list[i].val);
        i += 1;
    }
    times
}

/// The interval lengths with the given plain time values.
pub fn to_durations(times: &Vec<Time>) -> (list: Vec<Duration>)
    ensures
        list@.len() == times@.len(),
        forall|i: int|
            #![trigger times@[i]]
            #![trigger list@[i]]
            0 <= i < times@.len() ==> list@[i].val == times@[i],
{
    let mut list: Vec<Duration> = Vec::new();
    let mut i: usize = 0;
    while i < times.len()
        invariant
            i <= times.len(),
            list@.len() == i,
            forall|j: int|
                #![trigger times@[j]]
                #![trigger list@[j]]
                0 <= j < i ==> list@[j].val == times@[j],
        decreases times.len() - i,
    {
        list.push(Duration { val: times[i] });
        i += 1;
    }
    list
}

/// Drop the repeated values of an ascending list of time values and hand
/// them back as interval lengths.
fn unique_steps(merged: Vec<Time>) -> (steps: Vec<Duration>)
    requires
        ascending(merged@),
    ensures
        increasing(steps@),
        forall|delta: nat|
            holds(steps@, delta) <==> exists|i: int|
                0 <= i < merged@.len() && #[trigger] merged@[i] == delta,
{
    proof {
        lemma_without_repeats(merged@);
    }
    let ghost before = merged@;
    let unique = dedup_times(merged);
    let steps = to_durations(&unique);
    proof {
        assert forall|delta: nat|
            holds(steps@, delta) <==> exists|i: int|
                0 <= i < before.len() && #[trigger] before[i] == delta by {
            if holds(steps@, delta) {
                let i = choose|i: int| 0 <= i < steps@.len() && (#[trigger] steps@[i])@ == delta;
                assert(unique@[i] == delta);
                assert(unique@.contains(unique@[i]));
                assert(before.contains(unique@[i]));
            }
            if exists|i: int| 0 <= i < before.len() && #[trigger] before[i] == delta {
                let i = choose|i: int| 0 <= i < before.len() && #[trigger] before[i] == delta;
                assert(before.contains(before[i]));
                assert(unique@.contains(before[i]));
                let j = choose|j: int| 0 <= j < unique@.len() && unique@[j] == before[i];
                assert(steps@[j]@ == delta);
            }
        }
        assert(strictly_ascending(unique@));
    }
    steps
}

/// The entries of `steps` never decrease.
pub open spec fn never_decreasing(steps: Seq<Duration>) -> bool {
    forall|i: int, j: int| 0 <= i <= j < steps.len() ==> steps[i]@ <= steps[j]@
}

/// Merge lists of steps, none of which ever decreases, into one list in
/// increasing order that holds a step exactly if one of the lists does.
pub fn merge_steps(lists: &Vec<Vec<Duration>>) -> (steps: Vec<Duration>)
    requires
        forall|k: int| 0 <= k < lists@.len() ==> never_decreasing(#[trigger] lists@[k]@),
    ensures
        increasing(steps@),
        forall|delta: nat|
            holds(steps@, delta) <==> exists|k: int|
                0 <= k < lists@.len() && holds(#[trigger] lists@[k]@, delta),
{
    let mut plain: Vec<Vec<Time>> = Vec::new();
    let mut k: usize = 0;
    while k < lists.len()
        invariant
            k <= lists.len(),
            plain@.len() == k,
            forall|m: int|
                0 <= m < k ==> (#[trigger] plain@[m])@.len() == lists@[m]@.len() && forall|i: int|
                    #![trigger plain@[m]@[i]]
                    #![trigger lists@[m]@[i]]
                    0 <= i < lists@[m]@.len() ==> plain@[m]@[i] == lists@[m]@[i].val,
        decreases lists.len() - k,
    {
        plain.push(to_times(&lists[k]));
        k += 1;
    }
    let ghost sources = plain@;
    proof {
        assert forall|m: int| 0 <= m < sources.len() implies ascending(
            #[trigger] sources[m]@,
        ) by {
            assert(never_decreasing(lists@[m]@));
        }
    }
    let merged = kmerge_times(plain);
    let steps = unique_steps(merged);
    proof {
        broadcast use vstd::seq_lib::group_to_multiset_ensures;
        broadcast use vstd::multiset::group_multiset_axioms;

        assert forall|delta: nat|
            holds(steps@, delta) <==> exists|k: int|
                0 <= k < lists@.len() && holds(#[trigger] lists@[k]@, delta) by {
            if holds(steps@, delta) {
                let i = choose|i: int| 0 <= i < merged@.len() && #[trigger] merged@[i] == delta;
                assert(merged@.contains(merged@[i]));
                lemma_all_entries_contains(sources, merged@[i]);
                let m = choose|m: int|
                    0 <= m < sources.len() && (#[trigger] sources[m])@.contains(merged@[i]);
                let j = choose|j: int| 0 <= j < sources[m]@.len() && sources[m]@[j] == merged@[i];
                assert(lists@[m]@[j]@ == delta);
                assert(holds(lists@[m]@, delta));
            }
            if exists|k: int| 0 <= k < lists@.len() && holds(#[trigger] lists@[k]@, delta) {
                let m = choose|k: int| 0 <= k < lists@.len() && holds(#[trigger] lists@[k]@, delta);
                let j = choose|j: int|
                    0 <= j < lists@[m]@.len() && (#[trigger] lists@[m]@[j])@ == delta;
                assert(sources[m]@[j] == delta);
                assert(sources[m]@.contains(sources[m]@[j]));
                lemma_all_entries_contains(sources, sources[m]@[j]);
                assert(merged@.contains(sources[m]@[j]));
                let i = choose|i: int| 0 <= i < merged@.len() && merged@[i] == sources[m]@[j];
                assert(merged@[i] == delta);
            }
        }
    }
    steps
}

/// Merge two lists of steps, each in increasing order, into one list in
/// increasing order that holds a step exactly if one of the two does.
pub fn merge_two_steps(a: &Vec<Duration>, b: &Vec<Duration>) -> (steps: Vec<Duration>)
    requires
        increasing(a@),
        increasing(b@),
    ensures
        increasing(steps@),
        forall|delta: nat| holds(steps@, delta) <==> holds(a@, delta) || holds(b@, delta),
{
    let left = to_times(a);
    let right = to_times(b);
    let ghost l = left@;
    let ghost r = right@;
    let merged = merge_times(left, right);
    let steps = unique_steps(merged);
    proof {
        broadcast use vstd::seq_lib::group_to_multiset_ensures;
        broadcast use vstd::multiset::group_multiset_axioms;

        assert forall|delta: nat|
            holds(steps@, delta) <==> holds(a@, delta) || holds(b@, delta) by {
            lemma_merged_contains(merged@, l, r, delta as Time);
            if holds(steps@, delta) {
                let i = choose|i: int| 0 <= i < merged@.len() && #[trigger] merged@[i] == delta;
                assert(merged@.contains(merged@[i]));
                if l.contains(merged@[i]) {
                    let j = choose|j: int| 0 <= j < l.len() && l[j] == merged@[i];
                    assert(a@[j]@ == delta);
                } else {
                    assert(r.contains(merged@[i]));
                    let j = choose|j: int| 0 <= j < r.len() && r[j] == merged@[i];
                    assert(b@[j]@ == delta);
                }
            }
            if holds(a@, delta) {
                let j = choose|j: int| 0 <= j < a@.len() && (#[trigger] a@[j])@ == delta;
                assert(l.contains(l[j]));
                assert(merged@.contains(l[j]));
                let i = choose|i: int| 0 <= i < merged@.len() && merged@[i] == l[j];
                assert(merged@[i] == delta);
            }
            if holds(b@, delta) {
                let j = choose|j: int| 0 <= j < b@.len() && (#[trigger] b@[j])@ == delta;
                assert(r.contains(r[j]));
                assert(merged@.contains(r[j]));
                let i = choose|i: int| 0 <= i < merged@.len() && merged@[i] == r[j];
                assert(merged@[i] == delta);
            }
        }
    }
    steps
}

/// The joint arrivals of all `parts` in an interval of length `delta`.
pub open spec fn sum_arrivals<T: ArrivalBound>(parts: Seq<T>, delta: nat) -> nat
    decreases parts.len(),
{
    if parts.len() == 0 {
        0
    } else {
        sum_arrivals(parts.drop_last(), delta) + parts.last().arrivals(delta)
    }
}

/// The bound of every one of the `parts` can be computed at `delta`.
pub open spec fn all_admit<T: ArrivalBound>(parts: Seq<T>, delta: nat) -> bool {
    forall|k: int| 0 <= k < parts.len() ==> (#[trigger] parts[k]).admits(delta)
}

/// Every one of the `parts` is a proper arrival bound.
pub open spec fn all_wf<T: ArrivalBound>(parts: Seq<T>) -> bool {
    forall|k: int| 0 <= k < parts.len() ==> (#[trigger] parts[k]).wf()
}

/// The joint arrivals of the first parts, and of any single part, are
/// among the joint arrivals of all.
pub proof fn lemma_sum_arrivals_prefix<T: ArrivalBound>(parts: Seq<T>, k: int, delta: nat)
    requires
        0 <= k < parts.len(),
    ensures
        sum_arrivals(parts.take(k + 1), delta) == sum_arrivals(parts.take(k), delta)
            + parts[k].arrivals(delta),
        sum_arrivals(parts.take(k + 1), delta) <= sum_arrivals(parts, delta),
        parts[k].arrivals(delta) <= sum_arrivals(parts, delta),
    decreases parts.len(),
{
    assert(parts.take(k + 1).drop_last() == parts.take(k));
    if k + 1 < parts.len() {
        let before = parts.drop_last();
        lemma_sum_arrivals_prefix(before, k, delta);
        assert(before.take(k + 1) == parts.take(k + 1));
        assert(before.take(k) == parts.take(k));
    } else {
        assert(parts.take(k + 1) == parts);
    }
}

/// The joint arrivals are a proper bound, and they grow exactly where the
/// arrivals of a part grow.
pub proof fn lemma_sum_arrivals<T: ArrivalBound>(parts: Seq<T>, shorter: nat, longer: nat)
    requires
        all_wf(parts),
        shorter <= longer,
    ensures
        sum_arrivals(parts, 0) == 0,
        sum_arrivals(parts, shorter) <= sum_arrivals(parts, longer),
        is_step(|delta: nat| sum_arrivals(parts, delta), longer) <==> exists|k: int|
            0 <= k < parts.len() && is_step(|delta: nat| (#[trigger] parts[k]).arrivals(delta), longer),
    decreases parts.len(),
{
    if parts.len() > 0 {
        let before = parts.drop_last();
        let last = parts.last();
        lemma_sum_arrivals(before, shorter, longer);
        last.law_arrivals(shorter, longer);
        if longer >= 1 {
            lemma_sum_arrivals(before, (longer - 1) as nat, longer);
            last.law_arrivals((longer - 1) as nat, longer);
        }
        if is_step(|delta: nat| sum_arrivals(parts, delta), longer) {
            if is_step(|delta: nat| sum_arrivals(before, delta), longer) {
                let k = choose|k: int|
                    0 <= k < before.len() && is_step(
                        |delta: nat| (#[trigger] before[k]).arrivals(delta),
                        longer,
                    );
                assert(parts[k] == before[k]);
            } else {
                assert(is_step(|delta: nat| parts[parts.len() - 1].arrivals(delta), longer));
            }
        }
        if exists|k: int|
            0 <= k < parts.len() && is_step(
                |delta: nat| (#[trigger] parts[k]).arrivals(delta),
                longer,
            ) {
            let k = choose|k: int|
                0 <= k < parts.len() && is_step(
                    |delta: nat| (#[trigger] parts[k]).arrivals(delta),
                    longer,
                );
            if k < before.len() {
                assert(before[k] == parts[k]);
                assert(is_step(|delta: nat| sum_arrivals(before, delta), longer));
            }
        }
    }
}

impl<T: ArrivalBound> ArrivalBound for Vec<T> {
    open spec fn wf(&self) -> bool {
        all_wf(self@)
    }

    open spec fn arrivals(&self, delta: nat) -> nat {
        sum_arrivals(self@, delta)
    }

    open spec fn admits(&self, delta: nat) -> bool {
        all_admit(self@, delta)
    }

    fn number_arrivals(&self, delta: Duration) -> (n: usize) {
        let mut total: usize = 0;
        let mut k: usize = 0;
        while k < self.len()
            invariant
                all_wf(self@),
                all_admit(self@, delta@),
                sum_arrivals(self@, delta@) <= usize::MAX,
                k <= self.len(),
                total == sum_arrivals(self@.take(k as int), delta@),
            decreases self.len() - k,
        {
            proof {
                lemma_sum_arrivals_prefix(self@, k as int, delta@);
            }
            total = total + self[k].number_arrivals(delta);
            k += 1;
        }
        proof {
            assert(self@.take(k as int) == self@);
        }
        total
    }

    fn duplicate(&self) -> (copy: Self) {
        let mut copy: Vec<T> = Vec::new();
        let mut k: usize = 0;
        while k < self.len()
            invariant
                all_wf(self@),
                k <= self.len(),
                copy@.len() == k,
                all_wf(copy@),
                forall|delta: nat|
                    #[trigger] sum_arrivals(copy@, delta) == sum_arrivals(
                        self@.take(k as int),
                        delta,
                    ),
                forall|m: int, delta: nat|
                    0 <= m < k ==> #[trigger] copy@[m].admits(delta) == self@[m].admits(delta),
            decreases self.len() - k,
        {
            let ghost before = copy@;
            let part = self[k].duplicate();
            copy.push(part);
            proof {
                assert(copy@.drop_last() == before);
                assert forall|delta: nat| #[trigger]
                    sum_arrivals(copy@, delta) == sum_arrivals(self@.take(k + 1), delta) by {
                    lemma_sum_arrivals_prefix(self@, k as int, delta);
                    assert(sum_arrivals(before, delta) == sum_arrivals(
                        self@.take(k as int),
                        delta,
                    ));
                }
                assert forall|m: int| 0 <= m < copy@.len() implies (#[trigger] copy@[m]).wf() by {
                    if m < before.len() {
                        assert(copy@[m] == before[m]);
                    }
                }
                assert forall|m: int, delta: nat| 0 <= m < k + 1 implies #[trigger] copy@[m].admits(
                    delta,
                ) == self@[m].admits(delta) by {
                    if m < before.len() {
                        assert(copy@[m] == before[m]);
                    }
                }
            }
            k += 1;
        }
        proof {
            assert(self@.take(k as int) == self@);
            assert forall|delta: nat| #[trigger] copy.admits(delta) == self.admits(delta) by {
                if self.admits(delta) {
                    assert forall|m: int| 0 <= m < copy@.len() implies (#[trigger] copy@[m]).admits(
                        delta,
                    ) by {
                        assert(copy@[m].admits(delta) == self@[m].admits(delta));
                    }
                }
                if copy.admits(delta) {
                    assert forall|m: int| 0 <= m < self@.len() implies (#[trigger] self@[m]).admits(
                        delta,
                    ) by {
                        assert(copy@[m].admits(delta) == self@[m].admits(delta));
                    }
                }
            }
        }
        copy
    }

    proof fn law_arrivals(&self, shorter: nat, longer: nat) {
        lemma_sum_arrivals(self@, shorter, longer);
        if self.admits(longer) {
            assert forall|k: int| 0 <= k < self@.len() implies (#[trigger] self@[k]).admits(
                shorter,
            ) by {
                self@[k].law_arrivals(shorter, longer);
            }
        }
    }
}

impl<T: ArrivalModel> ArrivalModel for Vec<T> {
    type Jittered = Vec<T::Jittered>;

    fn steps_iter(&self, horizon: Duration) -> (steps: Vec<Duration>) {
        let mut lists: Vec<Vec<Duration>> = Vec::new();
        let mut k: usize = 0;
        while k < self.len()
            invariant
                all_wf(self@),
                all_admit(self@, horizon@),
                sum_arrivals(self@, horizon@) <= usize::MAX,
                k <= self.len(),
                lists@.len() == k,
                forall|m: int|
                    0 <= m < k ==> lists_steps(
                        (#[trigger] lists@[m])@,
                        |delta: nat| self@[m].arrivals(delta),
                        horizon@,
                    ),
            decreases self.len() - k,
        {
            proof {
                lemma_sum_arrivals_prefix(self@, k as int, horizon@);
            }
            lists.push(self[k].steps_iter(horizon));
            k += 1;
        }
        let steps = merge_steps(&lists);
        proof {
            let joint = |delta: nat| self.arrivals(delta);
            assert(joint == (|delta: nat| sum_arrivals(self@, delta)));
            assert forall|i: int| 0 <= i < steps@.len() implies (#[trigger] steps@[i])@
                <= horizon@ && is_step(joint, steps@[i]@) by {
                let delta = steps@[i]@;
                assert(holds(steps@, delta));
                let m = choose|m: int| 0 <= m < lists@.len() && holds(#[trigger] lists@[m]@, delta);
                let j = choose|j: int|
                    0 <= j < lists@[m]@.len() && (#[trigger] lists@[m]@[j])@ == delta;
                assert(is_step(|delta: nat| self@[m].arrivals(delta), delta));
                lemma_sum_arrivals(self@, delta, delta);
            }
            assert forall|delta: nat|
                delta <= horizon@ && #[trigger] is_step(joint, delta) implies holds(
                steps@,
                delta,
            ) by {
                lemma_sum_arrivals(self@, delta, delta);
                let m = choose|m: int|
                    0 <= m < self@.len() && is_step(
                        |delta: nat| (#[trigger] self@[m]).arrivals(delta),
                        delta,
                    );
                assert(holds(lists@[m]@, delta));
            }
        }
        steps
    }

    open spec fn admits_jitter(&self, jitter: nat) -> bool {
        forall|k: int| 0 <= k < self@.len() ==> (#[trigger] self@[k]).admits_jitter(jitter)
    }

    fn clone_with_jitter(&self, jitter: Duration) -> (ab: Vec<T::Jittered>) {
        let mut cloned: Vec<T::Jittered> = Vec::new();
        let mut k: usize = 0;
        while k < self.len()
            invariant
                all_wf(self@),
                self.admits_jitter(jitter@),
                k <= self.len(),
                cloned@.len() == k,
                all_wf(cloned@),
                forall|delta: nat|
                    #[trigger] sum_arrivals(cloned@, delta) == if delta > 0 {
                        sum_arrivals(self@.take(k as int), delta + jitter@)
                    } else {
                        0
                    },
            decreases self.len() - k,
        {
            let ghost before = cloned@;
            let part = self[k].clone_with_jitter(jitter);
            cloned.push(part);
            proof {
                assert(cloned@.drop_last() == before);
                assert forall|delta: nat|
                    #[trigger] sum_arrivals(cloned@, delta) == if delta > 0 {
                        sum_arrivals(self@.take(k + 1), delta + jitter@)
                    } else {
                        0
                    } by {
                    lemma_sum_arrivals_prefix(self@, k as int, delta + jitter@);
                    assert(sum_arrivals(before, delta) == if delta > 0 {
                        sum_arrivals(self@.take(k as int), delta + jitter@)
                    } else {
                        0
                    });
                }
                assert forall|m: int| 0 <= m < cloned@.len() implies (#[trigger] cloned@[m]).wf() by {
                    if m < before.len() {
                        assert(cloned@[m] == before[m]);
                    }
                }
            }
            k += 1;
        }
        proof {
            assert(self@.take(k as int) == self@);
        }
        cloned
    }
}

/// The sum of two arrival bounds.
#[derive(Clone, Debug)]
pub struct SumOf<AB1: ArrivalBound, AB2: ArrivalBound>(pub AB1, pub AB2);

/// The sum of two arrival bounds: the bound on their joint arrivals.
pub fn sum_of<AB1: ArrivalBound, AB2: ArrivalBound>(ab1: AB1, ab2: AB2) -> (sum: SumOf<AB1, AB2>)
    ensures
        sum.0 == ab1,
        sum.1 == ab2,
{
    SumOf(ab1, ab2)
}

impl<AB1: ArrivalBound, AB2: ArrivalBound> ArrivalBound for SumOf<AB1, AB2> {
    open spec fn wf(&self) -> bool {
        self.0.wf() && self.1.wf()
    }

    open spec fn arrivals(&self, delta: nat) -> nat {
        self.0.arrivals(delta) + self.1.arrivals(delta)
    }

    open spec fn admits(&self, delta: nat) -> bool {
        self.0.admits(delta) && self.1.admits(delta)
    }

    fn number_arrivals(&self, delta: Duration) -> (n: usize) {
        self.0.number_arrivals(delta) + self.1.number_arrivals(delta)
    }

    fn duplicate(&self) -> (copy: Self) {
        SumOf(self.0.duplicate(), self.1.duplicate())
    }

    proof fn law_arrivals(&self, shorter: nat, longer: nat) {
        self.0.law_arrivals(shorter, longer);
        self.1.law_arrivals(shorter, longer);
    }
}

impl<AB1: ArrivalModel, AB2: ArrivalModel> ArrivalModel for SumOf<AB1, AB2> {
    type Jittered = SumOf<AB1::Jittered, AB2::Jittered>;

    fn steps_iter(&self, horizon: Duration) -> (steps: Vec<Duration>) {
        let left = self.0.steps_iter(horizon);
        let right = self.1.steps_iter(horizon);
        let steps = merge_two_steps(&left, &right);
        proof {
            let joint = |delta: nat| self.arrivals(delta);
            let first = |delta: nat| self.0.arrivals(delta);
            let second = |delta: nat| self.1.arrivals(delta);
            assert forall|delta: nat| #[trigger]
                is_step(joint, delta) <==> is_step(first, delta) || is_step(second, delta) by {
                if delta >= 1 {
                    self.0.law_arrivals((delta - 1) as nat, delta);
                    self.1.law_arrivals((delta - 1) as nat, delta);
                }
            }
            assert forall|i: int| 0 <= i < steps@.len() implies (#[trigger] steps@[i])@
                <= horizon@ && is_step(joint, steps@[i]@) by {
                let delta = steps@[i]@;
                assert(holds(steps@, delta));
                assert(is_step(joint, delta) <==> is_step(first, delta) || is_step(second, delta));
                if holds(left@, delta) {
                    let j = choose|j: int| 0 <= j < left@.len() && (#[trigger] left@[j])@ == delta;
                } else {
                    let j = choose|j: int|
                        0 <= j < right@.len() && (#[trigger] right@[j])@ == delta;
                }
            }
        }
        steps
    }

    open spec fn admits_jitter(&self, jitter: nat) -> bool {
        self.0.admits_jitter(jitter) && self.1.admits_jitter(jitter)
    }

    fn clone_with_jitter(&self, jitter: Duration) -> (ab: SumOf<AB1::Jittered, AB2::Jittered>) {
        SumOf(self.0.clone_with_jitter(jitter), self.1.clone_with_jitter(jitter))
    }
}

} // verus!
