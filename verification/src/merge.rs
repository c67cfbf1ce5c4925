//! Merging of sorted sequences of discrete time values.
//!
//! The merging itself is done by `itertools`; what it returns is stated
//! here and trusted. Everything built on it is proved.

use vstd::prelude::*;
use vstd::multiset::Multiset;
use itertools::Itertools;
use crate::time::Time;

verus! {

/// The entries of `s` never decrease.
pub open spec fn ascending(s: Seq<Time>) -> bool {
    forall|i: int, j: int| 0 <= i <= j < s.len() ==> s[i] <= s[j]
}

/// The entries of `s` grow strictly.
pub open spec fn strictly_ascending(s: Seq<Time>) -> bool {
    forall|i: int, j: int| 0 <= i < j < s.len() ==> s[i] < s[j]
}

/// All entries of all `lists`, with their multiplicities.
pub open spec fn all_entries(lists: Seq<Vec<Time>>) -> Multiset<Time>
    decreases lists.len(),
{
    if lists.len() == 0 {
        Multiset::empty()
    } else {
        all_entries(lists.drop_last()).add(lists.last()@.to_multiset())
    }
}

/// Every one of the `lists` is in ascending order.
pub open spec fn all_ascending(lists: Seq<Vec<Time>>) -> bool {
    forall|k: int| 0 <= k < lists.len() ==> ascending(#[trigger] lists[k]@)
}

/// `s` without the entries that repeat the entry before them.
pub open spec fn without_repeats(s: Seq<Time>) -> Seq<Time>
    decreases s.len(),
{
    if s.len() <= 1 {
        s
    } else if s[s.len() - 2] == s.last() {
        without_repeats(s.drop_last())
    } else {
        without_repeats(s.drop_last()).push(s.last())
    }
}

/// Calls `Itertools::kmerge` on the lists. Trusted: the result holds the
/// entries of all lists with their multiplicities, and is in ascending
/// order if every list is.
#[verifier::external_body]
pub(crate) fn kmerge_times(lists: Vec<Vec<Time>>) -> (merged: Vec<Time>)
    ensures
        merged@.to_multiset() == all_entries(lists@),
        all_ascending(lists@) ==> ascending(merged@),
{
    lists.into_iter().kmerge().collect()
}

/// Calls `Itertools::merge` on the two lists. Trusted: the result holds the
/// entries of both lists with their multiplicities, and is in ascending
/// order if both lists are.
#[verifier::external_body]
pub(crate) fn merge_times(a: Vec<Time>, b: Vec<Time>) -> (merged: Vec<Time>)
    ensures
        merged@.to_multiset() == a@.to_multiset().add(b@.to_multiset()),
        ascending(a@) && ascending(b@) ==> ascending(merged@),
{
    a.into_iter().merge(b.into_iter()).collect()
}

/// Calls `Itertools::dedup` on the list. Trusted: the result is the list
/// without the entries that repeat the entry before them.
#[verifier::external_body]
pub(crate) fn dedup_times(list: Vec<Time>) -> (unique: Vec<Time>)
    ensures
        unique@ == without_repeats(list@),
{
    list.into_iter().dedup().collect()
}

/// Calls `Itertools::sorted` on the list. Trusted: the result holds the
/// entries of the list with their multiplicities, in ascending order.
#[verifier::external_body]
pub(crate) fn sorted_times(list: Vec<Time>) -> (sorted: Vec<Time>)
    ensures
        sorted@.to_multiset() == list@.to_multiset(),
        ascending(sorted@),
{
    list.into_iter().sorted().collect()
}

/// An entry is among all entries exactly if one of the lists holds it.
pub proof fn lemma_all_entries_contains(lists: Seq<Vec<Time>>, x: Time)
    ensures
        all_entries(lists).count(x) > 0 <==> exists|k: int|
            0 <= k < lists.len() && (#[trigger] lists[k])@.contains(x),
    decreases lists.len(),
{
    broadcast use vstd::seq_lib::group_to_multiset_ensures;

    if lists.len() > 0 {
        let before = lists.drop_last();
        lemma_all_entries_contains(before, x);
        if all_entries(lists).count(x) > 0 {
            if all_entries(before).count(x) > 0 {
                let k = choose|k: int| 0 <= k < before.len() && (#[trigger] before[k])@.contains(x);
                assert(lists[k] == before[k]);
            } else {
                assert(lists[lists.len() - 1]@.contains(x));
            }
        }
        if exists|k: int| 0 <= k < lists.len() && (#[trigger] lists[k])@.contains(x) {
            let k = choose|k: int| 0 <= k < lists.len() && (#[trigger] lists[k])@.contains(x);
            if k < before.len() {
                assert(before[k] == lists[k]);
            }
        }
    }
}

/// A merged list holds a value exactly if one of its two sources does.
pub proof fn lemma_merged_contains(merged: Seq<Time>, a: Seq<Time>, b: Seq<Time>, x: Time)
    requires
        merged.to_multiset() == a.to_multiset().add(b.to_multiset()),
    ensures
        merged.contains(x) <==> a.contains(x) || b.contains(x),
{
    broadcast use vstd::multiset::group_multiset_axioms;

    vstd::seq_lib::to_multiset_contains(merged, x);
    vstd::seq_lib::to_multiset_contains(a, x);
    vstd::seq_lib::to_multiset_contains(b, x);
    assert(a.to_multiset().add(b.to_multiset()).count(x) == a.to_multiset().count(x)
        + b.to_multiset().count(x));
}

/// Without its repeats, an ascending list is strictly ascending, holds the
/// same values, and ends as before.
pub proof fn lemma_without_repeats(s: Seq<Time>)
    requires
        ascending(s),
    ensures
        strictly_ascending(without_repeats(s)),
        forall|x: Time| s.contains(x) <==> without_repeats(s).contains(x),
        s.len() > 0 ==> without_repeats(s).len() > 0 && without_repeats(s).last() == s.last(),
    decreases s.len(),
{
    if s.len() > 1 {
        let before = s.drop_last();
        let unique = without_repeats(before);
        lemma_without_repeats(before);
        assert(before.last() == s[s.len() - 2]);
        let result = without_repeats(s);
        assert forall|x: Time| s.contains(x) <==> result.contains(x) by {
            if s.contains(x) {
                let i = choose|i: int| 0 <= i < s.len() && s[i] == x;
                if i < before.len() {
                    assert(before[i] == x);
                    assert(before.contains(x));
                    assert(unique.contains(x));
                    let j = choose|j: int| 0 <= j < unique.len() && unique[j] == x;
                    assert(result[j] == x);
                } else {
                    assert(result.last() == x);
                }
            }
            if result.contains(x) {
                let j = choose|j: int| 0 <= j < result.len() && result[j] == x;
                if j < unique.len() {
                    assert(unique[j] == x);
                    assert(unique.contains(x));
                    assert(before.contains(x));
                    let i = choose|i: int| 0 <= i < before.len() && before[i] == x;
                    assert(s[i] == x);
                } else {
                    assert(s[s.len() - 1] == x);
                }
            }
        }
        if s[s.len() - 2] != s.last() {
            assert forall|i: int, j: int| 0 <= i < j < result.len() implies result[i]
                < result[j] by {
                if j == unique.len() {
                    assert(unique.contains(unique[i]));
                    assert(before.contains(unique[i]));
                    let k = choose|k: int| 0 <= k < before.len() && before[k] == unique[i];
                    assert(s[k] <= s[s.len() - 2]);
                    assert(unique[i] <= unique.last());
                    if i < unique.len() - 1 {
                        assert(unique[i] < unique[unique.len() - 1]);
                    }
                }
            }
        }
    } else {
        assert forall|x: Time| s.contains(x) <==> without_repeats(s).contains(x) by {}
    }
}

} // verus!
