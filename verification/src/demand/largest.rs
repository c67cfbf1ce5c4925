//! The cost of the costliest jobs among the jobs released in an interval.

use vstd::prelude::*;
use vstd::relations::{sorted_by, total_ordering};
use crate::merge::{ascending, sorted_times};
use crate::time::{Service, Time};

verus! {

/// The order of costs.
pub open spec fn at_most() -> spec_fn(Time, Time) -> bool {
    |a: Time, b: Time| a <= b
}

/// The plain values of a sequence of costs.
pub open spec fn service_values(costs: Seq<Service>) -> Seq<Time> {
    Seq::new(costs.len(), |i: int| costs[i].val)
}

/// The sum of the last `k` entries of `s`, of all if there are fewer.
pub open spec fn sum_last(s: Seq<Time>, k: nat) -> nat
    decreases k,
{
    if k == 0 || s.len() == 0 {
        0
    } else {
        (s.last() + sum_last(s.drop_last(), (k - 1) as nat)) as nat
    }
}

/// The sum of the `k` largest of `costs`, of all if there are fewer.
pub open spec fn largest_sum(costs: Seq<Time>, k: nat) -> nat {
    sum_last(costs.sort_by(at_most()), k)
}

proof fn lemma_total_ordering()
    ensures
        total_ordering(at_most()),
{
    let leq = at_most();
    assert(vstd::relations::reflexive(leq));
    assert(vstd::relations::antisymmetric(leq));
    assert(vstd::relations::transitive(leq));
    assert(vstd::relations::strongly_connected(leq));
}

/// The sum of the largest costs depends on the costs alone, not on their order.
pub proof fn lemma_largest_sum_of_same_costs(a: Seq<Time>, b: Seq<Time>, k: nat)
    requires
        a.to_multiset() == b.to_multiset(),
    ensures
        largest_sum(a, k) == largest_sum(b, k),
{
    lemma_total_ordering();
    a.lemma_sort_by_ensures(at_most());
    b.lemma_sort_by_ensures(at_most());
    vstd::seq_lib::lemma_sorted_unique(a.sort_by(at_most()), b.sort_by(at_most()), at_most());
}

proof fn lemma_sum_last_step(s: Seq<Time>, k: nat)
    requires
        k < s.len(),
    ensures
        sum_last(s, k + 1) == sum_last(s, k) + s[s.len() - 1 - k],
    decreases k,
{
    let before = s.drop_last();
    assert(sum_last(s, k + 1) == s.last() + sum_last(before, k));
    if k > 0 {
        lemma_sum_last_step(before, (k - 1) as nat);
        assert(sum_last(s, k) == s.last() + sum_last(before, (k - 1) as nat));
        assert(before[before.len() - 1 - (k - 1)] == s[s.len() - 1 - k]);
    }
}

proof fn lemma_sum_last_all(s: Seq<Time>, k: nat)
    requires
        k >= s.len(),
    ensures
        sum_last(s, k) == sum_last(s, s.len()),
    decreases s.len(),
{
    if s.len() > 0 {
        lemma_sum_last_all(s.drop_last(), (k - 1) as nat);
    }
}

proof fn lemma_sum_last_grows(s: Seq<Time>, fewer: nat, more: nat)
    requires
        fewer <= more <= s.len(),
    ensures
        sum_last(s, fewer) <= sum_last(s, more),
    decreases more - fewer,
{
    if fewer < more {
        lemma_sum_last_step(s, fewer);
        lemma_sum_last_grows(s, fewer + 1, more);
    }
}

/// The plain values of a list of costs.
pub fn to_values(costs: &Vec<Service>) -> (values: Vec<Time>)
    ensures
        values@ == service_values(costs@),
{
    let mut values: Vec<Time> = Vec::new();
    let mut i: usize = 0;
    while i < costs.len()
        invariant
            i <= costs.len(),
            values@.len() == i,
            forall|j: int| 0 <= j < i ==> #[trigger] values@[j] == costs@[j].val,
        decreases costs.len() - i,
    {
        values.push(costs[i].val);
        i += 1;
    }
    proof {
        assert(values@ =~= service_values(costs@));
    }
    values
}

/// The costs with the given plain values.
pub fn to_services(values: &Vec<Time>) -> (costs: Vec<Service>)
    ensures
        service_values(costs@) == values@,
{
    let mut costs: Vec<Service> = Vec::new();
    let mut i: usize = 0;
    while i < values.len()
        invariant
            i <= values.len(),
            costs@.len() == i,
            forall|j: int| 0 <= j < i ==> (#[trigger] costs@[j]).val == values@[j],
        decreases values.len() - i,
    {
        costs.push(Service { val: values[i] });
        i += 1;
    }
    proof {
        assert(service_values(costs@) =~= values@);
    }
    costs
}

/// The sum of the `max_jobs` largest of `costs`, of all if there are fewer.
pub fn sum_of_largest(costs: &Vec<Service>, max_jobs: usize) -> (s: Service)
    requires
        largest_sum(service_values(costs@), max_jobs as nat) <= u64::MAX,
    ensures
        s@ == largest_sum(service_values(costs@), max_jobs as nat),
{
    let values = to_values(costs);
    let ghost given = values@;
    let sorted = sorted_times(values);
    proof {
        lemma_total_ordering();
        given.lemma_sort_by_ensures(at_most());
        assert(sorted_by(sorted@, at_most())) by {
            assert(ascending(sorted@));
        }
        vstd::seq_lib::lemma_sorted_unique(sorted@, given.sort_by(at_most()), at_most());
    }
    let len: usize = sorted.len();
    let take: usize = if max_jobs < len {
        max_jobs
    } else {
        len
    };
    proof {
        if max_jobs >= len {
            lemma_sum_last_all(sorted@, max_jobs as nat);
        }
    }
    let mut total: u64 = 0;
    let mut i: usize = 0;
    while i < take
        invariant
            take <= len,
            len == sorted@.len(),
            sum_last(sorted@, take as nat) <= u64::MAX,
            i <= take,
            total == sum_last(sorted@, i as nat),
        decreases take - i,
    {
        proof {
            lemma_sum_last_step(sorted@, i as nat);
            lemma_sum_last_grows(sorted@, (i + 1) as nat, take as nat);
        }
        total = total + sorted[len - 1 - i];
        i += 1;
    }
    Service { val: total }
}

} // verus!
