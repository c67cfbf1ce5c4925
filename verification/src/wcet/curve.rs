//! Cost curves: the cumulative cost of consecutive jobs, given by a finite prefix.

use vstd::prelude::*;
use super::JobCostModel;
use crate::fixed_point::minus;
use crate::supply::lemma_div_mod;
use crate::time::Service;

verus! {

/// A cost curve. Entry `i` of the prefix bounds the cumulative cost of any
/// `i + 1` consecutive jobs.
#[derive(Clone, Debug)]
pub struct Curve {
    pub wcet_of_n_jobs: Vec<Service>,
}

/// The entries of `w` never decrease.
pub open spec fn non_decreasing(w: Seq<Service>) -> bool {
    forall|i: int, j: int| 0 <= i <= j < w.len() ==> w[i]@ <= w[j]@
}

/// The cumulative cost of `n` jobs: whole repetitions of the prefix, then the
/// entry for the jobs that are left.
pub open spec fn curve_cost(w: Seq<Service>, n: nat) -> nat {
    if w.len() == 0 || n == 0 {
        0
    } else {
        let q = n / w.len();
        let r = n % w.len();
        q * w.last()@ + if r > 0 { w[r - 1]@ } else { 0 }
    }
}

/// What the job at position `i` of the prefix adds to the cumulative cost.
pub open spec fn marginal(w: Seq<Service>, i: nat) -> nat {
    if i == 0 {
        w[0]@
    } else {
        (w[i as int]@ - w[i - 1]@) as nat
    }
}

/// The least marginal cost among the first `m` jobs of the prefix, for `m >= 1`.
pub open spec fn least_marginal(w: Seq<Service>, m: nat) -> nat
    decreases m,
{
    if m <= 1 {
        marginal(w, 0)
    } else {
        let before = least_marginal(w, (m - 1) as nat);
        if marginal(w, (m - 1) as nat) < before {
            marginal(w, (m - 1) as nat)
        } else {
            before
        }
    }
}

/// The bound on the cost of `w.len() + 1` jobs that follows from the prefix:
/// the least sum of two entries that together cover that many jobs, over the
/// first `upto + 1` ways to split them.
pub open spec fn least_split(w: Seq<Service>, upto: nat) -> nat
    decreases upto,
{
    let here = w[upto as int]@ + w[w.len() - upto - 1]@;
    if upto == 0 {
        here
    } else {
        let before = least_split(w, (upto - 1) as nat);
        if here < before {
            here
        } else {
            before
        }
    }
}

proof fn lemma_curve_cost_step(w: Seq<Service>, n: nat)
    requires
        w.len() > 0,
        non_decreasing(w),
    ensures
        curve_cost(w, 0) == 0,
        curve_cost(w, n) <= curve_cost(w, n + 1),
{
    let len = w.len();
    let q = n / len;
    let r = n % len;
    assert(n == q * len + r && r < len) by (nonlinear_arith)
        requires
            len > 0,
            q == n / len,
            r == n % len,
    ;
    let top = w.last()@;
    if r + 1 < len {
        lemma_div_mod((n + 1) as int, len as int, q as int, (r + 1) as int);
    } else {
        assert((q + 1) * len == q * len + len && (q + 1) * top == q * top + top)
            by (nonlinear_arith);
        lemma_div_mod((n + 1) as int, len as int, (q + 1) as int, 0);
    }
}

impl Curve {
    /// Construct a cost curve from the cumulative costs of `1, 2, ...` jobs.
    pub fn new(wcet_of_n_jobs: Vec<Service>) -> (curve: Curve)
        ensures
            curve.wcet_of_n_jobs == wcet_of_n_jobs,
    {
        Curve { wcet_of_n_jobs }
    }

    /// The bound on the cost of one more job than the prefix covers.
    fn extrapolate_next(&self) -> (next: Service)
        requires
            self.wcet_of_n_jobs@.len() >= 2,
            forall|i: int|
                0 <= i < self.wcet_of_n_jobs@.len() ==> (#[trigger] self.wcet_of_n_jobs@[i])@
                    <= u64::MAX / 2,
        ensures
            next@ == least_split(self.wcet_of_n_jobs@, self.wcet_of_n_jobs@.len() / 2),
    {
        let n: usize = self.wcet_of_n_jobs.len();
        let mut least: u64 = self.wcet_of_n_jobs[0].val + self.wcet_of_n_jobs[n - 1].val;
        let mut k: usize = 1;
        while k <= n / 2
            invariant
                n == self.wcet_of_n_jobs@.len(),
                n >= 2,
                forall|i: int|
                    0 <= i < self.wcet_of_n_jobs@.len() ==> (#[trigger] self.wcet_of_n_jobs@[i])@
                        <= u64::MAX / 2,
                1 <= k <= n / 2 + 1,
                least == least_split(self.wcet_of_n_jobs@, (k - 1) as nat),
            decreases n / 2 + 1 - k,
        {
            let here: u64 = self.wcet_of_n_jobs[k].val + self.wcet_of_n_jobs[n - k - 1].val;
            if here < least {
                least = here;
            }
            k += 1;
        }
        Service { val: least }
    }

    /// Extend the prefix, by the bounds that follow from it, until it covers
    /// `n - 1` jobs. A prefix of fewer than three entries is left as it is.
    pub fn extrapolate(&mut self, n: usize)
        requires
            can_extend(old(self).wcet_of_n_jobs@, n as nat),
        ensures
            final(self).wcet_of_n_jobs@ == extended(old(self).wcet_of_n_jobs@, n as nat),
    {
        if self.wcet_of_n_jobs.len() >= 3 {
            while self.wcet_of_n_jobs.len() < n - 1
                invariant
                    n >= 1,
                    self.wcet_of_n_jobs@.len() >= 3,
                    can_extend(self.wcet_of_n_jobs@, n as nat),
                    extended(self.wcet_of_n_jobs@, n as nat) == extended(
                        old(self).wcet_of_n_jobs@,
                        n as nat,
                    ),
                decreases n - self.wcet_of_n_jobs.len(),
            {
                proof {
                    lemma_can_extend_further(self.wcet_of_n_jobs@, n as nat);
                }
                let next = self.extrapolate_next();
                self.wcet_of_n_jobs.push(next);
            }
        }
    }
}

/// The entries that extrapolation up to `n` jobs adds to `w` stay within the
/// machine's limits: each entry leaves room for the first one as often as
/// an entry is still to be added, twice over.
pub open spec fn can_extend(w: Seq<Service>, n: nat) -> bool {
    w.len() >= 3 ==> n >= 1 && forall|i: int|
        0 <= i < w.len() ==> (#[trigger] w[i])@ + minus(n, w.len()) * w[0]@ <= u64::MAX / 2
}

/// The entry that extrapolation adds next.
pub open spec fn next_entry(w: Seq<Service>) -> Service {
    Service { val: least_split(w, w.len() / 2) as u64 }
}

proof fn lemma_least_split_bound(w: Seq<Service>, upto: nat)
    requires
        w.len() >= 1,
        upto < w.len(),
    ensures
        least_split(w, upto) <= w[0]@ + w.last()@,
    decreases upto,
{
    if upto > 0 {
        lemma_least_split_bound(w, (upto - 1) as nat);
    }
}

proof fn lemma_can_extend_further(w: Seq<Service>, n: nat)
    requires
        w.len() >= 3,
        w.len() + 1 < n,
        can_extend(w, n),
    ensures
        can_extend(w.push(next_entry(w)), n),
        forall|i: int| 0 <= i < w.len() ==> (#[trigger] w[i])@ <= u64::MAX / 2,
{
    let left = minus(n, w.len());
    let first = w[0]@;
    lemma_least_split_bound(w, w.len() / 2);
    assert(left * first == (left - 1) * first + first && (left - 1) * first >= 0)
        by (nonlinear_arith)
        requires
            left >= 1,
    ;
    assert(w.last()@ + left * first <= u64::MAX / 2);
    let longer = w.push(next_entry(w));
    assert forall|i: int| 0 <= i < longer.len() implies (#[trigger] longer[i])@ + minus(
        n,
        longer.len(),
    ) * longer[0]@ <= u64::MAX / 2 by {
        if i < w.len() {
            assert(longer[i] == w[i]);
        }
    }
    assert forall|i: int| 0 <= i < w.len() implies (#[trigger] w[i])@ <= u64::MAX / 2 by {
        assert(w[i]@ + left * first <= u64::MAX / 2);
    }
}

/// The prefix `w` extended until it covers `n - 1` jobs.
pub open spec fn extended(w: Seq<Service>, n: nat) -> Seq<Service>
    decreases n - w.len(),
{
    if w.len() >= 3 && w.len() + 1 < n {
        extended(w.push(next_entry(w)), n)
    } else {
        w
    }
}

impl Curve {
    /// The cumulative cost of `n` jobs, read off the prefix as it is.
    pub fn cost_at(&self, n: usize) -> (s: Service)
        requires
            curve_cost(self.wcet_of_n_jobs@, n as nat) <= u64::MAX,
        ensures
            s@ == curve_cost(self.wcet_of_n_jobs@, n as nat),
    {
        if self.wcet_of_n_jobs.len() == 0 {
            return Service::none();
        }
        if n > 0 {
            let len: usize = self.wcet_of_n_jobs.len();
            let x: usize = n / len;
            let y: usize = n % len;
            proof {
                let top = self.wcet_of_n_jobs@.last()@;
                let times = (x as u64) as int;
                assert(times == x);
                assert(times * top == top * times && times * top >= 0 && (times == 0 ==> times
                    * top == 0)) by (nonlinear_arith)
                    requires
                        times >= 0,
                ;
                assert(x == n as nat / self.wcet_of_n_jobs@.len());
                assert(y == n as nat % self.wcet_of_n_jobs@.len());
                assert(self.wcet_of_n_jobs@.last() == self.wcet_of_n_jobs@[len - 1]);
            }
            let prefix: u64 = if x > 0 {
                self.wcet_of_n_jobs[len - 1].val * (x as u64)
            } else {
                0
            };
            let suffix: u64 = if y > 0 {
                self.wcet_of_n_jobs[y - 1].val
            } else {
                0
            };
            Service { val: prefix + suffix }
        } else {
            Service::none()
        }
    }

    /// Construct a cost curve from cumulative costs that are first made
    /// monotonic: each is raised to the greatest cost before it.
    pub fn from_iter(wcets: Vec<Service>) -> (curve: Curve)
        ensures
            curve.wcet_of_n_jobs@ == raised(wcets@),
            non_decreasing(curve.wcet_of_n_jobs@),
            curve.wcet_of_n_jobs@.len() == wcets@.len(),
    {
        let mut raised_costs: Vec<Service> = Vec::new();
        if wcets.len() == 0 {
            return Curve { wcet_of_n_jobs: raised_costs };
        }
        raised_costs.push(wcets[0]);
        let mut i: usize = 1;
        while i < wcets.len()
            invariant
                1 <= i <= wcets.len(),
                raised_costs@ == raised(wcets@.take(i as int)),
                non_decreasing(raised_costs@),
                raised_costs@.len() == i,
            decreases wcets.len() - i,
        {
            proof {
                assert(wcets@.take(i + 1).drop_last() == wcets@.take(i as int));
            }
            let before = raised_costs[i - 1];
            let next = if wcets[i].val > before.val {
                wcets[i]
            } else {
                before
            };
            raised_costs.push(next);
            i += 1;
        }
        proof {
            assert(wcets@.take(i as int) == wcets@);
        }
        Curve { wcet_of_n_jobs: raised_costs }
    }

    /// Derive a cost curve from a trace of observed job costs: a window of
    /// up to `max_n` consecutive jobs slides over the trace, and entry `i`
    /// is the greatest cost observed of the first `i + 1` jobs of a window.
    pub fn from_trace(job_costs: &Vec<Service>, max_n: usize) -> (curve: Curve)
        requires
            window_cost(job_costs@, 0, job_costs@.len()) <= u64::MAX,
        ensures
            curve.wcet_of_n_jobs@.len() == if job_costs@.len() < max_n {
                job_costs@.len()
            } else {
                max_n as nat
            },
            forall|i: int|
                0 <= i < curve.wcet_of_n_jobs@.len() ==> (#[trigger] curve.wcet_of_n_jobs@[i])@
                    == greatest_window_cost(job_costs@, max_n as nat, i as nat, job_costs@.len()),
    {
        let mut cost_of: Vec<Service> = Vec::new();
        let mut t: usize = 0;
        while t < job_costs.len()
            invariant
                window_cost(job_costs@, 0, job_costs@.len()) <= u64::MAX,
                t <= job_costs.len(),
                cost_of@.len() == if t < max_n { t } else { max_n },
                forall|i: int|
                    0 <= i < cost_of@.len() ==> (#[trigger] cost_of@[i])@ == greatest_window_cost(
                        job_costs@,
                        max_n as nat,
                        i as nat,
                        t as nat,
                    ),
            decreases job_costs.len() - t,
        {
            if max_n == 0 {
                t += 1;
                continue ;
            }
            let start: usize = if t + 1 > max_n {
                t + 1 - max_n
            } else {
                0
            };
            let mut total: u64 = 0;
            let mut i: usize = 0;
            while i < t + 1 - start
                invariant
                    window_cost(job_costs@, 0, job_costs@.len()) <= u64::MAX,
                    t < job_costs.len(),
                    max_n > 0,
                    start == window_start(max_n as nat, t as nat),
                    start <= t,
                    i <= t + 1 - start,
                    total == window_cost(job_costs@, start as nat, i as nat),
                    cost_of@.len() == if i < cost_of@.len() {
                        if t < max_n { t } else { max_n }
                    } else {
                        i
                    },
                    cost_of@.len() <= max_n,
                    cost_of@.len() >= if t < max_n { t } else { max_n },
                    t + 1 - start <= max_n,
                    t < max_n ==> t + 1 - start == t + 1,
                    forall|j: int|
                        0 <= j < cost_of@.len() ==> (#[trigger] cost_of@[j])@
                            == greatest_window_cost(
                            job_costs@,
                            max_n as nat,
                            j as nat,
                            if j < i { (t + 1) as nat } else { t as nat },
                        ),
                decreases t + 1 - start - i,
            {
                proof {
                    lemma_window_cost_within(job_costs@, start as nat, (i + 1) as nat);
                }
                total = total + job_costs[start + i].val;
                if cost_of.len() <= i {
                    proof {
                        lemma_no_window_yet(job_costs@, max_n as nat, i as nat, t as nat);
                    }
                    cost_of.push(Service { val: total });
                } else if cost_of[i].val < total {
                    cost_of.set(i, Service { val: total });
                }
                i += 1;
            }
            t += 1;
        }
        Curve { wcet_of_n_jobs: cost_of }
    }
}

/// `w` with each cost raised to the greatest cost before it.
pub open spec fn raised(w: Seq<Service>) -> Seq<Service>
    decreases w.len(),
{
    if w.len() <= 1 {
        w
    } else {
        let before = raised(w.drop_last());
        before.push(if w.last()@ > before.last()@ { w.last() } else { before.last() })
    }
}

/// The cost of the `len` consecutive jobs of `trace` that start at `start`.
pub open spec fn window_cost(trace: Seq<Service>, start: nat, len: nat) -> nat
    decreases len,
{
    if len == 0 {
        0
    } else {
        window_cost(trace, start, (len - 1) as nat) + trace[start + len - 1]@
    }
}

/// Where the window of up to `max_n` jobs starts that ends with job `t`.
pub open spec fn window_start(max_n: nat, t: nat) -> nat {
    if t + 1 > max_n {
        (t + 1 - max_n) as nat
    } else {
        0
    }
}

/// The greatest cost of the first `i + 1` jobs of a window, over the windows
/// that end with one of the first `upto` jobs of `trace` and hold that many jobs.
pub open spec fn greatest_window_cost(trace: Seq<Service>, max_n: nat, i: nat, upto: nat) -> nat
    decreases upto,
{
    if upto == 0 {
        0
    } else {
        let t = (upto - 1) as nat;
        let before = greatest_window_cost(trace, max_n, i, t);
        let start = window_start(max_n, t);
        if max_n > 0 && i <= t - start && window_cost(trace, start, i + 1) > before {
            window_cost(trace, start, i + 1)
        } else {
            before
        }
    }
}

proof fn lemma_window_cost_grows(trace: Seq<Service>, start: nat, len: nat, more: nat)
    requires
        len <= more,
    ensures
        window_cost(trace, start, len) <= window_cost(trace, start, more),
    decreases more,
{
    if len < more {
        lemma_window_cost_grows(trace, start, len, (more - 1) as nat);
    }
}

proof fn lemma_window_cost_split(trace: Seq<Service>, start: nat, len: nat)
    requires
        start + len <= trace.len(),
    ensures
        window_cost(trace, 0, start + len) == window_cost(trace, 0, start) + window_cost(
            trace,
            start,
            len,
        ),
    decreases len,
{
    if len > 0 {
        lemma_window_cost_split(trace, start, (len - 1) as nat);
    }
}

/// The cost of a window within the trace is at most the cost of the whole trace.
proof fn lemma_window_cost_within(trace: Seq<Service>, start: nat, len: nat)
    requires
        start + len <= trace.len(),
    ensures
        window_cost(trace, start, len) <= window_cost(trace, 0, trace.len()),
{
    lemma_window_cost_split(trace, start, len);
    lemma_window_cost_grows(trace, 0, start + len, trace.len());
}

/// Before a window holds `i + 1` jobs, no cost of that many jobs was observed.
proof fn lemma_no_window_yet(trace: Seq<Service>, max_n: nat, i: nat, upto: nat)
    requires
        upto <= i,
    ensures
        greatest_window_cost(trace, max_n, i, upto) == 0,
    decreases upto,
{
    if upto > 0 {
        lemma_no_window_yet(trace, max_n, i, (upto - 1) as nat);
    }
}

impl JobCostModel for Curve {
    open spec fn wf(&self) -> bool {
        self.wcet_of_n_jobs@.len() > 0 && non_decreasing(self.wcet_of_n_jobs@)
    }

    open spec fn job_cost(&self, i: nat) -> nat {
        (curve_cost(self.wcet_of_n_jobs@, i + 1) - curve_cost(self.wcet_of_n_jobs@, i)) as nat
    }

    open spec fn cost(&self, n: nat) -> nat {
        curve_cost(self.wcet_of_n_jobs@, n)
    }

    open spec fn least(&self, n: nat) -> nat {
        if n == 0 {
            0
        } else if n < self.wcet_of_n_jobs@.len() {
            least_marginal(self.wcet_of_n_jobs@, n)
        } else {
            least_marginal(self.wcet_of_n_jobs@, self.wcet_of_n_jobs@.len())
        }
    }

    fn cost_of_jobs(&self, n: usize) -> (s: Service) {
        self.cost_at(n)
    }

    fn least_wcet(&self, n: usize) -> (s: Service) {
        if n == 0 {
            return Service::none();
        }
        let mut least: u64 = self.wcet_of_n_jobs[0].val;
        let mut i: usize = 1;
        while i < self.wcet_of_n_jobs.len() && i < n
            invariant
                self.wf(),
                1 <= i <= self.wcet_of_n_jobs.len(),
                i <= n,
                least == least_marginal(self.wcet_of_n_jobs@, i as nat),
            decreases self.wcet_of_n_jobs.len() - i,
        {
            let step: u64 = self.wcet_of_n_jobs[i].val - self.wcet_of_n_jobs[i - 1].val;
            if step < least {
                least = step;
            }
            i += 1;
        }
        Service { val: least }
    }

    fn job_cost_iter(&self, n: usize) -> (costs: Vec<Service>) {
        let mut costs: Vec<Service> = Vec::new();
        let mut before = Service::none();
        let mut i: usize = 0;
        while i < n
            invariant
                self.wf(),
                self.cost(n as nat) <= u64::MAX,
                i <= n,
                before@ == self.cost(i as nat),
                costs@.len() == i,
                forall|j: int| 0 <= j < i ==> (#[trigger] costs@[j])@ == self.job_cost(j as nat),
            decreases n - i,
        {
            proof {
                self.law_cost((i + 1) as nat, n as nat);
                self.law_cost(i as nat, (i + 1) as nat);
            }
            let upto = self.cost_of_jobs(i + 1);
            costs.push(Service { val: upto.val - before.val });
            before = upto;
            i += 1;
        }
        costs
    }

    proof fn law_cost(&self, fewer: nat, more: nat)
        decreases more,
    {
        lemma_curve_cost_step(self.wcet_of_n_jobs@, 0);
        if more > 0 {
            let less = (more - 1) as nat;
            self.law_cost(0, less);
            lemma_curve_cost_step(self.wcet_of_n_jobs@, less);
            if fewer < more {
                self.law_cost(fewer, less);
            }
        }
    }

    proof fn law_least_wcet(&self, n: nat) {
    }
}

/// A cost curve that extends its prefix as far as each query needs.
#[derive(Clone, Debug)]
pub struct ExtrapolatingCurve {
    pub prefix: Curve,
}

impl ExtrapolatingCurve {
    /// Wrap a cost curve so that queries extrapolate it on demand.
    pub fn new(costfn: Curve) -> (curve: ExtrapolatingCurve)
        ensures
            curve.prefix == costfn,
    {
        ExtrapolatingCurve { prefix: costfn }
    }

    /// Bound the cumulative cost of any `n` consecutive jobs, on the prefix
    /// extrapolated until it covers `n` jobs. The extrapolated prefix is kept.
    pub fn cost_of_jobs(&mut self, n: usize) -> (s: Service)
        requires
            n < usize::MAX,
            can_extend(old(self).prefix.wcet_of_n_jobs@, (n + 1) as nat),
            curve_cost(extended(old(self).prefix.wcet_of_n_jobs@, (n + 1) as nat), n as nat)
                <= u64::MAX,
        ensures
            final(self).prefix.wcet_of_n_jobs@ == extended(
                old(self).prefix.wcet_of_n_jobs@,
                (n + 1) as nat,
            ),
            s@ == curve_cost(final(self).prefix.wcet_of_n_jobs@, n as nat),
    {
        self.prefix.extrapolate(n + 1);
        self.prefix.cost_at(n)
    }

    /// The least cost among the first `n` jobs. The extrapolation adds no
    /// lesser cost, so the prefix is read as it is.
    pub fn least_wcet(&self, n: usize) -> (s: Service)
        requires
            self.prefix.wf(),
        ensures
            s@ == self.prefix.least(n as nat),
    {
        self.prefix.least_wcet(n)
    }
}

} // verus!
