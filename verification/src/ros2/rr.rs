//! Round-robin-aware response-time analysis for chains of callbacks.

use vstd::prelude::*;
use crate::arrival::ArrivalBound;
use crate::fixed_point::{
    iterable, minus, search, search_from, SearchFailure, SearchResult, Workload,
};
use crate::supply::SupplyBound;
use crate::time::{Duration, Offset, Service};
use crate::wcet::JobCostModel;

verus! {

/// The priority of a polled callback: a lower value is a higher priority.
pub type PolledCallbackPriority = i32;

/// Whether a callback of priority `a` is polled before one of priority `b`.
pub fn is_higher_callback_priority_than(a: PolledCallbackPriority, b: PolledCallbackPriority) -> (higher:
    bool)
    ensures
        higher == (a < b),
{
    a < b
}

/// The kinds of callbacks that the executor tells apart.
#[derive(Debug, Clone, Copy, PartialEq, Eq, Structural)]
pub enum CallbackType {
    /// A timer callback.
    Timer,
    /// A callback that represents an external event source.
    EventSource,
    /// A polled callback of unknown priority.
    PolledUnknownPrio,
    /// A polled callback with a known priority.
    Polled(PolledCallbackPriority),
}

impl CallbackType {
    /// Whether callbacks of this kind are picked up at polling points.
    pub fn is_pp(&self) -> (polled: bool)
        ensures
            polled == !(*self is Timer || *self is EventSource),
    {
        match self {
            CallbackType::Timer | CallbackType::EventSource => false,
            _ => true,
        }
    }
}

/// A callback: its arrivals, its cost, its kind, and a bound on its
/// response time as found so far.
pub struct Callback<'a, 'b, AB, CM> {
    pub response_time_bound: Duration,
    pub arrival_bound: &'a AB,
    pub cost_model: &'b CM,
    pub kind: CallbackType,
}

/// The number of activations of a callback of kind `kind` that can interfere
/// with a callback of kind `interfered_with`, if `arrived` activations
/// arrive and the interfered callback passes `num_polling_points` polling points.
pub open spec fn interfering_activations(
    kind: CallbackType,
    interfered_with: CallbackType,
    arrived: nat,
    num_polling_points: nat,
) -> nat {
    let at_most = |n: nat| if arrived < n { arrived } else { n };
    match kind {
        CallbackType::Timer | CallbackType::EventSource => arrived,
        CallbackType::PolledUnknownPrio => at_most(num_polling_points + 1),
        CallbackType::Polled(inf_prio) => match interfered_with {
            CallbackType::Polled(ref_prio) => at_most(
                num_polling_points + if inf_prio < ref_prio { 1nat } else { 0nat },
            ),
            _ => at_most(num_polling_points + 1),
        },
    }
}

impl<'a, 'b, AB: ArrivalBound, CM: JobCostModel> Callback<'a, 'b, AB, CM> {
    /// Describe a callback.
    pub fn new(
        response_time_bound: Duration,
        arrival_bound: &'a AB,
        cost_model: &'b CM,
        kind: CallbackType,
    ) -> (callback: Self)
        ensures
            callback.response_time_bound == response_time_bound,
            callback.arrival_bound == arrival_bound,
            callback.cost_model == cost_model,
            callback.kind == kind,
    {
        Callback { response_time_bound, arrival_bound, cost_model, kind }
    }

    /// The arrivals and the cost model are proper.
    pub open spec fn wf(&self) -> bool {
        self.arrival_bound.wf() && self.cost_model.wf()
    }

    /// The activations that arrive in time to run in an interval of length
    /// `delta`: those of an interval longer by the response time, less
    /// the smallest unit.
    pub open spec fn arrived(&self, delta: nat) -> nat {
        self.arrival_bound.arrivals(minus(delta + self.response_time_bound@, 1))
    }

    /// The demands of the callback at `delta` can be computed within the
    /// machine's limits.
    pub open spec fn admits(&self, delta: nat) -> bool {
        &&& delta + self.response_time_bound@ <= u64::MAX
        &&& self.arrival_bound.admits(minus(delta + self.response_time_bound@, 1))
        &&& self.arrived(delta) <= usize::MAX
        &&& self.cost_model.cost(self.arrived(delta)) <= u64::MAX
    }

    /// The interference of this callback with a callback of kind
    /// `interfered_with` in an interval of length `delta`.
    pub open spec fn direct(
        &self,
        interfered_with: CallbackType,
        delta: nat,
        num_polling_points: nat,
    ) -> nat {
        self.cost_model.cost(
            interfering_activations(
                self.kind,
                interfered_with,
                self.arrived(delta),
                num_polling_points,
            ),
        )
    }

    /// The earlier activations of this callback that can delay one of its own.
    pub open spec fn self_interfering(&self, delta: nat) -> nat {
        minus(self.arrived(delta), 1)
    }

    /// The cost of one more activation after those that delay it.
    pub open spec fn marginal(&self, delta: nat) -> nat {
        minus(
            self.cost_model.cost(self.self_interfering(delta) + 1),
            self.cost_model.cost(self.self_interfering(delta)),
        )
    }

    /// The arrivals of the callback that matter in an interval of length `delta`.
    fn effective_arrivals(&self, delta: Duration) -> (n: usize)
        requires
            self.wf(),
            self.admits(delta@),
        ensures
            n == self.arrived(delta@),
    {
        let effective_interval = Duration {
            val: delta.val + self.response_time_bound.val,
        }.saturating_sub(Duration::epsilon());
        self.arrival_bound.number_arrivals(effective_interval)
    }

    /// Bound the interference of this callback with a callback of kind
    /// `interfered_with` in an interval of length `delta`.
    fn direct_rbf(&self, interfered_with: &CallbackType, delta: Duration, num_polling_points: usize) -> (s:
        Service)
        requires
            self.wf(),
            self.admits(delta@),
            num_polling_points < usize::MAX,
        ensures
            s@ == self.direct(*interfered_with, delta@, num_polling_points as nat),
    {
        let arrived = self.effective_arrivals(delta);
        let n: usize = match self.kind {
            CallbackType::Timer | CallbackType::EventSource => arrived,
            CallbackType::PolledUnknownPrio => at_most(arrived, num_polling_points + 1),
            CallbackType::Polled(inf_prio) => match *interfered_with {
                CallbackType::Polled(ref_prio) => {
                    let extra: usize = if is_higher_callback_priority_than(inf_prio, ref_prio) {
                        1
                    } else {
                        0
                    };
                    at_most(arrived, num_polling_points + extra)
                },
                _ => at_most(arrived, num_polling_points + 1),
            },
        };
        proof {
            self.cost_model.law_cost(n as nat, arrived as nat);
        }
        self.cost_model.cost_of_jobs(n)
    }

    /// The earlier activations of this callback that can delay one of its own.
    fn max_self_interfering_instances(&self, delta: Duration) -> (n: usize)
        requires
            self.wf(),
            self.admits(delta@),
        ensures
            n == self.self_interfering(delta@),
    {
        let arrived = self.effective_arrivals(delta);
        if arrived >= 1 {
            arrived - 1
        } else {
            0
        }
    }

    /// Bound the interference of earlier activations of this callback.
    fn self_interference_rbf(&self, delta: Duration) -> (s: Service)
        requires
            self.wf(),
            self.admits(delta@),
        ensures
            s@ == self.cost_model.cost(self.self_interfering(delta@)),
    {
        let n = self.max_self_interfering_instances(delta);
        proof {
            self.cost_model.law_cost(n as nat, self.arrived(delta@));
        }
        self.cost_model.cost_of_jobs(n)
    }

    /// The cost of one more activation after those that delay it.
    fn marginal_execution_cost(&self, delta: Duration) -> (s: Service)
        requires
            self.wf(),
            self.admits(delta@),
            self.self_interfering(delta@) < usize::MAX,
            self.cost_model.cost(self.self_interfering(delta@) + 1) <= u64::MAX,
        ensures
            s@ == self.marginal(delta@),
    {
        let n = self.max_self_interfering_instances(delta);
        proof {
            self.cost_model.law_cost(n as nat, (n + 1) as nat);
        }
        let more = self.cost_model.cost_of_jobs(n + 1);
        let fewer = self.cost_model.cost_of_jobs(n);
        Service { val: more.val - fewer.val }
    }

    /// The polling points that one activation of this callback can span.
    fn polling_point_bound(&self) -> (n: usize)
        requires
            self.wf(),
            self.arrival_bound.admits(self.response_time_bound@),
            self.arrival_bound.arrivals(self.response_time_bound@) <= usize::MAX,
        ensures
            n == self.arrival_bound.arrivals(self.response_time_bound@),
    {
        self.arrival_bound.number_arrivals(self.response_time_bound)
    }
}

/// The lesser of the two numbers.
pub(crate) fn at_most(a: usize, b: usize) -> (least: usize)
    ensures
        least == if a < b { a } else { b },
{
    if a < b {
        a
    } else {
        b
    }
}

/// The polling points that the callbacks at the first `upto` places of
/// `subchain` can span, together.
pub open spec fn polling_points<AB: ArrivalBound, CM: JobCostModel>(
    workload: Seq<Callback<AB, CM>>,
    subchain: Seq<usize>,
    upto: nat,
) -> nat
    decreases upto,
{
    if upto == 0 {
        0
    } else {
        let cb = workload[subchain[upto - 1] as int];
        polling_points(workload, subchain, (upto - 1) as nat) + cb.arrival_bound.arrivals(
            cb.response_time_bound@,
        )
    }
}

/// The interference of the first `upto` callbacks of `workload`, but for the
/// one at `eoc`, with a callback of kind `kind`.
pub open spec fn direct_interference<AB: ArrivalBound, CM: JobCostModel>(
    workload: Seq<Callback<AB, CM>>,
    eoc: int,
    kind: CallbackType,
    delta: nat,
    num_polling_points: nat,
    upto: nat,
) -> nat
    decreases upto,
{
    if upto == 0 {
        0
    } else {
        direct_interference(workload, eoc, kind, delta, num_polling_points, (upto - 1) as nat)
            + if upto - 1 == eoc {
            0
        } else {
            workload[upto - 1].direct(kind, delta, num_polling_points)
        }
    }
}

/// The demand that delays the start of the last callback of a subchain.
pub struct StartDelay<'w, 'a, 'b, AB, CM> {
    pub workload: &'w [Callback<'a, 'b, AB, CM>],
    pub eoc: usize,
    pub max_num_polling_points: usize,
}

impl<'w, 'a, 'b, AB: ArrivalBound, CM: JobCostModel> Workload for StartDelay<'w, 'a, 'b, AB, CM> {
    open spec fn wf(&self) -> bool {
        &&& self.eoc < self.workload@.len()
        &&& self.max_num_polling_points < usize::MAX
        &&& forall|i: int| 0 <= i < self.workload@.len() ==> (#[trigger] self.workload@[i]).wf()
    }

    open spec fn bound(&self, delta: nat) -> nat {
        let eoc = self.workload@[self.eoc as int];
        1 + direct_interference(
            self.workload@,
            self.eoc as int,
            eoc.kind,
            delta,
            self.max_num_polling_points as nat,
            self.workload@.len(),
        ) + eoc.cost_model.cost(eoc.self_interfering(delta))
    }

    open spec fn admits(&self, delta: nat) -> bool {
        &&& forall|i: int|
            0 <= i < self.workload@.len() ==> (#[trigger] self.workload@[i]).admits(delta)
        &&& self.bound(delta) <= u64::MAX
    }

    fn demand(&self, delta: Duration) -> (s: Service) {
        let eoc = &self.workload[self.eoc];
        let mut di: u64 = 0;
        let mut i: usize = 0;
        while i < self.workload.len()
            invariant
                self.wf(),
                self.admits(delta@),
                *eoc == self.workload@[self.eoc as int],
                i <= self.workload.len(),
                di == direct_interference(
                    self.workload@,
                    self.eoc as int,
                    eoc.kind,
                    delta@,
                    self.max_num_polling_points as nat,
                    i as nat,
                ),
            decreases self.workload.len() - i,
        {
            proof {
                lemma_direct_interference_grows(
                    self.workload@,
                    self.eoc as int,
                    eoc.kind,
                    delta@,
                    self.max_num_polling_points as nat,
                    (i + 1) as nat,
                    self.workload@.len(),
                );
            }
            if i != self.eoc {
                let part = self.workload[i].direct_rbf(
                    &eoc.kind,
                    delta,
                    self.max_num_polling_points,
                );
                di = di + part.val;
            }
            i += 1;
        }
        let si = eoc.self_interference_rbf(delta);
        Service { val: Service::epsilon().val + di + si.val }
    }
}

proof fn lemma_direct_interference_grows<AB: ArrivalBound, CM: JobCostModel>(
    workload: Seq<Callback<AB, CM>>,
    eoc: int,
    kind: CallbackType,
    delta: nat,
    num_polling_points: nat,
    upto: nat,
    all: nat,
)
    requires
        upto <= all,
    ensures
        direct_interference(workload, eoc, kind, delta, num_polling_points, upto)
            <= direct_interference(workload, eoc, kind, delta, num_polling_points, all),
    decreases all,
{
    if upto < all {
        lemma_direct_interference_grows(
            workload,
            eoc,
            kind,
            delta,
            num_polling_points,
            upto,
            (all - 1) as nat,
        );
    }
}

/// The demand that the supply must have served when the last callback of
/// the subchain is done, if it starts after `s_star`: what was served
/// until then, less the smallest unit, and the cost of the activation.
pub open spec fn finish_demand<S: SupplyBound, AB: ArrivalBound, CM: JobCostModel>(
    supply: &S,
    eoc: Callback<AB, CM>,
    s_star: nat,
) -> nat {
    minus(supply.supply(s_star), 1) + eoc.marginal(s_star)
}

/// What the analysis asks of its inputs: a subchain that is not empty and
/// lies within the workload, proper callbacks, and quantities within the
/// machine's limits wherever the analysis computes them.
pub open spec fn analysable<S: SupplyBound, AB: ArrivalBound, CM: JobCostModel>(
    supply: &S,
    workload: &[Callback<AB, CM>],
    subchain: &[usize],
    limit: Duration,
) -> bool {
    let eoc = subchain@.last() as int;
    let start_delay = StartDelay {
        workload,
        eoc: subchain@.last(),
        max_num_polling_points: polling_points(workload@, subchain@, subchain@.len()) as usize,
    };
    &&& supply.wf()
    &&& subchain@.len() > 0
    &&& forall|k: int| 0 <= k < subchain@.len() ==> (#[trigger] subchain@[k]) < workload@.len()
    &&& forall|i: int| 0 <= i < workload@.len() ==> (#[trigger] workload@[i]).wf()
    &&& forall|i: int|
        0 <= i < workload@.len() ==> (#[trigger] workload@[i]).arrival_bound.admits(
            workload@[i].response_time_bound@,
        )
    &&& polling_points(workload@, subchain@, subchain@.len()) < usize::MAX
    &&& iterable(supply, &start_delay, 0, limit@, 1)
    &&& match search_from(supply, &start_delay, 0, limit@, 1) {
        None => true,
        Some(s_star) => {
            &&& workload@[eoc].admits(s_star)
            &&& workload@[eoc].self_interfering(s_star) < usize::MAX
            &&& workload@[eoc].cost_model.cost(workload@[eoc].self_interfering(s_star) + 1)
                <= u64::MAX
            &&& finish_demand(supply, workload@[eoc], s_star) <= u64::MAX
            &&& supply.admits_demand(finish_demand(supply, workload@[eoc], s_star))
        },
    }
}

/// The polling points that the callbacks of `subchain` can span, together.
fn subchain_polling_point_bound<AB: ArrivalBound, CM: JobCostModel>(
    workload: &[Callback<AB, CM>],
    subchain: &[usize],
) -> (n: usize)
    requires
        forall|k: int| 0 <= k < subchain@.len() ==> (#[trigger] subchain@[k]) < workload@.len(),
        forall|i: int| 0 <= i < workload@.len() ==> (#[trigger] workload@[i]).wf(),
        forall|i: int|
            0 <= i < workload@.len() ==> (#[trigger] workload@[i]).arrival_bound.admits(
                workload@[i].response_time_bound@,
            ),
        polling_points(workload@, subchain@, subchain@.len()) <= usize::MAX,
    ensures
        n == polling_points(workload@, subchain@, subchain@.len()),
{
    let mut total: usize = 0;
    let mut k: usize = 0;
    while k < subchain.len()
        invariant
            forall|k: int| 0 <= k < subchain@.len() ==> (#[trigger] subchain@[k]) < workload@.len(),
            forall|i: int| 0 <= i < workload@.len() ==> (#[trigger] workload@[i]).wf(),
            forall|i: int|
                0 <= i < workload@.len() ==> (#[trigger] workload@[i]).arrival_bound.admits(
                    workload@[i].response_time_bound@,
                ),
            polling_points(workload@, subchain@, subchain@.len()) <= usize::MAX,
            k <= subchain.len(),
            total == polling_points(workload@, subchain@, k as nat),
        decreases subchain.len() - k,
    {
        proof {
            lemma_polling_points_grow(workload@, subchain@, (k + 1) as nat, subchain@.len());
        }
        let cb = &workload[subchain[k]];
        total = total + cb.polling_point_bound();
        k += 1;
    }
    total
}

proof fn lemma_polling_points_grow<AB: ArrivalBound, CM: JobCostModel>(
    workload: Seq<Callback<AB, CM>>,
    subchain: Seq<usize>,
    upto: nat,
    all: nat,
)
    requires
        upto <= all,
    ensures
        polling_points(workload, subchain, upto) <= polling_points(workload, subchain, all),
    decreases all,
{
    if upto < all {
        lemma_polling_points_grow(workload, subchain, upto, (all - 1) as nat);
    }
}

/// Bound the response time of the last callback of a subchain under
/// round-robin-aware analysis.
///
/// `subchain` names the callbacks of the subchain by their places in
/// `workload`; the last of them is the callback under analysis. First the
/// latest start of its activation is found: the least time by which the
/// supply has served the smallest unit, the interference of all other
/// callbacks, limited by the polling points that the subchain can span, and
/// the earlier activations of the callback itself. The bound is the time
/// by which the supply has also served the activation.
#[allow(non_snake_case)]
pub fn rta_subchain<S: SupplyBound, AB: ArrivalBound, CM: JobCostModel>(
    supply: &S,
    workload: &[Callback<AB, CM>],
    subchain: &[usize],
    limit: Duration,
) -> (result: SearchResult)
    requires
        analysable(supply, workload, subchain, limit),
    ensures
        match search_from(
            supply,
            &StartDelay {
                workload,
                eoc: subchain@.last(),
                max_num_polling_points: polling_points(
                    workload@,
                    subchain@,
                    subchain@.len(),
                ) as usize,
            },
            0,
            limit@,
            1,
        ) {
            None => result == Err::<Duration, SearchFailure>(
                SearchFailure::DivergenceLimitExceeded { offset: Offset { val: 0 }, limit },
            ),
            Some(s_star) => result is Ok && result.unwrap()@ == supply.time_for(
                finish_demand(supply, workload@[subchain@.last() as int], s_star),
            ),
        },
{
    let eoc_at: usize = subchain[subchain.len() - 1];
    let eoc = &workload[eoc_at];
    let max_num_polling_points = subchain_polling_point_bound(workload, subchain);
    let rhs_S_star = StartDelay { workload, eoc: eoc_at, max_num_polling_points };
    let S_star = match search(supply, limit, &rhs_S_star) {
        Ok(S_star) => S_star,
        Err(failure) => {
            return Err(failure);
        },
    };
    let supply_star = supply.provided_service(S_star);
    let omega = eoc.marginal_execution_cost(S_star);
    let rhs_R_star = Service {
        val: supply_star.saturating_sub(Service::epsilon()).val + omega.val,
    };
    Ok(supply.service_time(rhs_R_star))
}

} // verus!
