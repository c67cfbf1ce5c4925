//! Busy-window-aware response-time analysis for chains of callbacks.

use vstd::prelude::*;
use super::rr::{at_most, interfering_activations};
use crate::arrival::aggregated::merge_steps;
use crate::arrival::{holds, increasing, is_step, lists_steps, ArrivalBound, ArrivalModel};
use crate::fixed_point::{
    iterable, lemma_search_within_limit, max_response_time, minus, reduced, search,
    search_from, SearchFailure, SearchResult, Workload,
};
use crate::supply::SupplyBound;
use crate::time::{Duration, Offset, Service};
use crate::wcet::JobCostModel;

pub use super::rr::{is_higher_callback_priority_than, CallbackType};

verus! {

/// A callback: its arrivals, its cost, its kind, and a bound on its
/// response time as found so far.
pub struct Callback<'a, 'b, AB, CM> {
    pub response_time_bound: Duration,
    pub arrival_bound: &'a AB,
    pub cost_model: &'b CM,
    pub kind: CallbackType,
}

impl<'a, 'b, AB: ArrivalModel, CM: JobCostModel> Callback<'a, 'b, AB, CM> {
    /// Describe a callback.
    pub fn new(
        response_time_bound: Duration,
        arrival_bound: &'a AB,
        cost_model: &'b CM,
        kind: CallbackType,
    ) -> (callback: Self)
        ensures
            callback.response_time_bound == response_time_bound,
            callback.arrival_bound == arrival_bound,
            callback.cost_model == cost_model,
            callback.kind == kind,
    {
        Callback { response_time_bound, arrival_bound, cost_model, kind }
    }

    /// The arrivals and the cost model are proper.
    pub open spec fn wf(&self) -> bool {
        self.arrival_bound.wf() && self.cost_model.wf()
    }

    /// The cost of the activations that arrive in an interval of length
    /// `delta` can be computed within the machine's limits.
    pub open spec fn admits(&self, delta: nat) -> bool {
        &&& self.arrival_bound.admits(delta)
        &&& self.arrival_bound.arrivals(delta) < usize::MAX
        &&& self.cost_model.cost(self.arrival_bound.arrivals(delta) + 1) <= u64::MAX
    }

    /// The activations of this callback that can interfere, in an interval
    /// of length `delta`, with a callback of kind `interfered_with` that is
    /// activated at `activation`.
    pub open spec fn interfering(
        &self,
        interfered_with: CallbackType,
        delta: nat,
        activation: nat,
        num_polling_points: nat,
    ) -> nat {
        interfering_activations(
            self.kind,
            interfered_with,
            self.arrival_bound.arrivals(delta),
            self.arrival_bound.arrivals(activation) + num_polling_points,
        )
    }

    /// The interference of this callback within the busy window.
    pub open spec fn in_busy_window(
        &self,
        interfered_with: CallbackType,
        delta: nat,
        activation: nat,
        num_polling_points: nat,
    ) -> nat {
        self.cost_model.cost(self.interfering(interfered_with, delta, activation, num_polling_points))
    }

    /// The earlier activations of this callback that can delay the one
    /// activated at `activation`.
    pub open spec fn self_interfering(&self, activation: nat) -> nat {
        minus(self.arrival_bound.arrivals(activation + 1), 1)
    }

    /// The cost of the activation at `activation`, after those that delay it.
    pub open spec fn marginal(&self, activation: nat) -> nat {
        minus(
            self.cost_model.cost(self.self_interfering(activation) + 1),
            self.cost_model.cost(self.self_interfering(activation)),
        )
    }

    /// Bound the interference of this callback within the busy window.
    fn busy_window_rbf(
        &self,
        interfered_with: &CallbackType,
        delta: Duration,
        activation_time: Offset,
        num_polling_points: usize,
    ) -> (s: Service)
        requires
            self.wf(),
            self.admits(delta@),
            self.admits(activation_time@),
            self.arrival_bound.arrivals(activation_time@) + num_polling_points < usize::MAX,
        ensures
            s@ == self.in_busy_window(
                *interfered_with,
                delta@,
                activation_time@,
                num_polling_points as nat,
            ),
    {
        let arrived = self.arrival_bound.number_arrivals(delta);
        let arrived_bw = self.arrival_bound.number_arrivals(activation_time.since_time_zero())
            + num_polling_points;
        let n: usize = match self.kind {
            CallbackType::Timer | CallbackType::EventSource => arrived,
            CallbackType::PolledUnknownPrio => at_most(arrived, arrived_bw + 1),
            CallbackType::Polled(inf_prio) => match *interfered_with {
                CallbackType::Polled(ref_prio) => {
                    let extra: usize = if is_higher_callback_priority_than(inf_prio, ref_prio) {
                        1
                    } else {
                        0
                    };
                    at_most(arrived, arrived_bw + extra)
                },
                _ => at_most(arrived, arrived_bw + 1),
            },
        };
        proof {
            self.cost_model.law_cost(n as nat, (arrived + 1) as nat);
        }
        self.cost_model.cost_of_jobs(n)
    }

    /// The earlier activations of this callback that can delay the one
    /// activated at `activation`.
    fn max_self_interfering_instances(&self, activation: Offset) -> (n: usize)
        requires
            self.wf(),
            activation@ < u64::MAX,
            self.admits(activation@ + 1),
        ensures
            n == self.self_interfering(activation@),
    {
        let arrived = self.arrival_bound.number_arrivals(activation.closed_since_time_zero());
        if arrived >= 1 {
            arrived - 1
        } else {
            0
        }
    }

    /// Bound the interference of earlier activations of this callback.
    fn self_interference_rbf(&self, activation: Offset) -> (s: Service)
        requires
            self.wf(),
            activation@ < u64::MAX,
            self.admits(activation@ + 1),
        ensures
            s@ == self.cost_model.cost(self.self_interfering(activation@)),
    {
        let n = self.max_self_interfering_instances(activation);
        proof {
            self.cost_model.law_cost(n as nat, self.arrival_bound.arrivals(activation@ + 1) + 1);
        }
        self.cost_model.cost_of_jobs(n)
    }

    /// Bound the cost of all activations of this callback that arrive in
    /// an interval of length `A_star`.
    #[allow(non_snake_case)]
    fn own_workload_rbf(&self, A_star: Offset) -> (s: Service)
        requires
            self.wf(),
            self.admits(A_star@),
        ensures
            s@ == self.cost_model.cost(self.arrival_bound.arrivals(A_star@)),
    {
        let n_activations = self.arrival_bound.number_arrivals(A_star.since_time_zero());
        proof {
            self.cost_model.law_cost(n_activations as nat, (n_activations + 1) as nat);
        }
        self.cost_model.cost_of_jobs(n_activations)
    }

    /// The cost of the activation at `activation`, after those that delay it.
    fn marginal_execution_cost(&self, activation: Offset) -> (s: Service)
        requires
            self.wf(),
            activation@ < u64::MAX,
            self.admits(activation@ + 1),
        ensures
            s@ == self.marginal(activation@),
    {
        let n = self.max_self_interfering_instances(activation);
        proof {
            self.cost_model.law_cost(n as nat, (n + 1) as nat);
            self.cost_model.law_cost(
                (n + 1) as nat,
                self.arrival_bound.arrivals(activation@ + 1) + 1,
            );
        }
        let more = self.cost_model.cost_of_jobs(n + 1);
        let fewer = self.cost_model.cost_of_jobs(n);
        Service { val: more.val - fewer.val }
    }

    /// The polling points that one activation of this callback can span.
    fn polling_point_bound(&self) -> (n: usize)
        requires
            self.wf(),
            self.arrival_bound.admits(self.response_time_bound@),
            self.arrival_bound.arrivals(self.response_time_bound@) <= usize::MAX,
        ensures
            n == self.arrival_bound.arrivals(self.response_time_bound@),
    {
        self.arrival_bound.number_arrivals(self.response_time_bound)
    }
}

/// The polling points that the callbacks at the first `upto` places of
/// `subchain` can span, together.
pub open spec fn polling_points<AB: ArrivalModel, CM: JobCostModel>(
    workload: Seq<Callback<AB, CM>>,
    subchain: Seq<usize>,
    upto: nat,
) -> nat
    decreases upto,
{
    if upto == 0 {
        0
    } else {
        let cb = workload[subchain[upto - 1] as int];
        polling_points(workload, subchain, (upto - 1) as nat) + cb.arrival_bound.arrivals(
            cb.response_time_bound@,
        )
    }
}

/// The interference within the busy window of the first `upto` callbacks of
/// `workload`, but for the one at `eoc`.
pub open spec fn busy_window_interference<AB: ArrivalModel, CM: JobCostModel>(
    workload: Seq<Callback<AB, CM>>,
    eoc: int,
    delta: nat,
    activation: nat,
    num_polling_points: nat,
    upto: nat,
) -> nat
    decreases upto,
{
    if upto == 0 {
        0
    } else {
        busy_window_interference(
            workload,
            eoc,
            delta,
            activation,
            num_polling_points,
            (upto - 1) as nat,
        ) + if upto - 1 == eoc {
            0
        } else {
            workload[upto - 1].in_busy_window(
                workload[eoc].kind,
                delta,
                activation,
                num_polling_points,
            )
        }
    }
}

proof fn lemma_interference_grows<AB: ArrivalModel, CM: JobCostModel>(
    workload: Seq<Callback<AB, CM>>,
    eoc: int,
    delta: nat,
    activation: nat,
    num_polling_points: nat,
    upto: nat,
    all: nat,
)
    requires
        upto <= all,
    ensures
        busy_window_interference(workload, eoc, delta, activation, num_polling_points, upto)
            <= busy_window_interference(workload, eoc, delta, activation, num_polling_points, all),
    decreases all,
{
    if upto < all {
        lemma_interference_grows(
            workload,
            eoc,
            delta,
            activation,
            num_polling_points,
            upto,
            (all - 1) as nat,
        );
    }
}

/// Every callback of the workload is proper, the callback under analysis is
/// one of them, and each can be evaluated at `delta` and at `activation`.
pub open spec fn evaluable<AB: ArrivalModel, CM: JobCostModel>(
    workload: Seq<Callback<AB, CM>>,
    eoc: int,
    delta: nat,
    activation: nat,
    num_polling_points: nat,
) -> bool {
    &&& 0 <= eoc < workload.len()
    &&& forall|i: int|
        0 <= i < workload.len() ==> {
            &&& (#[trigger] workload[i]).wf()
            &&& workload[i].admits(delta)
            &&& workload[i].admits(activation)
            &&& workload[i].arrival_bound.arrivals(activation) + num_polling_points < usize::MAX
        }
}

/// Bound the interference within the busy window of all callbacks but the
/// one under analysis.
fn bw_interference<AB: ArrivalModel, CM: JobCostModel>(
    workload: &[Callback<AB, CM>],
    eoc: usize,
    delta: Duration,
    activation: Offset,
    num_polling_points: usize,
) -> (s: Service)
    requires
        evaluable(workload@, eoc as int, delta@, activation@, num_polling_points as nat),
        busy_window_interference(
            workload@,
            eoc as int,
            delta@,
            activation@,
            num_polling_points as nat,
            workload@.len(),
        ) <= u64::MAX,
    ensures
        s@ == busy_window_interference(
            workload@,
            eoc as int,
            delta@,
            activation@,
            num_polling_points as nat,
            workload@.len(),
        ),
{
    let kind = workload[eoc].kind;
    let mut di: u64 = 0;
    let mut i: usize = 0;
    while i < workload.len()
        invariant
            evaluable(workload@, eoc as int, delta@, activation@, num_polling_points as nat),
            busy_window_interference(
                workload@,
                eoc as int,
                delta@,
                activation@,
                num_polling_points as nat,
                workload@.len(),
            ) <= u64::MAX,
            kind == workload@[eoc as int].kind,
            i <= workload.len(),
            di == busy_window_interference(
                workload@,
                eoc as int,
                delta@,
                activation@,
                num_polling_points as nat,
                i as nat,
            ),
        decreases workload.len() - i,
    {
        proof {
            lemma_interference_grows(
                workload@,
                eoc as int,
                delta@,
                activation@,
                num_polling_points as nat,
                (i + 1) as nat,
                workload@.len(),
            );
        }
        if i != eoc {
            let part = workload[i].busy_window_rbf(&kind, delta, activation, num_polling_points);
            di = di + part.val;
        }
        i += 1;
    }
    Service { val: di }
}

/// The demand that delays the start of the activation at `activation` of
/// the callback under analysis. `si` is the cost of its earlier activations.
pub struct StartDelay<'w, 'a, 'b, AB, CM> {
    pub workload: &'w [Callback<'a, 'b, AB, CM>],
    pub eoc: usize,
    pub max_num_polling_points: usize,
    pub activation: Offset,
    pub si: Service,
}

impl<'w, 'a, 'b, AB: ArrivalModel, CM: JobCostModel> Workload for StartDelay<'w, 'a, 'b, AB, CM> {
    open spec fn wf(&self) -> bool {
        self.eoc < self.workload@.len()
    }

    open spec fn bound(&self, delta: nat) -> nat {
        1 + busy_window_interference(
            self.workload@,
            self.eoc as int,
            delta,
            self.activation@,
            self.max_num_polling_points as nat,
            self.workload@.len(),
        ) + self.si@
    }

    open spec fn admits(&self, delta: nat) -> bool {
        &&& evaluable(
            self.workload@,
            self.eoc as int,
            delta,
            self.activation@,
            self.max_num_polling_points as nat,
        )
        &&& self.bound(delta) <= u64::MAX
    }

    fn demand(&self, delta: Duration) -> (s: Service) {
        let di = bw_interference(
            self.workload,
            self.eoc,
            delta,
            self.activation,
            self.max_num_polling_points,
        );
        Service { val: Service::epsilon().val + di.val + self.si.val }
    }
}

/// The demand that bounds the busy window: the interference of all other
/// callbacks and all activations of the callback under analysis.
pub struct BusyWindow<'w, 'a, 'b, AB, CM> {
    pub workload: &'w [Callback<'a, 'b, AB, CM>],
    pub eoc: usize,
    pub max_num_polling_points: usize,
}

impl<'w, 'a, 'b, AB: ArrivalModel, CM: JobCostModel> Workload for BusyWindow<'w, 'a, 'b, AB, CM> {
    open spec fn wf(&self) -> bool {
        self.eoc < self.workload@.len()
    }

    open spec fn bound(&self, delta: nat) -> nat {
        let eoc = self.workload@[self.eoc as int];
        1 + busy_window_interference(
            self.workload@,
            self.eoc as int,
            delta,
            delta,
            self.max_num_polling_points as nat,
            self.workload@.len(),
        ) + eoc.cost_model.cost(eoc.arrival_bound.arrivals(delta))
    }

    open spec fn admits(&self, delta: nat) -> bool {
        &&& evaluable(
            self.workload@,
            self.eoc as int,
            delta,
            delta,
            self.max_num_polling_points as nat,
        )
        &&& self.bound(delta) <= u64::MAX
    }

    #[allow(non_snake_case)]
    fn demand(&self, A_star: Duration) -> (s: Service) {
        let at = Offset::from_time_zero(A_star);
        let si = self.workload[self.eoc].own_workload_rbf(at);
        let di = bw_interference(
            self.workload,
            self.eoc,
            A_star,
            at,
            self.max_num_polling_points,
        );
        Service { val: Service::epsilon().val + di.val + si.val }
    }
}

/// The demand that delays the start of the activation at `a`.
pub open spec fn start_delay<'w, 'a, 'b, AB: ArrivalModel, CM: JobCostModel>(
    workload: &'w [Callback<'a, 'b, AB, CM>],
    eoc: usize,
    max_num_polling_points: usize,
    a: nat,
) -> StartDelay<'w, 'a, 'b, AB, CM> {
    StartDelay {
        workload,
        eoc,
        max_num_polling_points,
        activation: Offset { val: a as u64 },
        si: Service {
            val: workload@[eoc as int].cost_model.cost(
                workload@[eoc as int].self_interfering(a),
            ) as u64,
        },
    }
}

/// The demand that the supply must have served when the activation at `a`
/// is done, if it starts after `s_star`: what was served until then, less
/// the smallest unit, and the cost of the activation.
pub open spec fn finish_demand<S: SupplyBound, AB: ArrivalModel, CM: JobCostModel>(
    supply: &S,
    eoc: Callback<AB, CM>,
    s_star: nat,
    a: nat,
) -> nat {
    minus(supply.supply(s_star), 1) + eoc.marginal(a)
}

/// The response time of the activation at `a`: the time by which the supply
/// has served what it had served when the activation could start, less
/// the smallest unit, and the activation itself, measured from `a` with a
/// floor of zero. `None` if the search for the start exceeds the limit.
pub open spec fn response_at<S: SupplyBound, AB: ArrivalModel, CM: JobCostModel>(
    supply: &S,
    workload: &[Callback<AB, CM>],
    eoc: usize,
    max_num_polling_points: usize,
    limit: nat,
    a: nat,
) -> Option<nat> {
    match search_from(
        supply,
        &start_delay(workload, eoc, max_num_polling_points, a),
        0,
        limit,
        1,
    ) {
        None => None,
        Some(s_star) => Some(
            minus(supply.time_for(finish_demand(supply, workload@[eoc as int], s_star, a)), a),
        ),
    }
}

/// The response-time bounds of the activations at `activations`.
pub open spec fn responses<S: SupplyBound, AB: ArrivalModel, CM: JobCostModel>(
    supply: &S,
    workload: &[Callback<AB, CM>],
    eoc: usize,
    max_num_polling_points: usize,
    limit: Duration,
    activations: Seq<Duration>,
) -> Seq<SearchResult> {
    Seq::new(
        activations.len(),
        |i: int|
            match response_at(
                supply,
                workload,
                eoc,
                max_num_polling_points,
                limit@,
                activations[i]@,
            ) {
                Some(response) => Ok(Duration { val: response as u64 }),
                None => Err(
                    SearchFailure::DivergenceLimitExceeded { offset: Offset { val: 0 }, limit },
                ),
            },
    )
}

/// An activation at `a` belongs to the search space: the arrivals of the
/// callback under analysis step right after `a`, or those of a polled
/// callback step at `a`.
pub open spec fn is_activation<AB: ArrivalModel, CM: JobCostModel>(
    workload: Seq<Callback<AB, CM>>,
    eoc: int,
    a: nat,
) -> bool {
    exists|i: int| 0 <= i < workload.len() && #[trigger] activates(workload, eoc, i, a)
}

/// The callback at place `i` puts an activation at `a` into the search
/// space: it is the callback under analysis and its arrivals step right
/// after `a`, or it is polled and its arrivals step at `a`.
pub open spec fn activates<AB: ArrivalModel, CM: JobCostModel>(
    workload: Seq<Callback<AB, CM>>,
    eoc: int,
    i: int,
    a: nat,
) -> bool {
    if i == eoc {
        is_step(|delta: nat| workload[i].arrival_bound.arrivals(delta), a + 1)
    } else {
        !(workload[i].kind is Timer || workload[i].kind is EventSource) && is_step(
            |delta: nat| workload[i].arrival_bound.arrivals(delta),
            a,
        )
    }
}

/// `activations` lists, in increasing order, exactly the activations of the
/// search space below `max_offset`.
pub open spec fn lists_activations<AB: ArrivalModel, CM: JobCostModel>(
    activations: Seq<Duration>,
    workload: Seq<Callback<AB, CM>>,
    eoc: int,
    max_offset: nat,
) -> bool {
    &&& increasing(activations)
    &&& forall|a: nat|
        #![trigger holds(activations, a)]
        #![trigger is_activation(workload, eoc, a)]
        holds(activations, a) <==> a < max_offset && is_activation(workload, eoc, a)
}

/// What the analysis asks of its inputs: a subchain that is not empty and
/// lies within the workload, and quantities within the machine's limits
/// wherever the analysis computes them.
pub open spec fn analysable<S: SupplyBound, AB: ArrivalModel, CM: JobCostModel>(
    supply: &S,
    workload: &[Callback<AB, CM>],
    subchain: &[usize],
    limit: Duration,
) -> bool {
    let eoc = subchain@.last();
    let npp = polling_points(workload@, subchain@, subchain@.len()) as usize;
    &&& supply.wf()
    &&& limit@ < u64::MAX
    &&& subchain@.len() > 0
    &&& forall|k: int| 0 <= k < subchain@.len() ==> (#[trigger] subchain@[k]) < workload@.len()
    &&& forall|i: int| 0 <= i < workload@.len() ==> (#[trigger] workload@[i]).wf()
    &&& forall|i: int|
        0 <= i < workload@.len() ==> (#[trigger] workload@[i]).arrival_bound.admits(
            workload@[i].response_time_bound@,
        )
    &&& forall|i: int| 0 <= i < workload@.len() ==> (#[trigger] workload@[i]).admits(limit@ + 1)
    &&& polling_points(workload@, subchain@, subchain@.len()) < usize::MAX
    &&& iterable(supply, &BusyWindow { workload, eoc, max_num_polling_points: npp }, 0, limit@, 1)
    &&& match search_from(
        supply,
        &BusyWindow { workload, eoc, max_num_polling_points: npp },
        0,
        limit@,
        1,
    ) {
        None => true,
        Some(max_offset) => forall|a: nat|
            a < max_offset && is_activation(workload@, eoc as int, a) ==> #[trigger] activation_ready(
                supply,
                workload,
                eoc,
                npp,
                limit@,
                a,
            ),
    }
}

/// The analysis of the activation at `a` stays within the machine's limits:
/// the search for its start can be carried out, and if it converges, the
/// supply can serve what it must have served when the activation is done.
pub open spec fn activation_ready<S: SupplyBound, AB: ArrivalModel, CM: JobCostModel>(
    supply: &S,
    workload: &[Callback<AB, CM>],
    eoc: usize,
    max_num_polling_points: usize,
    limit: nat,
    a: nat,
) -> bool {
    let rhs = start_delay(workload, eoc, max_num_polling_points, a);
    &&& iterable(supply, &rhs, 0, limit, 1)
    &&& match search_from(supply, &rhs, 0, limit, 1) {
        None => true,
        Some(s_star) => finish_demand(supply, workload@[eoc as int], s_star, a) <= u64::MAX
            && supply.admits_demand(finish_demand(supply, workload@[eoc as int], s_star, a)),
    }
}

/// The polling points that the callbacks of `subchain` can span, together.
fn subchain_polling_point_bound<AB: ArrivalModel, CM: JobCostModel>(
    workload: &[Callback<AB, CM>],
    subchain: &[usize],
) -> (n: usize)
    requires
        forall|k: int| 0 <= k < subchain@.len() ==> (#[trigger] subchain@[k]) < workload@.len(),
        forall|i: int| 0 <= i < workload@.len() ==> (#[trigger] workload@[i]).wf(),
        forall|i: int|
            0 <= i < workload@.len() ==> (#[trigger] workload@[i]).arrival_bound.admits(
                workload@[i].response_time_bound@,
            ),
        polling_points(workload@, subchain@, subchain@.len()) <= usize::MAX,
    ensures
        n == polling_points(workload@, subchain@, subchain@.len()),
{
    let mut total: usize = 0;
    let mut k: usize = 0;
    while k < subchain.len()
        invariant
            forall|k: int| 0 <= k < subchain@.len() ==> (#[trigger] subchain@[k]) < workload@.len(),
            forall|i: int| 0 <= i < workload@.len() ==> (#[trigger] workload@[i]).wf(),
            forall|i: int|
                0 <= i < workload@.len() ==> (#[trigger] workload@[i]).arrival_bound.admits(
                    workload@[i].response_time_bound@,
                ),
            polling_points(workload@, subchain@, subchain@.len()) <= usize::MAX,
            k <= subchain.len(),
            total == polling_points(workload@, subchain@, k as nat),
        decreases subchain.len() - k,
    {
        proof {
            lemma_polling_points_grow(workload@, subchain@, (k + 1) as nat, subchain@.len());
        }
        let cb = &workload[subchain[k]];
        total = total + cb.polling_point_bound();
        k += 1;
    }
    total
}

proof fn lemma_polling_points_grow<AB: ArrivalModel, CM: JobCostModel>(
    workload: Seq<Callback<AB, CM>>,
    subchain: Seq<usize>,
    upto: nat,
    all: nat,
)
    requires
        upto <= all,
    ensures
        polling_points(workload, subchain, upto) <= polling_points(workload, subchain, all),
    decreases all,
{
    if upto < all {
        lemma_polling_points_grow(workload, subchain, upto, (all - 1) as nat);
    }
}

/// The activations of the search space below `max_offset`: the merged steps
/// of the polled callbacks and, moved earlier by the smallest unit, of the
/// callback under analysis.
fn search_space<AB: ArrivalModel, CM: JobCostModel>(
    workload: &[Callback<AB, CM>],
    eoc: usize,
    max_offset: Duration,
) -> (activations: Vec<Duration>)
    requires
        eoc < workload@.len(),
        forall|i: int| 0 <= i < workload@.len() ==> (#[trigger] workload@[i]).wf(),
        forall|i: int| 0 <= i < workload@.len() ==> (#[trigger] workload@[i]).admits(max_offset@),
    ensures
        lists_activations(activations@, workload@, eoc as int, max_offset@),
{
    let mut lists: Vec<Vec<Duration>> = Vec::new();
    let mut i: usize = 0;
    while i < workload.len()
        invariant
            eoc < workload@.len(),
            forall|i: int| 0 <= i < workload@.len() ==> (#[trigger] workload@[i]).wf(),
            forall|i: int|
                0 <= i < workload@.len() ==> (#[trigger] workload@[i]).admits(max_offset@),
            i <= workload.len(),
            lists@.len() == i,
            forall|k: int| 0 <= k < i ==> increasing(#[trigger] lists@[k]@),
            forall|k: int, a: nat|
                0 <= k < i ==> (#[trigger] holds(lists@[k]@, a) <==> a < max_offset@ && activates(
                    workload@,
                    eoc as int,
                    k,
                    a,
                )),
        decreases workload.len() - i,
    {
        let cb = &workload[i];
        let mut shifted: Vec<Duration> = Vec::new();
        if i == eoc {
            let steps = cb.arrival_bound.steps_iter(max_offset);
            let mut j: usize = 0;
            while j < steps.len()
                invariant
                    lists_steps(
                        steps@,
                        |delta: nat| cb.arrival_bound.arrivals(delta),
                        max_offset@,
                    ),
                    j <= steps.len(),
                    shifted@.len() == j,
                    forall|m: int| 0 <= m < j ==> (#[trigger] shifted@[m])@ == steps@[m]@ - 1,
                decreases steps.len() - j,
            {
                shifted.push(steps[j].saturating_sub(Duration::epsilon()));
                j += 1;
            }
            proof {
                let arrivals = |delta: nat| cb.arrival_bound.arrivals(delta);
                assert forall|a: nat|
                    holds(shifted@, a) <==> a < max_offset@ && is_step(arrivals, a + 1) by {
                    if holds(shifted@, a) {
                        let m = choose|m: int| 0 <= m < shifted@.len() && (#[trigger] shifted@[m])@ == a;
                        assert(steps@[m]@ == a + 1);
                    }
                    if a < max_offset@ && is_step(arrivals, a + 1) {
                        assert(holds(steps@, a + 1));
                        let m = choose|m: int| 0 <= m < steps@.len() && (#[trigger] steps@[m])@ == a + 1;
                        assert(shifted@[m]@ == a);
                    }
                }
                assert forall|m: int, n: int| 0 <= m < n < shifted@.len() implies shifted@[m]@
                    < shifted@[n]@ by {
                    assert(steps@[m]@ < steps@[n]@);
                }
            }
        } else if cb.kind.is_pp() && max_offset.val >= 1 {
            let below = Duration { val: max_offset.val - 1 };
            proof {
                cb.arrival_bound.law_arrivals(below@, max_offset@);
            }
            shifted = cb.arrival_bound.steps_iter(below);
            proof {
                let arrivals = |delta: nat| cb.arrival_bound.arrivals(delta);
                assert forall|a: nat| holds(shifted@, a) <==> a < max_offset@ && is_step(
                    arrivals,
                    a,
                ) by {
                    if holds(shifted@, a) {
                        let m = choose|m: int| 0 <= m < shifted@.len() && (#[trigger] shifted@[m])@ == a;
                    }
                }
            }
        }
        lists.push(shifted);
        i += 1;
    }
    let activations = merge_steps(&lists);
    proof {
        assert forall|a: nat|
            #![trigger holds(activations@, a)]
            #![trigger is_activation(workload@, eoc as int, a)]
            holds(activations@, a) <==> a < max_offset@ && is_activation(
                workload@,
                eoc as int,
                a,
            ) by {
            if holds(activations@, a) {
                let k = choose|k: int| 0 <= k < lists@.len() && holds(#[trigger] lists@[k]@, a);
                assert(activates(workload@, eoc as int, k, a));
            }
            if a < max_offset@ && is_activation(workload@, eoc as int, a) {
                let k = choose|k: int|
                    0 <= k < workload@.len() && #[trigger] activates(workload@, eoc as int, k, a);
                assert(holds(lists@[k]@, a));
            }
        }
    }
    activations
}

/// Bound the response time of the last callback of a subchain under
/// busy-window-aware analysis.
///
/// `subchain` names the callbacks of the subchain by their places in
/// `workload`; the last of them is the callback under analysis. First the
/// busy window is bounded. Then, for each activation in it at which the
/// arrivals of a polled callback or of the callback under analysis step,
/// the latest start of the activation is found, and from it the time by
/// which the supply has also served the activation. The bound is the
/// largest distance from an activation to that time. If any search exceeds
/// `limit`, so does the analysis.
#[allow(non_snake_case)]
pub fn rta_subchain<S: SupplyBound, AB: ArrivalModel, CM: JobCostModel>(
    supply: &S,
    workload: &[Callback<AB, CM>],
    subchain: &[usize],
    limit: Duration,
) -> (result: SearchResult)
    requires
        analysable(supply, workload, subchain, limit),
    ensures
        ({
            let eoc = subchain@.last();
            let npp = polling_points(workload@, subchain@, subchain@.len()) as usize;
            match search_from(
                supply,
                &BusyWindow { workload, eoc, max_num_polling_points: npp },
                0,
                limit@,
                1,
            ) {
                None => result == Err::<Duration, SearchFailure>(
                    SearchFailure::DivergenceLimitExceeded { offset: Offset { val: 0 }, limit },
                ),
                Some(max_offset) => exists|activations: Seq<Duration>|
                    lists_activations(activations, workload@, eoc as int, max_offset) && result
                        == reduced(
                        #[trigger] responses(supply, workload, eoc, npp, limit, activations),
                    ),
            }
        }),
{
    let max_num_polling_points = subchain_polling_point_bound(workload, subchain);
    let eoc_at: usize = subchain[subchain.len() - 1];
    let eoc = &workload[eoc_at];
    let rhs_max = BusyWindow { workload, eoc: eoc_at, max_num_polling_points };
    let max_offset = match search(supply, limit, &rhs_max) {
        Ok(max_offset) => max_offset,
        Err(failure) => {
            return Err(failure);
        },
    };
    proof {
        lemma_search_within_limit(supply, &rhs_max, limit@, 1);
        assert forall|i: int| 0 <= i < workload@.len() implies (#[trigger] workload@[i]).admits(
            max_offset@,
        ) by {
            workload@[i].arrival_bound.law_arrivals(max_offset@, limit@ + 1);
            workload@[i].cost_model.law_cost(
                workload@[i].arrival_bound.arrivals(max_offset@) + 1,
                workload@[i].arrival_bound.arrivals(limit@ + 1) + 1,
            );
        }
    }
    let activations = search_space(workload, eoc_at, max_offset);
    let mut results: Vec<SearchResult> = Vec::new();
    let mut i: usize = 0;
    while i < activations.len()
        invariant
            analysable(supply, workload, subchain, limit),
            eoc_at == subchain@.last(),
            *eoc == workload@[eoc_at as int],
            max_num_polling_points == polling_points(workload@, subchain@, subchain@.len()),
            max_offset@ <= limit@,
            search_from(supply, &rhs_max, 0, limit@, 1) == Some(max_offset@),
            rhs_max == (BusyWindow { workload, eoc: eoc_at, max_num_polling_points }),
            lists_activations(activations@, workload@, eoc_at as int, max_offset@),
            i <= activations.len(),
            results@ == responses(
                supply,
                workload,
                eoc_at,
                max_num_polling_points,
                limit,
                activations@,
            ).take(i as int),
        decreases activations.len() - i,
    {
        let activation = Offset::from_time_zero(activations[i]);
        proof {
            assert(activations@[i as int]@ == activation@);
            assert(holds(activations@, activation@));
            workload@[eoc_at as int].arrival_bound.law_arrivals(activation@ + 1, limit@ + 1);
            workload@[eoc_at as int].cost_model.law_cost(
                workload@[eoc_at as int].arrival_bound.arrivals(activation@ + 1) + 1,
                workload@[eoc_at as int].arrival_bound.arrivals(limit@ + 1) + 1,
            );
        }
        let si = eoc.self_interference_rbf(activation);
        let rhs_S_star = StartDelay {
            workload,
            eoc: eoc_at,
            max_num_polling_points,
            activation,
            si,
        };
        proof {
            assert(rhs_S_star == start_delay(
                workload,
                eoc_at,
                max_num_polling_points,
                activation@,
            ));
            lemma_search_within_limit(supply, &rhs_S_star, limit@, 1);
            assert(activation_ready(
                supply,
                workload,
                eoc_at,
                max_num_polling_points,
                limit@,
                activation@,
            ));
        }
        let outcome_at: SearchResult = match search(supply, limit, &rhs_S_star) {
            Ok(S_star) => {
                let supply_star = supply.provided_service(S_star);
                let omega = eoc.marginal_execution_cost(activation);
                let rhs_F_star = Service {
                    val: supply_star.saturating_sub(Service::epsilon()).val + omega.val,
                };
                let F_star = supply.service_time(rhs_F_star);
                Ok(F_star.saturating_sub(activation.since_time_zero()))
            },
            Err(failure) => Err(failure),
        };
        results.push(outcome_at);
        proof {
            let all = responses(
                supply,
                workload,
                eoc_at,
                max_num_polling_points,
                limit,
                activations@,
            );
            assert(all[i as int] == outcome_at);
            assert(results@ == all.take(i + 1));
        }
        i += 1;
    }
    proof {
        let all = responses(supply, workload, eoc_at, max_num_polling_points, limit, activations@);
        assert(all.take(i as int) == all);
    }
    max_response_time(results.as_slice())
}

} // verus!
