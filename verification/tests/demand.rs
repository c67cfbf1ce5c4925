use response_time_analysis::arrival::{Periodic, Sporadic};
use response_time_analysis::demand::{
    step_offsets, Aggregate, AggregateRequestBound, RequestBound, Slice, RBF,
};
use response_time_analysis::fixed_point::{
    bound_response_time, search, OffsetWorkload, SearchFailure, Workload,
};
use response_time_analysis::ros2::ecrts19::{CallbackDemand, EventSourceDemand};
use response_time_analysis::ros2::window_aware::rta_processing_chain_window_aware;
use response_time_analysis::supply;
use response_time_analysis::time::{Duration, Offset, Service};
use response_time_analysis::wcet::{Multiframe, Scalar};

fn d(val: u64) -> Duration {
    Duration::from(val)
}

fn s(val: u64) -> Service {
    Service::from(val)
}

fn sv(vals: &[u64]) -> Vec<Service> {
    vals.iter().map(|t| s(*t)).collect()
}

fn sorted(mut costs: Vec<Service>) -> Vec<Service> {
    costs.sort();
    costs
}

#[test]
fn rbf_pairs_arrivals_with_costs() {
    let rbf = RBF::new(Periodic::new(d(10)), Multiframe::new(sv(&[1, 5, 3])));
    assert_eq!(rbf.service_needed(d(0)), s(0));
    assert_eq!(rbf.service_needed(d(1)), s(1));
    assert_eq!(rbf.service_needed(d(11)), s(6));
    assert_eq!(rbf.service_needed(d(21)), s(9));
    assert_eq!(rbf.service_needed(d(31)), s(10));
    assert_eq!(rbf.least_wcet_in_interval(d(0)), s(0));
    assert_eq!(rbf.least_wcet_in_interval(d(1)), s(1));
    assert_eq!(rbf.least_wcet_in_interval(d(25)), s(1));
    assert_eq!(rbf.steps_iter(d(31)), vec![d(1), d(11), d(21), d(31)]);
    assert_eq!(rbf.job_cost_iter(d(31)), sv(&[1, 5, 3, 1]));
}

#[test]
fn the_costliest_jobs_are_counted_not_the_first() {
    let rbf = RBF::new(Periodic::new(d(10)), Multiframe::new(sv(&[1, 5, 3])));
    assert_eq!(rbf.service_needed_by_n_jobs(d(21), 0), s(0));
    assert_eq!(rbf.service_needed_by_n_jobs(d(21), 1), s(5));
    assert_eq!(rbf.service_needed_by_n_jobs(d(21), 2), s(8));
    assert_eq!(rbf.service_needed_by_n_jobs(d(21), 3), s(9));
    assert_eq!(rbf.service_needed_by_n_jobs(d(21), 7), s(9));
    assert_eq!(rbf.service_needed_by_n_jobs(d(0), 7), s(0));
}

#[test]
fn joint_demand_sums_its_parts() {
    let parts = vec![
        RBF::new(Sporadic::new(d(4), d(0)), Multiframe::new(sv(&[2, 7]))),
        RBF::new(Sporadic::new(d(6), d(0)), Multiframe::new(sv(&[4, 1]))),
    ];
    let slice = Slice::of(&parts);
    assert_eq!(slice.service_needed(d(0)), s(0));
    assert_eq!(slice.service_needed(d(1)), s(6));
    assert_eq!(slice.service_needed(d(5)), s(13));
    assert_eq!(slice.service_needed(d(7)), s(14));
    assert_eq!(slice.least_wcet_in_interval(d(1)), s(2));
    assert_eq!(slice.least_wcet_in_interval(d(7)), s(1));
    assert_eq!(slice.steps_iter(d(13)), vec![d(1), d(5), d(7), d(9), d(13)]);
    assert_eq!(sorted(slice.job_cost_iter(d(7))), sv(&[1, 2, 4, 7]));
    assert_eq!(slice.service_needed_by_n_jobs(d(7), 2), s(11));
    assert_eq!(slice.service_needed_by_n_jobs_per_component(d(7), 1), s(11));
    assert_eq!(slice.service_needed_by_n_jobs_per_component(d(9), 1), s(11));
    assert_eq!(slice.service_needed_by_n_jobs(d(9), 2), s(11));
    assert_eq!(slice.service_needed_by_n_jobs(d(9), 3), s(13));

    let aggregate = Aggregate::new(vec![
        RBF::new(Sporadic::new(d(4), d(0)), Multiframe::new(sv(&[2, 7]))),
        RBF::new(Sporadic::new(d(6), d(0)), Multiframe::new(sv(&[4, 1]))),
    ]);
    for delta in 0..60 {
        assert_eq!(aggregate.service_needed(d(delta)), slice.service_needed(d(delta)));
        assert_eq!(
            aggregate.least_wcet_in_interval(d(delta)),
            slice.least_wcet_in_interval(d(delta))
        );
        assert_eq!(
            aggregate.service_needed_by_n_jobs_per_component(d(delta), 2),
            slice.service_needed_by_n_jobs_per_component(d(delta), 2)
        );
    }
    assert_eq!(aggregate.steps_iter(d(60)), slice.steps_iter(d(60)));

    let nothing: Vec<RBF<Sporadic, Scalar>> = vec![];
    let empty = Slice::of(&nothing);
    assert_eq!(empty.service_needed(d(100)), s(0));
    assert_eq!(empty.least_wcet_in_interval(d(100)), s(0));
    assert_eq!(empty.steps_iter(d(100)), vec![]);
}

#[test]
fn steps_become_offsets_of_closed_intervals() {
    let rbf = RBF::new(Periodic::new(d(10)), Scalar::new(s(1)));
    let offsets = step_offsets(&rbf.steps_iter(d(25)));
    assert_eq!(offsets, vec![Offset::from(0), Offset::from(10), Offset::from(20)]);
}

#[test]
fn bounded_search_takes_the_worst_offset() {
    let sbf = supply::Periodic::new(s(3), d(5));
    let own = RBF::new(Periodic::new(d(10)), Scalar::new(s(1)));
    let interference = Aggregate::new(vec![
        RBF::new(Periodic::new(d(10)), Scalar::new(s(1))),
        RBF::new(Periodic::new(d(20)), Scalar::new(s(3))),
    ]);
    let rhs = CallbackDemand {
        own_demand: &own,
        interfering_demand: &interference,
        blocking_bound: s(0),
    };
    // the busy window: the iterates are 1, 11 and 15
    assert_eq!(search(&sbf, d(100), &rhs), Ok(d(15)));
    assert_eq!(Workload::demand(&rhs, d(12)), s(7));
    assert_eq!(OffsetWorkload::demand(&rhs, Offset::from(10), d(2)), s(7));
    assert_eq!(bound_response_time(&sbf, &own, &rhs, &rhs, d(100)), Ok(d(12)));
    // the search for the busy window exceeds a limit of 11
    assert_eq!(
        bound_response_time(&sbf, &own, &rhs, &rhs, d(11)),
        Err(SearchFailure::DivergenceLimitExceeded {
            offset: Offset::from(0),
            limit: d(11)
        })
    );
    let alone = EventSourceDemand { demand: &own };
    assert_eq!(bound_response_time(&sbf, &own, &alone, &alone, d(100)), Ok(d(5)));
}

#[test]
fn window_aware_chain_analysis() {
    let sbf = supply::Dedicated::new();
    let arrivals = Periodic::new(d(100));
    let others = Aggregate::new(vec![
        RBF::new(Periodic::new(d(50)), Scalar::new(s(4))),
        RBF::new(Periodic::new(d(100)), Scalar::new(s(6))),
    ]);
    // the last callback costs 3, those before it 1 + 2, and one job of
    // each of the two other sources interferes: 3 + 3 + 4 + 6 = 16
    let result = rta_processing_chain_window_aware(&sbf, &sv(&[1, 2, 3]), &arrivals, &others, d(1000));
    assert_eq!(result, Ok(d(16)));
    let alone = Aggregate::new(Vec::<RBF<Periodic, Scalar>>::new());
    let result = rta_processing_chain_window_aware(&sbf, &sv(&[1, 2, 3]), &arrivals, &alone, d(1000));
    assert_eq!(result, Ok(d(6)));
}
