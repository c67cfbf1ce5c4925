use response_time_analysis::arrival::Periodic;
use response_time_analysis::ros2::{bw, rr};
use response_time_analysis::supply;
use response_time_analysis::time::{Duration, Service};
use response_time_analysis::wcet::Scalar;

fn d(val: u64) -> Duration {
    Duration::from(val)
}

fn s(val: u64) -> Service {
    Service::from(val)
}

#[test]
fn ros2_rr_subchain_analysis() {
    // keep it simple to reason about
    let sbf = supply::Dedicated::new();

    let arrival_models = vec![
        Periodic::new(d(100)),
        Periodic::new(d(10000)),
        Periodic::new(d(1000)),
    ];

    let cost_models = vec![
        Scalar::from(s(10)),
        Scalar::from(s(230)),
        Scalar::from(s(190)),
    ];

    let assumed_response_time_bounds = vec![
        // (before polling point) + (own polling point)
        d((10 * 10) + (190 + 230 + 10)),
        d((10) + (10 + 190 + 230)),
        d((10) + (10 + 230 + 190)),
    ];

    let unknown = rr::CallbackType::PolledUnknownPrio;

    let callbacks = vec![
        rr::Callback::new(
            assumed_response_time_bounds[0],
            &arrival_models[0],
            &cost_models[0],
            unknown,
        ),
        rr::Callback::new(
            assumed_response_time_bounds[1],
            &arrival_models[1],
            &cost_models[1],
            unknown,
        ),
        rr::Callback::new(
            assumed_response_time_bounds[2],
            &arrival_models[2],
            &cost_models[2],
            unknown,
        ),
    ];

    let workload = &callbacks[..];

    // single-callback "chains", named by their places in the workload
    let sc0 = [0usize];
    let sc1 = [1usize];
    let sc2 = [2usize];

    let b0 = rr::rta_subchain(&sbf, workload, &sc0[..], d(100000)).expect("no fixed point found");
    let b1 = rr::rta_subchain(&sbf, workload, &sc1[..], d(100000)).expect("no fixed point found");
    let b2 = rr::rta_subchain(&sbf, workload, &sc2[..], d(100000)).expect("no fixed point found");

    assert_eq!(b0, assumed_response_time_bounds[0]);
    assert_eq!(b1, assumed_response_time_bounds[1]);
    assert_eq!(b2, assumed_response_time_bounds[2]);
}

#[test]
fn singleton_subchain_rr() {
    let sbf = supply::Periodic {
        period: d(5),
        budget: s(3),
    };
    let arrivals = Periodic::new(d(100));
    let cost = Scalar::from(s(1));

    let callbacks = vec![rr::Callback::new(
        d(5),
        &arrivals,
        &cost,
        rr::CallbackType::Timer,
    )];

    let workload = &callbacks[..];

    // single-callback "subchain"
    let sc = [0usize];

    let res = rr::rta_subchain(&sbf, workload, &sc[..], d(100000)).expect("no fixed point found");
    assert_eq!(res, d(5));
}

#[test]
fn callback_kinds_and_priorities() {
    assert!(!rr::CallbackType::Timer.is_pp());
    assert!(!rr::CallbackType::EventSource.is_pp());
    assert!(rr::CallbackType::PolledUnknownPrio.is_pp());
    assert!(rr::CallbackType::Polled(3).is_pp());
    assert!(rr::is_higher_callback_priority_than(1, 2));
    assert!(!rr::is_higher_callback_priority_than(2, 2));
    assert!(!rr::is_higher_callback_priority_than(3, 2));
}

#[test]
fn ros2_bw_subchain_analysis() {
    // keep it simple to reason about
    let sbf = supply::Dedicated::new();

    let arrival_models = vec![
        Periodic::new(d(100)),
        Periodic::new(d(10000)),
        Periodic::new(d(1000)),
    ];

    let cost_models = vec![
        Scalar::from(s(10)),
        Scalar::from(s(230)),
        Scalar::from(s(190)),
    ];

    let assumed_response_time_bounds = vec![
        d(190 + 230 + 10),
        d(3 * 10 + 190 + 230 - 1),
        d(3 * 10 + 190 + 230 - 1),
    ];

    let unknown = rr::CallbackType::PolledUnknownPrio;

    let callbacks = vec![
        bw::Callback::new(
            assumed_response_time_bounds[0],
            &arrival_models[0],
            &cost_models[0],
            unknown,
        ),
        bw::Callback::new(
            assumed_response_time_bounds[1],
            &arrival_models[1],
            &cost_models[1],
            unknown,
        ),
        bw::Callback::new(
            assumed_response_time_bounds[2],
            &arrival_models[2],
            &cost_models[2],
            unknown,
        ),
    ];

    let workload = &callbacks[..];

    // single-callback "chains", named by their places in the workload
    let sc0 = [0usize];
    let sc1 = [1usize];
    let sc2 = [2usize];

    let b0 = bw::rta_subchain(&sbf, workload, &sc0[..], d(100000)).expect("no fixed point found");
    let b1 = bw::rta_subchain(&sbf, workload, &sc1[..], d(100000)).expect("no fixed point found");
    let b2 = bw::rta_subchain(&sbf, workload, &sc2[..], d(100000)).expect("no fixed point found");

    assert_eq!(b0, assumed_response_time_bounds[0]);
    assert_eq!(b1, assumed_response_time_bounds[1]);
    assert_eq!(b2, assumed_response_time_bounds[2]);
}

#[test]
fn singleton_subchain_bw() {
    let sbf = supply::Periodic {
        period: d(5),
        budget: s(3),
    };
    let arrivals = Periodic::new(d(100));
    let cost = Scalar::from(s(1));

    let callbacks = vec![bw::Callback::new(
        d(5),
        &arrivals,
        &cost,
        rr::CallbackType::Timer,
    )];

    let workload = &callbacks[..];

    // single-callback "subchain"
    let sc = [0usize];

    let res = bw::rta_subchain(&sbf, workload, &sc[..], d(100000)).expect("no fixed point found");
    assert_eq!(res, d(5));
}
