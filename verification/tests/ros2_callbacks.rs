use response_time_analysis::arrival::{Never, Periodic, Sporadic};
use response_time_analysis::demand::{Aggregate, RequestBound, Slice, RBF};
use response_time_analysis::ros2::ecrts19::{
    rta_event_source, rta_polling_point_callback, rta_processing_chain, rta_timer,
};
use response_time_analysis::supply;
use response_time_analysis::time::{Duration, Service};
use response_time_analysis::wcet::Scalar;

fn d(val: u64) -> Duration {
    Duration::from(val)
}

fn s(val: u64) -> Service {
    Service::from(val)
}

fn sporadic(wcet: u64, min_inter_arrival: u64, jitter: u64) -> RBF<Sporadic, Scalar> {
    RBF {
        wcet: Scalar::from(s(wcet)),
        arrival_bound: Sporadic {
            min_inter_arrival: d(min_inter_arrival),
            jitter: d(jitter),
        },
    }
}

fn check_rbf_steps<T: RequestBound>(rbf: &T, horizon: Duration) {
    let horizon = u64::from(horizon);
    let mut bf_steps = vec![];
    for delta in 1..=horizon {
        let n = rbf.service_needed(d(delta));
        let m = rbf.service_needed(d(delta - 1));
        assert!(m <= n, "demand must be monotonic");
        if m < n {
            bf_steps.push(d(delta));
        }
    }
    assert_eq!(rbf.steps_iter(d(horizon)), bf_steps);
}

#[test]
fn ros2_event_source() {
    let sbf = supply::Periodic {
        period: d(5),
        budget: s(3),
    };

    let rbf = RBF {
        wcet: Scalar::from(s(2)),
        arrival_bound: Sporadic {
            jitter: d(2),
            min_inter_arrival: d(5),
        },
    };

    let result = rta_event_source(&sbf, &rbf, d(100));

    assert!(result.is_ok());
    assert_eq!(result.unwrap(), d(7));
}

#[test]
fn ros2_never() {
    let sbf = supply::Periodic {
        period: d(5),
        budget: s(3),
    };

    let rbf = RBF {
        wcet: Scalar::from(s(2)),
        arrival_bound: Never {},
    };

    let result = rta_event_source(&sbf, &rbf, d(100));
    assert_eq!(result, Ok(d(0)));
}

#[test]
fn ros2_timer_periodic() {
    let sbf = supply::Periodic {
        period: d(5),
        budget: s(3),
    };

    let wcet = Scalar::from(s(1));
    let arrival_bound = Periodic { period: d(10) };
    let rbf = RBF {
        wcet: &wcet,
        arrival_bound: &arrival_bound,
    };

    let interference = Aggregate::new(vec![
        RBF {
            wcet: Scalar::from(s(1)),
            arrival_bound: Periodic { period: d(10) },
        },
        RBF {
            wcet: Scalar::from(s(3)),
            arrival_bound: Periodic { period: d(20) },
        },
    ]);

    let result = rta_timer(&sbf, &rbf, &interference, s(0), d(100));
    assert_eq!(result, Ok(d(12)));

    let result2 = rta_timer(&sbf, &rbf, &interference, s(4), d(100));
    assert_eq!(result2, Ok(d(20)));
}

#[test]
fn ros2_timer_sporadic() {
    let sbf = supply::Periodic {
        period: d(5),
        budget: s(3),
    };

    let rbf = RBF {
        wcet: Scalar::from(s(1)),
        arrival_bound: Periodic { period: d(10) },
    };

    let interference = vec![sporadic(1, 10, 0), sporadic(3, 20, 10)];

    check_rbf_steps(&interference[0], d(10005));
    check_rbf_steps(&interference[1], d(10005));

    let result = rta_timer(&sbf, &rbf, &Slice::of(&interference[0..2]), s(0), d(100));
    assert!(result.is_ok());
    assert_eq!(result.unwrap(), d(17));
}

#[test]
fn ros2_pp_callback() {
    let sbf = supply::Periodic {
        period: d(5),
        budget: s(3),
    };

    let rbf = RBF {
        wcet: Scalar::from(s(1)),
        arrival_bound: Periodic { period: d(10) },
    };

    let interference = Aggregate::new(vec![
        RBF {
            wcet: Scalar::from(s(1)),
            arrival_bound: Periodic { period: d(10) },
        },
        RBF {
            wcet: Scalar::from(s(3)),
            arrival_bound: Periodic { period: d(20) },
        },
    ]);

    check_rbf_steps(&rbf, d(10005));
    check_rbf_steps(&interference, d(10005));

    let result = rta_polling_point_callback(&sbf, &rbf, &interference, d(100));
    assert!(result.is_ok());
    assert_eq!(result.unwrap(), d(12));
}

#[test]
fn ros2_chain() {
    let sbf = supply::Periodic {
        period: d(5),
        budget: s(3),
    };

    let chain1_wcet = vec![1, 2, 3];
    let chain2_wcet = vec![1, 1, 1];
    let chain3_wcet = vec![2, 1];

    let total1: u64 = chain1_wcet.iter().sum();
    let total2: u64 = chain2_wcet.iter().sum();
    let total3: u64 = chain3_wcet.iter().sum();

    let rbfs = vec![
        sporadic(total1, 25, 0),
        sporadic(total2, 20, 25),
        sporadic(total3, 20, 25),
    ];

    check_rbf_steps(&rbfs[0], d(10005));
    check_rbf_steps(&rbfs[1], d(10005));
    check_rbf_steps(&rbfs[2], d(10005));

    let other_chains = Slice::of(&rbfs[1..]);
    let chain_ua = &rbfs[0];
    let chain_prefix = RBF {
        wcet: Scalar::from(s(1 + 2)),
        arrival_bound: Periodic { period: d(25) },
    };
    let chain_last_callback = RBF {
        wcet: Scalar::from(s(3)),
        arrival_bound: Periodic { period: d(25) },
    };

    check_rbf_steps(&other_chains, d(10005));
    check_rbf_steps(&chain_prefix, d(10005));

    let result = rta_processing_chain(
        &sbf,
        &chain_last_callback,
        &chain_prefix,
        chain_ua,
        &other_chains,
        d(1000),
    );
    assert!(result.is_ok());
    assert_eq!(result.unwrap(), d(72));
}

#[test]
fn ros2_chain2() {
    let sbf = supply::Periodic {
        period: d(5),
        budget: s(3),
    };

    let chain1_wcet = vec![1, 2, 3];
    let chain2_wcet = vec![1, 1, 1];
    let chain3_wcet = vec![2, 1];

    let prefix1: u64 = chain1_wcet[0..2].iter().sum();
    let total2: u64 = chain2_wcet.iter().sum();
    let total3: u64 = chain3_wcet.iter().sum();

    let chain1_suffix = RBF {
        wcet: Scalar::from(s(chain1_wcet[2])),
        arrival_bound: Periodic { period: d(25) },
    };

    // the other chains and the callbacks before the last one, as one collection
    let all_other_callbacks = Aggregate::new(vec![
        sporadic(total2, 20, 25),
        sporadic(total3, 20, 25),
        sporadic(prefix1, 25, 0),
    ]);

    check_rbf_steps(&all_other_callbacks, d(10005));
    check_rbf_steps(&chain1_suffix, d(10005));

    let result = rta_polling_point_callback(&sbf, &chain1_suffix, &all_other_callbacks, d(1000));
    assert!(result.is_ok());
    assert_eq!(result.unwrap(), d(72));
}
