use response_time_analysis::arrival::{
    brute_force_steps_iter, delta_min_iter, next_step, nonzero_delta_min_iter,
    steps_by_bisection, sum_of, ArrivalBound, ArrivalCurvePrefix, ArrivalModel, Curve,
    ExtrapolatingCurve, Never, Periodic, Propagated, Sporadic,
};
use response_time_analysis::time::{Duration, Offset};

fn d(val: u64) -> Duration {
    Duration::from(val)
}

fn dv(vals: &[u64]) -> Vec<Duration> {
    vals.iter().map(|t| d(*t)).collect()
}

fn ov(vals: &[u64]) -> Vec<Offset> {
    vals.iter().map(|t| Offset::from(*t)).collect()
}

fn brute_force_steps<T: ArrivalBound>(ab: &T, horizon: u64) -> Vec<Duration> {
    (1..=horizon)
        .filter(|delta| ab.number_arrivals(d(*delta - 1)) < ab.number_arrivals(d(*delta)))
        .map(d)
        .collect()
}

fn brute_force_iter_check<T: ArrivalModel>(ab: &T) {
    let horizon = 400;
    assert_eq!(ab.steps_iter(d(horizon)), brute_force_steps(ab, horizon));
}

fn first_steps<T: ArrivalModel>(ab: &T, n: usize) -> Vec<Duration> {
    ab.steps_iter(d(1000)).into_iter().take(n).collect()
}

#[test]
fn periodic_arrivals() {
    let a = Periodic { period: d(10) };
    assert_eq!(a.number_arrivals(d(0)), 0);
    assert_eq!(a.number_arrivals(d(1)), 1);
    assert_eq!(a.number_arrivals(d(8)), 1);
    assert_eq!(a.number_arrivals(d(10)), 1);
    assert_eq!(a.number_arrivals(d(11)), 2);
    assert_eq!(a.number_arrivals(d(12)), 2);
    assert_eq!(a.number_arrivals(d(13)), 2);
    assert_eq!(a.number_arrivals(d(100)), 10);
    assert_eq!(a.number_arrivals(d(105)), 11);
}

#[test]
fn period_arrivals_dmin() {
    let ab = Periodic { period: d(10) };
    let dmin_ref = vec![
        (0, d(0)),
        (1, d(0)),
        (2, d(10)),
        (3, d(20)),
        (4, d(30)),
        (5, d(40)),
    ];
    let dmin = delta_min_iter(&ab, d(41));
    assert_eq!(dmin.len(), dmin_ref.len());

    for (should, is) in dmin_ref.iter().zip(dmin) {
        assert_eq!(*should, is);
    }
}

#[test]
fn periodic_arrivals_via_unroll_sporadic() {
    let p = Periodic { period: d(10) };
    let s = Sporadic::from(p);
    let a = Curve::unroll_sporadic(&s, d(1000));
    assert_eq!(a.number_arrivals(d(0)), 0);
    assert_eq!(a.number_arrivals(d(1)), 1);
    assert_eq!(a.number_arrivals(d(8)), 1);
    assert_eq!(a.number_arrivals(d(10)), 1);
    assert_eq!(a.number_arrivals(d(11)), 2);
    assert_eq!(a.number_arrivals(d(12)), 2);
    assert_eq!(a.number_arrivals(d(13)), 2);
    assert_eq!(a.number_arrivals(d(100)), 10);
    assert_eq!(a.number_arrivals(d(101)), 11);
    assert_eq!(a.number_arrivals(d(105)), 11);
}

#[test]
fn periodic_arrivals_via_sporadic() {
    let p = Periodic { period: d(10) };
    let s = Sporadic::from(p);
    let a = Curve::from_sporadic(s);
    assert_eq!(a.number_arrivals(d(0)), 0);
    assert_eq!(a.number_arrivals(d(1)), 1);
    assert_eq!(a.number_arrivals(d(8)), 1);
    assert_eq!(a.number_arrivals(d(10)), 1);
    assert_eq!(a.number_arrivals(d(11)), 2);
    assert_eq!(a.number_arrivals(d(12)), 2);
    assert_eq!(a.number_arrivals(d(13)), 2);
    assert_eq!(a.number_arrivals(d(100)), 10);
    assert_eq!(a.number_arrivals(d(101)), 11);
    assert_eq!(a.number_arrivals(d(105)), 11);
}

#[test]
fn periodic_arrivals_unrolled() {
    let p = Periodic { period: d(10) };
    let a = Curve::from(p);
    assert_eq!(a.number_arrivals(d(0)), 0);
    assert_eq!(a.number_arrivals(d(1)), 1);
    assert_eq!(a.number_arrivals(d(8)), 1);
    assert_eq!(a.number_arrivals(d(10)), 1);
    assert_eq!(a.number_arrivals(d(11)), 2);
    assert_eq!(a.number_arrivals(d(12)), 2);
    assert_eq!(a.number_arrivals(d(13)), 2);
    assert_eq!(a.number_arrivals(d(100)), 10);
    assert_eq!(a.number_arrivals(d(101)), 11);
    assert_eq!(a.number_arrivals(d(105)), 11);
}

#[test]
fn periodic_arrivals_from_trace() {
    let trace = ov(&[0, 10, 20, 30, 40]);
    let a = Curve::from_trace(&trace, 10);
    assert_eq!(a.number_arrivals(d(0)), 0);
    assert_eq!(a.number_arrivals(d(1)), 1);
    assert_eq!(a.number_arrivals(d(8)), 1);
    assert_eq!(a.number_arrivals(d(10)), 1);
    assert_eq!(a.number_arrivals(d(11)), 2);
    assert_eq!(a.number_arrivals(d(12)), 2);
    assert_eq!(a.number_arrivals(d(13)), 2);
    assert_eq!(a.number_arrivals(d(100)), 10);
    assert_eq!(a.number_arrivals(d(101)), 11);
    assert_eq!(a.number_arrivals(d(105)), 11);
}

#[test]
fn compare_periodic_arrivals() {
    let p = Periodic { period: d(10) };
    let s = Sporadic::from(p);
    let a = Curve::from(p);
    let b = Curve::from_sporadic(s);
    let trace = ov(&[0, 10, 20, 30, 40]);
    let t = Curve::from_trace(&trace, 2);
    for delta in 0..1000 {
        assert_eq!(a.number_arrivals(d(delta)), p.number_arrivals(d(delta)));
        assert_eq!(s.number_arrivals(d(delta)), p.number_arrivals(d(delta)));
        assert_eq!(a.number_arrivals(d(delta)), b.number_arrivals(d(delta)));
        assert_eq!(p.number_arrivals(d(delta)), t.number_arrivals(d(delta)));
    }
}

#[test]
fn periodic_iter() {
    let p = Periodic { period: d(10) };
    let steps = first_steps(&p, 5);
    assert_eq!(steps, [d(1), d(11), d(21), d(31), d(41)]);
    brute_force_iter_check(&p);

    let p2 = Curve::from_sporadic(Sporadic::from(p));
    let steps2 = first_steps(&p2, 5);
    assert_eq!(steps2, [d(1), d(11), d(21), d(31), d(41)]);
}

#[test]
fn sporadic_arrivals() {
    let a = Sporadic {
        min_inter_arrival: d(10),
        jitter: d(3),
    };
    assert_eq!(a.number_arrivals(d(0)), 0);
    assert_eq!(a.number_arrivals(d(1)), 1);
    assert_eq!(a.number_arrivals(d(8)), 2);
    assert_eq!(a.number_arrivals(d(10)), 2);
    assert_eq!(a.number_arrivals(d(11)), 2);
    assert_eq!(a.number_arrivals(d(100)), 11);
    assert_eq!(a.number_arrivals(d(107)), 11);
    assert_eq!(a.number_arrivals(d(108)), 12);
    assert_eq!(a.number_arrivals(d(1108)), 112);
}

#[test]
fn sporadic_arrivals_from_trace() {
    let trace = ov(&[0, 7, 17, 27, 37, 47, 57, 67, 77, 87, 110, 117]);
    let a = Curve::from_trace(&trace, 5);
    assert_eq!(a.number_arrivals(d(0)), 0);
    assert_eq!(a.number_arrivals(d(1)), 1);
    assert_eq!(a.number_arrivals(d(8)), 2);
    assert_eq!(a.number_arrivals(d(10)), 2);
    assert_eq!(a.number_arrivals(d(11)), 2);
}

#[test]
fn sporadic_arrivals_unrolled() {
    let s = Sporadic {
        min_inter_arrival: d(10),
        jitter: d(3),
    };
    let a = Curve::from_sporadic(s);
    assert_eq!(a.number_arrivals(d(0)), 0);
    assert_eq!(a.number_arrivals(d(1)), 1);
    assert_eq!(a.number_arrivals(d(8)), 2);
    assert_eq!(a.number_arrivals(d(10)), 2);
    assert_eq!(a.number_arrivals(d(11)), 2);
    assert_eq!(a.number_arrivals(d(100)), 11);
    assert_eq!(a.number_arrivals(d(107)), 11);
    assert_eq!(a.number_arrivals(d(108)), 12);
    assert_eq!(a.number_arrivals(d(1108)), 112);
}

#[test]
fn sporadic_arrivals_large_jitter() {
    let a = Sporadic {
        min_inter_arrival: d(10),
        jitter: d(16),
    };
    assert_eq!(a.number_arrivals(d(0)), 0);
    assert_eq!(a.number_arrivals(d(1)), 2);
    assert_eq!(a.number_arrivals(d(4)), 2);
    assert_eq!(a.number_arrivals(d(5)), 3);
}

#[test]
fn compare_sporadic_arrivals() {
    let s = Sporadic {
        min_inter_arrival: d(10),
        jitter: d(16),
    };
    let a = Curve::from_sporadic(s);
    for delta in 0..1000 {
        assert_eq!(a.number_arrivals(d(delta)), s.number_arrivals(d(delta)));
    }
}

#[test]
fn sporadic_iter() {
    let s1 = Sporadic {
        min_inter_arrival: d(10),
        jitter: d(3),
    };
    let steps1 = first_steps(&s1, 6);
    assert_eq!(steps1, dv(&[1, 8, 18, 28, 38, 48]));

    let s2 = Sporadic {
        min_inter_arrival: d(10),
        jitter: d(16),
    };
    let steps2 = first_steps(&s2, 6);
    assert_eq!(steps2, dv(&[1, 5, 15, 25, 35, 45]));

    let s3 = Curve::from_sporadic(s1);
    let steps3 = first_steps(&s3, 6);
    assert_eq!(steps3, dv(&[1, 8, 18, 28, 38, 48]));

    let s4 = Curve::from_sporadic(s2);
    let steps4 = first_steps(&s4, 6);
    assert_eq!(steps4, dv(&[1, 5, 15, 25, 35, 45]));

    brute_force_iter_check(&s1);
    brute_force_iter_check(&s2);
    brute_force_iter_check(&s3);
    brute_force_iter_check(&s4);
}

#[test]
fn never_arrives() {
    let p = Never {};
    assert_eq!(p.number_arrivals(d(10)), 0);
    let steps = p.steps_iter(d(1000));
    assert_eq!(steps, []);
    let prop = Propagated {
        input_event_model: p,
        response_time_jitter: d(3),
    };
    assert_eq!(prop.number_arrivals(d(10)), 0);
    let steps = prop.steps_iter(d(1000));
    assert_eq!(steps, []);
    let dmin = nonzero_delta_min_iter(&p, d(1000));
    assert_eq!(dmin, []);
}

#[test]
fn propagated_jitter() {
    let p = Periodic { period: d(10) };
    let s = Sporadic {
        min_inter_arrival: d(10),
        jitter: d(3),
    };
    let prop = Propagated {
        input_event_model: p,
        response_time_jitter: d(3),
    };
    for t in 0..1000 {
        assert_eq!(s.number_arrivals(d(t)), prop.number_arrivals(d(t)));
    }
    let steps = prop.steps_iter(d(1000));
    assert!(steps.len() >= 100);
    for (x, y) in s.steps_iter(d(1000)).into_iter().zip(steps.into_iter().take(100)) {
        assert_eq!(x, y);
    }
    brute_force_iter_check(&p);
    brute_force_iter_check(&s);
}

#[test]
fn aggregated_arrivals() {
    let agg = sum_of(
        Sporadic {
            min_inter_arrival: d(3),
            jitter: d(0),
        },
        Periodic { period: d(5) },
    );

    let ab = &agg;

    assert_eq!(ab.number_arrivals(d(0)), 0);
    assert_eq!(ab.number_arrivals(d(1)), 2);
    assert_eq!(ab.number_arrivals(d(2)), 2);
    assert_eq!(ab.number_arrivals(d(3)), 2);
    assert_eq!(ab.number_arrivals(d(4)), 3);
    assert_eq!(ab.number_arrivals(d(5)), 3);
    assert_eq!(ab.number_arrivals(d(6)), 4);
    assert_eq!(ab.number_arrivals(d(7)), 5);
    assert_eq!(ab.number_arrivals(d(8)), 5);
    assert_eq!(ab.number_arrivals(d(9)), 5);
    assert_eq!(ab.number_arrivals(d(10)), 6);
    assert_eq!(ab.number_arrivals(d(11)), 7);
    assert_eq!(ab.number_arrivals(d(12)), 7);
    assert_eq!(ab.number_arrivals(d(13)), 8);
    assert_eq!(ab.number_arrivals(d(14)), 8);
    assert_eq!(ab.number_arrivals(d(15)), 8);
    assert_eq!(ab.number_arrivals(d(16)), 10);

    let steps: Vec<Duration> = ab.steps_iter(d(16));
    assert_eq!(steps, dv(&[1, 4, 6, 7, 10, 11, 13, 16]));
    brute_force_iter_check(ab);

    let as_vec: Vec<Sporadic> = vec![
        Sporadic {
            min_inter_arrival: d(3),
            jitter: d(0),
        },
        Sporadic::from(Periodic { period: d(5) }),
    ];
    assert_eq!(as_vec.number_arrivals(d(16)), 10);
    assert_eq!(as_vec.steps_iter(d(16)), dv(&[1, 4, 6, 7, 10, 11, 13, 16]));
    brute_force_iter_check(&as_vec);

    let a: Vec<Sporadic> = as_vec[0..1].to_vec();
    assert_eq!(a.number_arrivals(d(10)), 4);
    brute_force_iter_check(&a);

    assert_eq!(as_vec.number_arrivals(d(10)), 6);
}

#[test]
fn curve_extrapolation() {
    let dmin: Vec<u64> = vec![1, 2, 12, 15, 18, 21];
    let mut curve = Curve::from_iter(dv(&dmin));

    curve.extrapolate(d(500));

    let dmin_ref: Vec<u64> = vec![
        0, 0, 1, 2, 12, 15, 18, 21, 27, 30, 33, 39, 42, 45, 51, 54, 57, 63, 66, 69, 75, 78, 81, 87,
        90, 93, 99, 102, 105, 111, 114, 117, 123, 126, 129, 135, 138, 141, 147, 150, 153, 159, 162,
        165, 171, 174, 177, 183, 186, 189, 195, 198, 201, 207, 210, 213, 219, 222, 225, 231, 234,
        237, 243, 246, 249, 255, 258, 261, 267, 270, 273, 279, 282, 285, 291, 294, 297, 303, 306,
        309, 315, 318, 321, 327, 330, 333, 339, 342, 345, 351, 354, 357, 363, 366, 369, 375, 378,
        381, 387, 390,
    ];

    for (x, dist) in dmin_ref.iter().enumerate() {
        if x > dmin.len() + 1 {
            let all_combinations: Vec<_> = (2..x)
                .map(|k| (k, curve.min_distance(x - k + 1) + curve.min_distance(k)))
                .collect();
            let y = all_combinations
                .iter()
                .map(|(_, y)| *y)
                .max()
                .unwrap_or(d(0));
            assert_eq!(y, curve.min_distance(x));
        }
        assert_eq!(d(*dist), curve.min_distance(x));
    }

    let ab_ref: Vec<usize> = vec![
        0, 1, 2, 3, 3, 3, 3, 3, 3, 3, 3, 3, 3, 4, 4, 4, 5, 5, 5, 6, 6, 6, 7, 7, 7, 7, 7, 7, 8, 8,
        8, 9, 9, 9, 10, 10, 10, 10, 10, 10, 11, 11, 11, 12, 12, 12, 13, 13, 13, 13, 13, 13, 14, 14,
        14, 15, 15, 15, 16, 16, 16, 16, 16, 16, 17, 17, 17, 18, 18, 18, 19, 19, 19, 19, 19, 19, 20,
        20, 20, 21, 21, 21, 22, 22, 22, 22, 22, 22, 23, 23, 23, 24, 24, 24, 25, 25, 25, 25, 25, 25,
    ];

    for (delta, njobs) in ab_ref.iter().enumerate() {
        assert_eq!(*njobs, curve.number_arrivals(d(delta as u64)));
    }

    let entries = delta_min_iter(&curve, d(391));
    assert!(entries.len() >= dmin_ref.len());
    for (should, is) in (0..)
        .zip(dmin_ref.iter().map(|t| d(*t)))
        .zip(entries)
    {
        assert_eq!(should, is);
    }
}

#[test]
fn curve_jitter_steps() {
    let dmin: Vec<u64> = vec![1, 2, 12, 15, 18, 21];
    let curve = Curve::from_iter(dv(&dmin));
    let curve_with_jitter = curve.clone_with_jitter(d(2));
    brute_force_iter_check(&curve);
    brute_force_iter_check(&curve_with_jitter);
}

#[test]
fn curve_on_demand_jitter() {
    let dmin: Vec<u64> = vec![1, 2, 12, 15, 18, 21];
    let mut curve = Curve::from_iter(dv(&dmin));
    let horizon = 1000;
    curve.extrapolate(d(horizon));
    let od_curve = ExtrapolatingCurve::new(curve.clone());

    let jitters: Vec<u64> = vec![2, 5, 10, 13, 17, 19, 21, 123];
    for j in jitters.iter() {
        let c1 = curve.clone_with_jitter(d(*j));
        let c2 = od_curve.clone_with_jitter(d(*j));

        for delta in 0..=(horizon - j) {
            assert_eq!(c1.number_arrivals(d(delta)), c2.number_arrivals(d(delta)))
        }

        assert_eq!(c1.steps_iter(d(horizon - j)), c2.steps_iter(d(horizon - j)));
    }

    let mut c1 = curve.clone_with_jitter(d(1));
    let mut c2 = od_curve.clone_with_jitter(d(1));
    let mut h = horizon - 1;

    for j in jitters.iter() {
        c1 = c1.clone_with_jitter(d(*j));
        c2 = c2.clone_with_jitter(d(*j));
        h -= *j;

        for delta in 0..=h {
            assert_eq!(c1.number_arrivals(d(delta)), c2.number_arrivals(d(delta)))
        }

        assert_eq!(c1.steps_iter(d(h)), c2.steps_iter(d(h)));
    }
}

#[test]
fn curve_on_demand_extrapolation() {
    let dmin: Vec<u64> = vec![1, 2, 12, 15, 18, 21];
    let mut curve = Curve::from_iter(dv(&dmin));

    let od_curve = ExtrapolatingCurve::new(curve.clone());

    let horizon = 1000;

    curve.extrapolate(d(horizon));

    for delta in 0..=horizon {
        assert_eq!(
            curve.number_arrivals(d(delta)),
            od_curve.number_arrivals(d(delta))
        )
    }

    assert_eq!(curve.steps_iter(d(horizon)), od_curve.steps_iter(d(horizon)));

    brute_force_iter_check(&curve);
    brute_force_iter_check(&od_curve);

    // what was extrapolated for a query can be kept
    let mut kept = ExtrapolatingCurve::new(Curve::from_iter(dv(&dmin)));
    kept.extrapolate_for(d(horizon));
    assert_eq!(kept.prefix.min_distance(300), curve.min_distance(300));
    assert_eq!(kept.number_arrivals(d(horizon)), curve.number_arrivals(d(horizon)));
}

#[test]
fn curve_on_demand_extrapolation_jitter_propagation() {
    let dmin: Vec<u64> = vec![1, 2, 12, 15, 18, 21];
    let mut curve = Curve::from_iter(dv(&dmin));
    let od_curve = ExtrapolatingCurve::new(curve.clone());

    let horizon = 200;
    curve.extrapolate(d(horizon));

    let jitters: Vec<u64> = vec![2, 5, 10, 13, 17, 19, 21, 123];
    for j in jitters.iter() {
        let c1 = curve.clone_with_jitter(d(*j));
        let c2 = od_curve.clone_with_jitter(d(*j));

        for delta in 0..=(horizon - j) {
            assert_eq!(c1.number_arrivals(d(delta)), c2.number_arrivals(d(delta)))
        }

        assert_eq!(c1.steps_iter(d(horizon - j)), c2.steps_iter(d(horizon - j)));

        brute_force_iter_check(&c1);
        brute_force_iter_check(&c2);
    }
}

#[test]
fn curve_on_demand_extrapolation_jitter_propagation_single() {
    let dmin: Vec<Duration> = vec![d(10)];
    let periodic = Periodic { period: dmin[0] };
    let mut curve = Curve::from_iter(dmin.clone());
    let od_curve = ExtrapolatingCurve::new(curve.clone());

    let horizon = 200;
    curve.extrapolate(d(horizon));

    let jitters: Vec<u64> = vec![2, 5, 10, 13, 17, 19, 21, 123];
    for j in jitters.iter() {
        let c1 = curve.clone_with_jitter(d(*j));
        let c2 = od_curve.clone_with_jitter(d(*j));
        let c3 = periodic.clone_with_jitter(d(*j));

        for delta in 0..=(horizon - j) {
            assert_eq!(c1.number_arrivals(d(delta)), c3.number_arrivals(d(delta)));
            assert_eq!(c1.number_arrivals(d(delta)), c2.number_arrivals(d(delta)));
        }

        assert_eq!(c1.steps_iter(d(horizon - j)), c2.steps_iter(d(horizon - j)));
    }
}

#[test]
fn arrival_curve_prefix_steps_iter() {
    let horizon = d(100);
    let steps = vec![(d(1), 1), (d(10), 2), (d(21), 3), (d(45), 4)];
    let ac = ArrivalCurvePrefix::new(horizon, steps);

    let mut steps = ac.steps_iter(d(245)).into_iter();

    assert_eq!(steps.next(), Some(d(1)));
    assert_eq!(steps.next(), Some(d(10)));
    assert_eq!(steps.next(), Some(d(21)));
    assert_eq!(steps.next(), Some(d(45)));
    assert_eq!(steps.next(), Some(d(101)));
    assert_eq!(steps.next(), Some(d(110)));
    assert_eq!(steps.next(), Some(d(121)));
    assert_eq!(steps.next(), Some(d(145)));
    assert_eq!(steps.next(), Some(d(201)));
    assert_eq!(steps.next(), Some(d(210)));
    assert_eq!(steps.next(), Some(d(221)));
    assert_eq!(steps.next(), Some(d(245)));
    assert_eq!(steps.next(), None);
}

#[test]
fn arrival_curve_prefix_number_arrivals() {
    let horizon = d(100);
    let steps = vec![(d(1), 1), (d(10), 2), (d(21), 3), (d(45), 4)];
    let ac = ArrivalCurvePrefix::new(horizon, steps);

    assert_eq!(ac.number_arrivals(d(0)), 0);
    assert_eq!(ac.number_arrivals(d(5)), 1);
    assert_eq!(ac.number_arrivals(d(9)), 1);
    assert_eq!(ac.number_arrivals(d(10)), 2);
    assert_eq!(ac.number_arrivals(d(15)), 2);
    assert_eq!(ac.number_arrivals(d(24)), 3);
    assert_eq!(ac.number_arrivals(d(42)), 3);
    assert_eq!(ac.number_arrivals(d(57)), 4);

    assert_eq!(ac.number_arrivals(d(100)), 0 + 4);
    assert_eq!(ac.number_arrivals(d(105)), 1 + 4);
    assert_eq!(ac.number_arrivals(d(109)), 1 + 4);
    assert_eq!(ac.number_arrivals(d(110)), 2 + 4);
    assert_eq!(ac.number_arrivals(d(115)), 2 + 4);
    assert_eq!(ac.number_arrivals(d(124)), 3 + 4);
    assert_eq!(ac.number_arrivals(d(142)), 3 + 4);
    assert_eq!(ac.number_arrivals(d(157)), 4 + 4);

    assert_eq!(ac.number_arrivals(d(200)), 0 + 8);
    assert_eq!(ac.number_arrivals(d(205)), 1 + 8);
    assert_eq!(ac.number_arrivals(d(209)), 1 + 8);
    assert_eq!(ac.number_arrivals(d(210)), 2 + 8);
    assert_eq!(ac.number_arrivals(d(215)), 2 + 8);
    assert_eq!(ac.number_arrivals(d(224)), 3 + 8);
    assert_eq!(ac.number_arrivals(d(242)), 3 + 8);
    assert_eq!(ac.number_arrivals(d(257)), 4 + 8);
}

#[test]
fn arrival_curve_prefix_to_curve_1() {
    let horizon = d(5000);
    let steps = vec![(d(1), 1)];
    let arr_curve = ArrivalCurvePrefix::new(horizon, steps);
    let curve = arr_curve.to_curve();

    assert_eq!(curve.min_distance(2), d(5000));
}

#[test]
fn arrival_curve_prefix_to_curve_2() {
    let horizon = d(220);
    let steps = vec![(d(1), 1), (d(105), 2)];
    let arr_curve = ArrivalCurvePrefix::new(horizon, steps);
    let curve = arr_curve.to_curve();

    assert_eq!(curve.min_distance(2), d(104));
    assert_eq!(curve.min_distance(3), d(220));
}

#[test]
fn arrival_curve_prefix_to_curve_3() {
    let horizon = d(11);
    let steps = vec![(d(1), 1), (d(3), 2), (d(5), 3), (d(7), 4)];
    let arr_curve = ArrivalCurvePrefix::new(horizon, steps);
    let curve = arr_curve.to_curve();

    assert_eq!(curve.min_distance(2), d(2));
    assert_eq!(curve.min_distance(3), d(4));
    assert_eq!(curve.min_distance(4), d(6));
    assert_eq!(curve.min_distance(5), d(11));
}

#[test]
fn arrival_curve_prefix_to_curve_4() {
    let horizon = d(4);
    let steps = vec![(d(1), 2), (d(2), 3), (d(4), 5)];
    let arr_curve = ArrivalCurvePrefix::new(horizon, steps);
    let curve = arr_curve.to_curve();

    assert_eq!(curve.min_distance(2), d(0));
    assert_eq!(curve.min_distance(3), d(1));
    assert_eq!(curve.min_distance(4), d(3));
    assert_eq!(curve.min_distance(5), d(3));
    assert_eq!(curve.min_distance(6), d(4));
}

#[test]
fn arrival_curve_prefix_to_curve_dmin_constrained() {
    let horizon = d(10);
    let steps = vec![(d(1), 1), (d(5), 2), (d(9), 3)];
    let acp = ArrivalCurvePrefix::new(horizon, steps);
    let ac = acp.to_curve();

    // the horizon is pessimistic
    assert_eq!(acp.number_arrivals(d(11)), 4);
    // the curve extrapolated correctly
    assert_eq!(ac.number_arrivals(d(11)), 3);
}

#[test]
fn arrival_curve_prefix_to_curve_horizon_constrained() {
    let horizon = d(100);
    let steps = vec![(d(1), 1), (d(5), 2), (d(9), 3)];
    let acp = ArrivalCurvePrefix::new(horizon, steps);
    let ac = acp.to_curve();

    // the horizon is more constraining than the prefix
    assert_eq!(acp.number_arrivals(d(50)), 3);
    // the curve reflects this information
    assert_eq!(ac.number_arrivals(d(50)), 3);
}

#[test]
fn curve_from_periodic() {
    let p = Periodic::new(d(15));
    let s = Sporadic::from(p);
    let cp = Curve::from_arrival_bound(&p, 12, d(1000));
    let cs = Curve::unroll_sporadic(&s, d(155));

    for delta in 0..=150 {
        let delta = d(delta);
        assert_eq!(p.number_arrivals(delta), cp.number_arrivals(delta));
        assert_eq!(p.number_arrivals(delta), cs.number_arrivals(delta));
    }
}

#[test]
fn nothing_arrives_in_an_empty_interval_and_arrivals_never_fall() {
    let periodic = Periodic::new(d(7));
    let sporadic = Sporadic::new(d(7), d(11));
    let curve = Curve::from_iter(dv(&[1, 2, 12, 15, 18, 21]));
    let prefix = ArrivalCurvePrefix::new(d(50), vec![(d(1), 1), (d(10), 3), (d(30), 4)]);
    let propagated = Propagated::with_jitter(&periodic, d(5));
    let joint = vec![sporadic, Sporadic::new(d(3), d(0))];
    assert_eq!(periodic.number_arrivals(d(0)), 0);
    assert_eq!(sporadic.number_arrivals(d(0)), 0);
    assert_eq!(curve.number_arrivals(d(0)), 0);
    assert_eq!(prefix.number_arrivals(d(0)), 0);
    assert_eq!(propagated.number_arrivals(d(0)), 0);
    assert_eq!(joint.number_arrivals(d(0)), 0);
    for delta in 0..500 {
        assert!(periodic.number_arrivals(d(delta)) <= periodic.number_arrivals(d(delta + 1)));
        assert!(sporadic.number_arrivals(d(delta)) <= sporadic.number_arrivals(d(delta + 1)));
        assert!(curve.number_arrivals(d(delta)) <= curve.number_arrivals(d(delta + 1)));
        assert!(prefix.number_arrivals(d(delta)) <= prefix.number_arrivals(d(delta + 1)));
        assert!(propagated.number_arrivals(d(delta)) <= propagated.number_arrivals(d(delta + 1)));
        assert!(joint.number_arrivals(d(delta)) <= joint.number_arrivals(d(delta + 1)));
    }
}

#[test]
fn no_added_jitter_changes_nothing() {
    let periodic = Periodic::new(d(7));
    let sporadic = Sporadic::new(d(7), d(11));
    let curve = Curve::from_iter(dv(&[1, 2, 12, 15, 18, 21]));
    let periodic0 = periodic.clone_with_jitter(d(0));
    let sporadic0 = sporadic.clone_with_jitter(d(0));
    let curve0 = curve.clone_with_jitter(d(0));
    for delta in 1..500 {
        assert_eq!(periodic0.number_arrivals(d(delta)), periodic.number_arrivals(d(delta)));
        assert_eq!(sporadic0.number_arrivals(d(delta)), sporadic.number_arrivals(d(delta)));
        assert_eq!(curve0.number_arrivals(d(delta)), curve.number_arrivals(d(delta)));
    }
    let sporadic5 = sporadic.clone_with_jitter(d(5));
    assert_eq!(sporadic5.number_arrivals(d(1)), 3);
    assert_eq!(sporadic5.number_arrivals(d(5)), 3);
    assert_eq!(sporadic5.number_arrivals(d(6)), 4);
}

#[test]
fn merged_steps_are_sorted_and_unique() {
    let joint = vec![
        Sporadic::new(d(4), d(0)),
        Sporadic::new(d(6), d(0)),
        Sporadic::new(d(4), d(0)),
    ];
    assert_eq!(joint.steps_iter(d(26)), dv(&[1, 5, 7, 9, 13, 17, 19, 21, 25]));
    let two = sum_of(Periodic::new(d(4)), Periodic::new(d(6)));
    assert_eq!(two.steps_iter(d(26)), dv(&[1, 5, 7, 9, 13, 17, 19, 21, 25]));
}

#[test]
fn steps_agree_with_the_brute_force_steps() {
    let periodic = Periodic::new(d(7));
    let sporadic = Sporadic::new(d(7), d(11));
    let jittery = Sporadic::new(d(5), d(5));
    let curve = Curve::from_iter(dv(&[1, 2, 12, 15, 18, 21]));
    let prefix = ArrivalCurvePrefix::new(d(50), vec![(d(1), 1), (d(10), 3), (d(30), 4)]);
    let propagated = Propagated::with_jitter(&curve, d(5));
    let joint = vec![sporadic, Sporadic::new(d(3), d(0))];
    for horizon in [0, 1, 2, 6, 7, 8, 49, 50, 51, 300] {
        let h = d(horizon);
        assert_eq!(periodic.steps_iter(h), brute_force_steps_iter(&periodic, h));
        assert_eq!(sporadic.steps_iter(h), brute_force_steps_iter(&sporadic, h));
        assert_eq!(jittery.steps_iter(h), brute_force_steps_iter(&jittery, h));
        assert_eq!(curve.steps_iter(h), brute_force_steps_iter(&curve, h));
        assert_eq!(prefix.steps_iter(h), brute_force_steps_iter(&prefix, h));
        assert_eq!(propagated.steps_iter(h), brute_force_steps_iter(&propagated, h));
        assert_eq!(joint.steps_iter(h), brute_force_steps_iter(&joint, h));
        assert_eq!(steps_by_bisection(&sporadic, h), brute_force_steps_iter(&sporadic, h));
    }
    for step in sporadic.steps_iter(d(300)) {
        let before = Duration::from(u64::from(step) - 1);
        assert!(sporadic.number_arrivals(step) > sporadic.number_arrivals(before));
    }
    assert_eq!(jittery.steps_iter(d(12)), dv(&[1, 6, 11]));
    assert_eq!(next_step(&periodic, d(0), d(100)), Some(d(1)));
    assert_eq!(next_step(&periodic, d(1), d(100)), Some(d(8)));
    assert_eq!(next_step(&periodic, d(8), d(14)), None);
}
