use response_time_analysis::time::Service;
use response_time_analysis::wcet::{Curve, ExtrapolatingCurve, JobCostModel, Multiframe, Scalar};

fn s(val: u64) -> Service {
    Service::from(val)
}

fn sv(vals: &[u64]) -> Vec<Service> {
    vals.iter().map(|t| s(*t)).collect()
}

#[test]
fn cost_models() {
    let wcet: Scalar = Scalar::from(s(10));

    assert_eq!(wcet.cost_of_jobs(0), s(0));
    assert_eq!(wcet.cost_of_jobs(3), s(30));
    assert_eq!(wcet.cost_of_jobs(10), s(100));
    let jobs1: Vec<_> = wcet.job_cost_iter(5);
    assert_eq!(jobs1, sv(&[10, 10, 10, 10, 10]));

    let multi_frame: Multiframe = Multiframe::new(vec![s(3), s(2), s(1)]);
    assert_eq!(multi_frame.cost_of_jobs(0), s(0));
    assert_eq!(multi_frame.cost_of_jobs(1), s(3));
    assert_eq!(multi_frame.cost_of_jobs(2), s(5));
    assert_eq!(multi_frame.cost_of_jobs(3), s(6));
    assert_eq!(multi_frame.cost_of_jobs(4), s(9));
    assert_eq!(multi_frame.cost_of_jobs(5), s(11));
    assert_eq!(multi_frame.cost_of_jobs(6), s(12));
    let jobs2: Vec<_> = multi_frame.job_cost_iter(5);
    assert_eq!(jobs2, sv(&[3, 2, 1, 3, 2]));

    let trace = sv(&[1, 1, 3, 1, 2, 2, 1, 3, 1, 0, 0, 3, 2, 0, 1, 1]);
    let cf = Curve::from_trace(&trace, 3);
    assert_eq!(cf.cost_of_jobs(0), s(0));
    assert_eq!(cf.cost_of_jobs(1), s(3));
    assert_eq!(cf.cost_of_jobs(2), s(5));
    assert_eq!(cf.cost_of_jobs(3), s(6));
    assert_eq!(cf.cost_of_jobs(4), s(9));
    assert_eq!(cf.cost_of_jobs(5), s(11));
    assert_eq!(cf.cost_of_jobs(6), s(12));
    let jobs3: Vec<_> = cf.job_cost_iter(10);
    assert_eq!(jobs3, sv(&[3, 2, 1, 3, 2, 1, 3, 2, 1, 3]));

    let wcets = sv(&[15, 25, 30]);
    let cf2 = Curve::from_iter(wcets);
    assert_eq!(cf2.cost_of_jobs(0), s(0));
    assert_eq!(cf2.cost_of_jobs(1), s(15));
    assert_eq!(cf2.cost_of_jobs(2), s(25));
    assert_eq!(cf2.cost_of_jobs(3), s(30));
    assert_eq!(cf2.cost_of_jobs(4), s(45));
    assert_eq!(cf2.cost_of_jobs(5), s(55));
    assert_eq!(cf2.cost_of_jobs(6), s(60));
    let jobs4: Vec<_> = cf2.job_cost_iter(10);
    assert_eq!(jobs4, sv(&[15, 10, 5, 15, 10, 5, 15, 10, 5, 15]));
}

#[test]
fn cost_extrapolation() {
    let wcets = sv(&[100, 101, 102, 103, 104, 105, 205, 206]);
    let mut cf = Curve::from_iter(wcets);
    assert_eq!(cf.cost_of_jobs(9), s(306));
    cf.extrapolate(10);
    assert_eq!(cf.cost_of_jobs(9), s(207));

    let wcets2 = sv(&[145, 149, 151, 153, 157, 160, 163, 166, 168, 171, 174]);
    let mut cf2 = ExtrapolatingCurve::new(Curve::from_iter(wcets2));
    assert_eq!(cf2.cost_of_jobs(11), s(174));
    assert_eq!(cf2.cost_of_jobs(12), s(319));
    assert_eq!(cf2.cost_of_jobs(4), s(153));
    assert_eq!(cf2.cost_of_jobs(9), s(168));
    assert_eq!(cf2.cost_of_jobs(4 + 9), s(153 + 168));
}

#[test]
fn no_job_costs_nothing_and_costs_never_fall() {
    let scalar = Scalar::new(s(7));
    let multi_frame = Multiframe::new(sv(&[3, 0, 5]));
    let curve = Curve::from_iter(sv(&[4, 4, 9, 12]));
    assert_eq!(scalar.cost_of_jobs(0), s(0));
    assert_eq!(multi_frame.cost_of_jobs(0), s(0));
    assert_eq!(curve.cost_of_jobs(0), s(0));
    for n in 0..200 {
        assert!(scalar.cost_of_jobs(n) <= scalar.cost_of_jobs(n + 1));
        assert!(multi_frame.cost_of_jobs(n) <= multi_frame.cost_of_jobs(n + 1));
        assert!(curve.cost_of_jobs(n) <= curve.cost_of_jobs(n + 1));
    }
}

#[test]
fn marginal_costs_add_up_to_the_cumulative_cost() {
    let scalar = Scalar::new(s(7));
    let multi_frame = Multiframe::new(sv(&[3, 0, 5]));
    let curve = Curve::from_iter(sv(&[4, 4, 9, 12]));
    for n in 0..60 {
        let sum = |costs: Vec<Service>| costs.iter().fold(0u64, |acc, c| acc + u64::from(*c));
        assert_eq!(s(sum(scalar.job_cost_iter(n))), scalar.cost_of_jobs(n));
        assert_eq!(s(sum(multi_frame.job_cost_iter(n))), multi_frame.cost_of_jobs(n));
        assert_eq!(s(sum(curve.job_cost_iter(n))), curve.cost_of_jobs(n));
    }
}

#[test]
fn least_wcet_never_rises_with_more_jobs() {
    let scalar = Scalar::new(s(7));
    let multi_frame = Multiframe::new(sv(&[3, 2, 5, 1]));
    let curve = Curve::from_iter(sv(&[4, 7, 9, 15]));
    assert_eq!(scalar.least_wcet(0), s(0));
    assert_eq!(multi_frame.least_wcet(0), s(0));
    assert_eq!(curve.least_wcet(0), s(0));
    assert_eq!(multi_frame.least_wcet(1), s(3));
    assert_eq!(multi_frame.least_wcet(2), s(2));
    assert_eq!(multi_frame.least_wcet(3), s(2));
    assert_eq!(multi_frame.least_wcet(9), s(1));
    assert_eq!(curve.least_wcet(1), s(4));
    assert_eq!(curve.least_wcet(2), s(3));
    assert_eq!(curve.least_wcet(3), s(2));
    assert_eq!(curve.least_wcet(10), s(2));
    for n in 1..20 {
        assert!(scalar.least_wcet(n + 1) <= scalar.least_wcet(n));
        assert!(multi_frame.least_wcet(n + 1) <= multi_frame.least_wcet(n));
        assert!(curve.least_wcet(n + 1) <= curve.least_wcet(n));
    }
}
