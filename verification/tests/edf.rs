use response_time_analysis::arrival::Sporadic;
use response_time_analysis::demand::RBF;
use response_time_analysis::edf;
use response_time_analysis::time::{Duration, Service};
use response_time_analysis::wcet::Scalar;

fn d(val: u64) -> Duration {
    Duration::from(val)
}

fn s(val: u64) -> Service {
    Service::from(val)
}

fn arrivals_of(params: &[(u64, u64)]) -> Vec<Sporadic> {
    params
        .iter()
        .map(|(_wcet, inter_arrival)| Sporadic::new_zero_jitter(d(*inter_arrival)))
        .collect()
}

fn costs_of(params: &[(u64, u64)]) -> Vec<Scalar> {
    params.iter().map(|(wcet, _)| Scalar::new(s(*wcet))).collect()
}

fn rbfs_of(params: &[(u64, u64)]) -> Vec<RBF<Sporadic, Scalar>> {
    params
        .iter()
        .map(|(wcet, inter_arrival)| {
            RBF::new(Sporadic::new_zero_jitter(d(*inter_arrival)), Scalar::new(s(*wcet)))
        })
        .collect()
}

fn check_nonpreemptive(
    horizon: Duration,
    params: &[(u64, u64)],
    deadlines: &[Duration],
    expected: &[Option<u64>],
) {
    let arrivals = arrivals_of(params);
    let costs = costs_of(params);

    for (i, expected_bound) in expected.iter().enumerate() {
        let tua = edf::fully_nonpreemptive::TaskUnderAnalysis {
            wcet: costs[i],
            arrivals: &arrivals[i],
            deadline: deadlines[i],
        };
        let other_tasks: Vec<edf::fully_nonpreemptive::InterferingTask<_>> = (0..expected.len())
            .filter(|j| *j != i)
            .map(|j| edf::fully_nonpreemptive::InterferingTask {
                wcet: costs[j],
                arrivals: &arrivals[j],
                deadline: deadlines[j],
            })
            .collect();

        let result = edf::fully_nonpreemptive::dedicated_uniproc_rta(&tua, &other_tasks, horizon);

        assert_eq!(expected_bound.map(d), result.ok());
    }
}

fn check_preemptive(
    horizon: Duration,
    params: &[(u64, u64)],
    deadlines: &[Duration],
    expected: &[Option<u64>],
) {
    let rbfs = rbfs_of(params);

    for (i, expected_bound) in expected.iter().enumerate() {
        let tua = edf::fully_preemptive::TaskUnderAnalysis {
            rbf: &rbfs[i],
            deadline: deadlines[i],
        };
        let other_tasks: Vec<edf::fully_preemptive::InterferingTask<_>> = (0..expected.len())
            .filter(|j| *j != i)
            .map(|j| edf::fully_preemptive::InterferingTask {
                rbf: &rbfs[j],
                deadline: deadlines[j],
            })
            .collect();

        let result = edf::fully_preemptive::dedicated_uniproc_rta(&tua, &other_tasks, horizon);
        assert_eq!(expected_bound.map(d), result.ok());
    }
}

#[test]
fn edf_rta_nonpreemptive_same_deadlines() {
    check_nonpreemptive(
        d(1000),
        &[(79, 120), (11, 34), (1, 190)],
        &[d(100), d(100), d(100)],
        &[Some(91), Some(91), Some(91)],
    );
}

#[test]
fn edf_rta_nonpreemptive_different_deadlines() {
    check_nonpreemptive(
        d(1000),
        &[(79, 120), (11, 34), (1, 190)],
        &[d(50), d(100), d(120)],
        &[Some(89), Some(90), Some(121)],
    );
}

#[test]
fn edf_rta_nonpreemptive_improved_bound() {
    check_nonpreemptive(
        d(1000),
        &[(5, 20), (10, 20)],
        &[d(29), d(30)],
        &[Some(14), Some(15)],
    );
}

#[test]
fn edf_rta_fully_preemptive_ex1() {
    check_preemptive(
        d(100000),
        &[(79, 120), (11, 34), (1, 190)],
        &[d(50), d(100), d(120)],
        &[Some(79), Some(101), Some(121)],
    );
}

#[test]
fn edf_rta_fully_preemptive_ex2() {
    check_preemptive(
        d(10000),
        &[(1, 5), (100, 1000), (2, 10), (5, 20), (10, 50)],
        &[d(5), d(1000), d(10), d(45), d(50)],
        &[Some(1), Some(694), Some(3), Some(22), Some(27)],
    );
}

#[test]
fn edf_rta_limited_preemptive_ex1() {
    let horizon = d(1000);
    let params = vec![(4, 12), (6, 20), (8, 40)];
    let deadlines = vec![d(24), d(35), d(40)];
    let max_non_preemptive_sections = vec![s(2), s(3), s(4)];
    let last_non_preemptive_sections = vec![s(2), s(3), s(4)];
    let expected = vec![Some(7), Some(17), Some(22)];

    let arrivals = arrivals_of(&params);
    let costs = costs_of(&params);
    let rbfs = rbfs_of(&params);

    for (i, expected_bound) in expected.iter().enumerate() {
        let tua = edf::limited_preemptive::TaskUnderAnalysis {
            wcet: costs[i],
            arrivals: &arrivals[i],
            deadline: deadlines[i],
            last_np_segment: last_non_preemptive_sections[i],
        };
        let other_tasks: Vec<edf::limited_preemptive::InterferingTask<_>> = (0..expected.len())
            .filter(|j| *j != i)
            .map(|j| edf::limited_preemptive::InterferingTask {
                deadline: deadlines[j],
                rbf: &rbfs[j],
                max_np_segment: max_non_preemptive_sections[j],
            })
            .collect();

        let result = edf::limited_preemptive::dedicated_uniproc_rta(&tua, &other_tasks, horizon);
        assert_eq!(expected_bound.map(d), result.ok());
    }
}
