use benchmark::benchmarker::Benchmarker;
use benchmark::dispatch::{collect_reports, WorkerReport};
use benchmark::error::BenchError;

fn report(num_accepted: usize, delay_ms: u16) -> WorkerReport {
    WorkerReport { num_accepted, delay_ms }
}

#[test]
fn least_delay_is_taken_off_the_raw_time() {
    let reports = vec![report(25, 10), report(26, 30)];
    assert_eq!(collect_reports(50, &reports, 200), Ok((51, 190)));
}

#[test]
fn order_of_reports_does_not_matter_for_the_delay() {
    let reports = vec![report(1, 30), report(2, 10), report(3, 40)];
    assert_eq!(collect_reports(50, &reports, 200), Ok((6, 190)));
}

#[test]
fn no_reports_leave_the_raw_time() {
    let reports: Vec<WorkerReport> = vec![];
    assert_eq!(collect_reports(50, &reports, 200), Ok((0, 200)));
}

#[test]
fn delays_at_or_over_the_range_are_not_taken_off() {
    let reports = vec![report(4, 50), report(4, 70)];
    assert_eq!(collect_reports(50, &reports, 200), Ok((8, 200)));
}

#[test]
fn zero_delay_takes_nothing_off() {
    let reports = vec![report(3, 0), report(4, 20)];
    assert_eq!(collect_reports(50, &reports, 200), Ok((7, 200)));
}

#[test]
fn raw_time_below_the_least_delay_is_refused() {
    let reports = vec![report(3, 10)];
    assert_eq!(collect_reports(50, &reports, 5), Err(BenchError::ElapsedBelowDelay));
    assert_eq!(collect_reports(50, &reports, 10), Ok((3, 0)));
}

#[test]
fn accepted_counts_that_do_not_fit_are_refused() {
    let reports = vec![report(usize::MAX, 0), report(1, 0)];
    assert_eq!(collect_reports(50, &reports, 200), Err(BenchError::Overflow));
    let fits = vec![report(usize::MAX - 1, 0), report(1, 0)];
    assert_eq!(collect_reports(50, &fits, 200), Ok((usize::MAX, 200)));
}

#[test]
fn stagger_delay_stays_below_the_range() {
    let mut seen_other_than_zero = false;
    for _ in 0..2000 {
        let d = Benchmarker::stagger_client(50);
        assert!(d < 50);
        if d != 0 {
            seen_other_than_zero = true;
        }
    }
    assert!(seen_other_than_zero);
}

#[test]
fn stagger_delay_is_zero_for_the_smallest_ranges() {
    for _ in 0..100 {
        assert_eq!(Benchmarker::stagger_client(0), 0);
        assert_eq!(Benchmarker::stagger_client(1), 0);
    }
}

#[test]
fn stagger_delay_of_the_widest_range() {
    for _ in 0..100 {
        assert!(Benchmarker::stagger_client(u16::MAX) < u16::MAX);
    }
}
