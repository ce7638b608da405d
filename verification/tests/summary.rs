use benchmark::error::BenchError;
use benchmark::summary::BenchSummary;

fn summary(submitted: usize, accepted: usize, committed: usize, submit: u128, wait: u128) -> BenchSummary {
    BenchSummary::new(submitted, accepted, committed, submit, wait).unwrap()
}

#[test]
fn request_throughput_is_accepted_per_second() {
    assert_eq!(summary(60, 50, 30, 200, 100).req_throughput(), Ok(250));
    assert_eq!(summary(1, 1, 1, 3, 0).req_throughput(), Ok(333));
    assert_eq!(summary(5, 0, 0, 10, 0).req_throughput(), Ok(0));
}

#[test]
fn transaction_throughput_is_committed_per_second_of_the_whole_round() {
    assert_eq!(summary(60, 50, 30, 200, 100).txn_throughput(), Ok(100));
    assert_eq!(summary(60, 50, 30, 0, 300).txn_throughput(), Ok(100));
    assert_eq!(summary(2, 2, 2, 7, 0).txn_throughput(), Ok(285));
}

#[test]
fn zero_submit_duration_gives_no_request_throughput() {
    assert_eq!(summary(3, 3, 3, 0, 100).req_throughput(), Err(BenchError::ZeroDuration));
}

#[test]
fn zero_running_duration_gives_no_transaction_throughput() {
    assert_eq!(summary(3, 3, 3, 0, 0).txn_throughput(), Err(BenchError::ZeroDuration));
}

#[test]
fn running_duration_is_the_sum_of_both_phases() {
    assert_eq!(summary(1, 1, 1, 200, 100).running_duration_ms(), 300);
    assert_eq!(summary(1, 1, 1, 0, 0).running_duration_ms(), 0);
    assert_eq!(summary(1, 1, 1, u128::MAX, 0).running_duration_ms(), u128::MAX);
}

#[test]
fn durations_that_do_not_add_up_are_refused() {
    assert_eq!(BenchSummary::new(1, 1, 1, u128::MAX, 1), Err(BenchError::Overflow));
    assert_eq!(BenchSummary::new(1, 1, 1, 1, u128::MAX), Err(BenchError::Overflow));
}

#[test]
fn new_keeps_the_counts_and_durations() {
    let s = summary(9, 8, 7, 6, 5);
    assert_eq!(s.num_submitted, 9);
    assert_eq!(s.num_accepted, 8);
    assert_eq!(s.num_committed, 7);
    assert_eq!(s.submit_duration_ms, 6);
    assert_eq!(s.wait_duration_ms, 5);
}

#[test]
fn rejected_means_fewer_accepted_than_submitted() {
    assert!(summary(3, 2, 2, 1, 1).has_rejected_txns());
    assert!(!summary(3, 3, 2, 1, 1).has_rejected_txns());
    assert!(!summary(2, 3, 2, 1, 1).has_rejected_txns());
}

#[test]
fn uncommitted_means_fewer_committed_than_accepted() {
    assert!(summary(3, 3, 2, 1, 1).has_uncommitted_txns());
    assert!(!summary(3, 3, 3, 1, 1).has_uncommitted_txns());
    assert!(!summary(3, 2, 3, 1, 1).has_uncommitted_txns());
}

#[test]
fn equal_summaries_have_equal_rates() {
    let a = summary(60, 50, 30, 200, 100);
    let b = summary(99, 50, 30, 200, 100);
    assert_eq!(a.req_throughput(), b.req_throughput());
    assert_eq!(a.txn_throughput(), b.txn_throughput());
    assert_eq!(a.req_throughput(), a.req_throughput());
}

#[test]
fn largest_count_does_not_overflow_the_rate() {
    let s = summary(usize::MAX, usize::MAX, usize::MAX, 1, 0);
    assert_eq!(s.req_throughput(), Ok(usize::MAX as u128 * 1000));
    assert_eq!(s.txn_throughput(), Ok(usize::MAX as u128 * 1000));
}
