//! The submission phase seen from the orchestrating thread: the delay each
//! worker is given before it starts, and how the workers' reports become one
//! accepted count and one duration.

use vstd::prelude::*;
use rand::Rng;
use crate::error::BenchError;

verus! {

/// What one worker hands back once its chunk is submitted.
#[derive(Clone, Copy, Debug, PartialEq, Eq, Structural)]
pub struct WorkerReport {
    /// Responses of the service that accepted a request.
    pub num_accepted: usize,
    /// Milliseconds the worker waited before its first request.
    pub delay_ms: u16,
}

/// The exclusive upper bound of a worker's delay: the stagger range, but at
/// least one millisecond.
pub open spec fn stagger_bound(stagger_range_ms: u16) -> u16 {
    if stagger_range_ms < 1 {
        1u16
    } else {
        stagger_range_ms
    }
}

/// Accepted responses over all reports.
pub open spec fn accepted_total(reports: Seq<WorkerReport>) -> nat
    decreases reports.len(),
{
    if reports.len() == 0 {
        0
    } else {
        accepted_total(reports.drop_last()) + reports.last().num_accepted as nat
    }
}

/// The smallest of the stagger range and the delays of all reports.
pub open spec fn least_delay(stagger_range_ms: u16, reports: Seq<WorkerReport>) -> u16
    decreases reports.len(),
{
    if reports.len() == 0 {
        stagger_range_ms
    } else {
        let rest = least_delay(stagger_range_ms, reports.drop_last());
        if reports.last().delay_ms < rest {
            reports.last().delay_ms
        } else {
            rest
        }
    }
}

/// What a submission phase amounts to. The clock ran from before the first
/// worker was started, so the least delay is taken off the raw time, provided
/// some worker stayed under the stagger range.
pub open spec fn submission_result(
    stagger_range_ms: u16,
    reports: Seq<WorkerReport>,
    raw_elapsed_ms: u128,
) -> Result<(usize, u128), BenchError> {
    let least = least_delay(stagger_range_ms, reports);
    if least < stagger_range_ms && raw_elapsed_ms < least {
        Err(BenchError::ElapsedBelowDelay)
    } else if accepted_total(reports) > usize::MAX {
        Err(BenchError::Overflow)
    } else if least < stagger_range_ms {
        Ok((accepted_total(reports) as usize, (raw_elapsed_ms - least) as u128))
    } else {
        Ok((accepted_total(reports) as usize, raw_elapsed_ms))
    }
}

/// `least_delay` is a lower bound of the range and of every delay, and it is
/// the range itself or the delay of some report.
pub proof fn lemma_least_delay_is_minimum(stagger_range_ms: u16, reports: Seq<WorkerReport>)
    ensures
        least_delay(stagger_range_ms, reports) <= stagger_range_ms,
        forall|i: int|
            0 <= i < reports.len() ==> least_delay(stagger_range_ms, reports) <= (
            #[trigger] reports[i]).delay_ms,
        least_delay(stagger_range_ms, reports) == stagger_range_ms || exists|i: int|
            0 <= i < reports.len() && (#[trigger] reports[i]).delay_ms == least_delay(
                stagger_range_ms,
                reports,
            ),
    decreases reports.len(),
{
    if reports.len() > 0 {
        let front = reports.drop_last();
        lemma_least_delay_is_minimum(stagger_range_ms, front);
        let least = least_delay(stagger_range_ms, reports);
        assert forall|i: int| 0 <= i < reports.len() implies least <= (
        #[trigger] reports[i]).delay_ms by {
            if i < front.len() {
                assert(front[i] == reports[i]);
            }
        }
        if least != stagger_range_ms {
            if reports.last().delay_ms < least_delay(stagger_range_ms, front) {
                assert(reports[reports.len() - 1].delay_ms == least);
            } else {
                let i = choose|i: int|
                    0 <= i < front.len() && (#[trigger] front[i]).delay_ms == least_delay(
                        stagger_range_ms,
                        front,
                    );
                assert(reports[i].delay_ms == least);
            }
        }
    }
}

/// Calls `rand::thread_rng()` and, on the generator it returns,
/// `Rng::gen_range(0, bound)`. The claim is the documented range of
/// `gen_range`: the value lies in `[0, bound)`. `gen_range` panics on an empty
/// range, which `bound >= 1` rules out. Nothing is claimed of which value
/// comes back.
#[verifier::external_body]
pub(crate) fn random_below(bound: u16) -> (d: u16)
    requires
        bound >= 1,
    ensures
        d < bound,
{
    rand::thread_rng().gen_range(0, bound)
}

proof fn lemma_prefix_step(reports: Seq<WorkerReport>, i: int)
    requires
        0 <= i < reports.len(),
    ensures
        reports.take(i + 1).drop_last() == reports.take(i),
        reports.take(i + 1).last() == reports[i],
{
    assert(reports.take(i + 1).drop_last() =~= reports.take(i));
}

/// Folds the workers' reports and the raw wall-clock time of the phase into
/// the accepted count and the submission time.
pub fn collect_reports(
    stagger_range_ms: u16,
    reports: &Vec<WorkerReport>,
    raw_elapsed_ms: u128,
) -> (r: Result<(usize, u128), BenchError>)
    ensures
        r == submission_result(stagger_range_ms, reports@, raw_elapsed_ms),
{
    let mut total: u128 = 0;
    let mut least: u16 = stagger_range_ms;
    let mut i: usize = 0;
    while i < reports.len()
        invariant
            i <= reports@.len(),
            total == accepted_total(reports@.take(i as int)),
            total <= i * usize::MAX,
            least == least_delay(stagger_range_ms, reports@.take(i as int)),
        decreases reports.len() - i,
    {
        proof {
            lemma_prefix_step(reports@, i as int);
            assert((i + 1) * usize::MAX == i * usize::MAX + usize::MAX) by (nonlinear_arith);
            assert((i + 1) * usize::MAX <= usize::MAX * usize::MAX) by (nonlinear_arith)
                requires
                    i + 1 <= usize::MAX,
            ;
            assert(usize::MAX * usize::MAX <= u128::MAX) by (nonlinear_arith)
                requires
                    usize::MAX <= 0xffff_ffff_ffff_ffff,
            ;
        }
        let report = reports[i];
        total = total + report.num_accepted as u128;
        if report.delay_ms < least {
            least = report.delay_ms;
        }
        i = i + 1;
    }
    assert(reports@.take(i as int) =~= reports@);
    if least < stagger_range_ms && raw_elapsed_ms < least as u128 {
        Err(BenchError::ElapsedBelowDelay)
    } else if total > usize::MAX as u128 {
        Err(BenchError::Overflow)
    } else if least < stagger_range_ms {
        Ok((total as usize, raw_elapsed_ms - least as u128))
    } else {
        Ok((total as usize, raw_elapsed_ms))
    }
}

} // verus!
