//! The outcome of one round and the rates derived from it.

use vstd::prelude::*;
use crate::error::BenchError;

verus! {

/// Counts and durations of one round. Rates are computed on demand.
#[derive(Clone, Copy, Debug, PartialEq, Eq, Structural)]
pub struct BenchSummary {
    /// Requests handed to the service.
    pub num_submitted: usize,
    /// Requests the service accepted.
    pub num_accepted: usize,
    /// Requests found committed after the wait.
    pub num_committed: usize,
    /// Milliseconds spent submitting.
    pub submit_duration_ms: u128,
    /// Milliseconds spent waiting for commits.
    pub wait_duration_ms: u128,
}

/// Whole requests per second: `count * 1000 / duration_ms`, rounded down.
pub open spec fn per_second(count: nat, duration_ms: nat) -> nat
    recommends
        duration_ms > 0,
{
    count * 1000 / duration_ms
}

impl BenchSummary {
    /// The two durations add up within `u128`.
    pub open spec fn wf(&self) -> bool {
        self.submit_duration_ms + self.wait_duration_ms <= u128::MAX
    }

    /// Submission plus wait, in milliseconds.
    pub open spec fn running_ms(&self) -> nat {
        (self.submit_duration_ms + self.wait_duration_ms) as nat
    }

    /// Assembles a summary; fails with `Overflow` exactly when the two
    /// durations do not add up within `u128`.
    pub fn new(
        num_submitted: usize,
        num_accepted: usize,
        num_committed: usize,
        submit_duration_ms: u128,
        wait_duration_ms: u128,
    ) -> (r: Result<BenchSummary, BenchError>)
        ensures
            submit_duration_ms + wait_duration_ms > u128::MAX ==> r == Err::<BenchSummary, BenchError>(
                BenchError::Overflow,
            ),
            submit_duration_ms + wait_duration_ms <= u128::MAX ==> r == Ok::<BenchSummary, BenchError>(
                (BenchSummary {
                    num_submitted,
                    num_accepted,
                    num_committed,
                    submit_duration_ms,
                    wait_duration_ms,
                }),
            ) && r->Ok_0.wf(),
    {
        if submit_duration_ms > u128::MAX - wait_duration_ms {
            Err(BenchError::Overflow)
        } else {
            Ok(
                BenchSummary {
                    num_submitted,
                    num_accepted,
                    num_committed,
                    submit_duration_ms,
                    wait_duration_ms,
                },
            )
        }
    }

    /// Accepted requests per second of submission, rounded down. Fails with
    /// `ZeroDuration` exactly when no submission time was measured.
    pub fn req_throughput(&self) -> (r: Result<u128, BenchError>)
        ensures
            self.submit_duration_ms == 0 ==> r == Err::<u128, BenchError>(BenchError::ZeroDuration),
            self.submit_duration_ms > 0 ==> r == Ok::<u128, BenchError>(
                per_second(self.num_accepted as nat, self.submit_duration_ms as nat) as u128,
            ) && r->Ok_0 == per_second(self.num_accepted as nat, self.submit_duration_ms as nat),
    {
        if self.submit_duration_ms == 0 {
            return Err(BenchError::ZeroDuration);
        }
        let scaled: u128 = (self.num_accepted as u128) * 1000;
        Ok(scaled / self.submit_duration_ms)
    }

    /// Committed requests per second of the whole round, rounded down. Fails
    /// with `ZeroDuration` exactly when both durations are zero.
    pub fn txn_throughput(&self) -> (r: Result<u128, BenchError>)
        requires
            self.wf(),
        ensures
            self.running_ms() == 0 ==> r == Err::<u128, BenchError>(BenchError::ZeroDuration),
            self.running_ms() > 0 ==> r == Ok::<u128, BenchError>(
                per_second(self.num_committed as nat, self.running_ms()) as u128,
            ) && r->Ok_0 == per_second(self.num_committed as nat, self.running_ms()),
    {
        let running: u128 = self.running_duration_ms();
        if running == 0 {
            return Err(BenchError::ZeroDuration);
        }
        let scaled: u128 = (self.num_committed as u128) * 1000;
        Ok(scaled / running)
    }

    /// Milliseconds from the start of submission to the end of the wait.
    pub fn running_duration_ms(&self) -> (r: u128)
        requires
            self.wf(),
        ensures
            r == self.running_ms(),
    {
        self.submit_duration_ms + self.wait_duration_ms
    }

    /// Whether the service turned some request down.
    pub fn has_rejected_txns(&self) -> (r: bool)
        ensures
            r <==> self.num_submitted > self.num_accepted,
    {
        self.num_submitted > self.num_accepted
    }

    /// Whether some accepted request was not committed by the end of the wait.
    pub fn has_uncommitted_txns(&self) -> (r: bool)
        ensures
            r <==> self.num_accepted > self.num_committed,
    {
        self.num_accepted > self.num_committed
    }
}

/// The rates depend on nothing but the counts and durations: two summaries
/// that agree on those have the same request and transaction throughput.
pub proof fn lemma_throughput_is_a_function(a: BenchSummary, b: BenchSummary)
    requires
        a.num_accepted == b.num_accepted,
        a.num_committed == b.num_committed,
        a.submit_duration_ms == b.submit_duration_ms,
        a.wait_duration_ms == b.wait_duration_ms,
    ensures
        per_second(a.num_accepted as nat, a.submit_duration_ms as nat) == per_second(
            b.num_accepted as nat,
            b.submit_duration_ms as nat,
        ),
        per_second(a.num_committed as nat, a.running_ms()) == per_second(
            b.num_committed as nat,
            b.running_ms(),
        ),
{
}

} // verus!
