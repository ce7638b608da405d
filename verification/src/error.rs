//! The ways in which a round, or its setup, can fail.

use vstd::prelude::*;

verus! {

/// Every failure stops the operation that reports it; nothing is retried.
#[derive(Clone, Copy, Debug, PartialEq, Eq, Structural)]
pub enum BenchError {
    /// A benchmarker was asked for without any client connection.
    NoClients,
    /// The service does not know the funding account.
    FaucetNotFound,
    /// The service knows the funding account, but not as persisted.
    FaucetNotPersisted,
    /// A sender was never registered with the benchmarker.
    UnknownSender,
    /// The service returned no sequence number for a sender.
    MissingSyncedNumber,
    /// A sender's numbers are not ordered `local >= synced >= prior`.
    SequenceRegression,
    /// An aggregate does not fit the integer type that carries it.
    Overflow,
    /// A rate was asked for over a duration of zero milliseconds.
    ZeroDuration,
    /// The reported elapsed time is shorter than the delay of every worker.
    ElapsedBelowDelay,
    /// A funding round in which a request was rejected or left uncommitted.
    MintFailed { accepted: usize, requested: usize, failed: usize },
}

} // verus!
