//! Bookkeeping core of a ledger load generator: how a batch of requests is
//! split over client connections, how worker reports are folded into one
//! submission result, how per-account sequence numbers are reconciled against
//! the service's view after a round, and which rates follow from the counts.
//!
//! Everything here works on plain values. Connections, threads, clocks and
//! credentials stay with the caller, who hands in what they produced.

pub mod error;
pub mod summary;
pub mod partition;
pub mod accounts;
pub mod dispatch;
pub mod reconcile;
pub mod benchmarker;
