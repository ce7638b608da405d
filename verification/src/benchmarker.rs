//! The benchmarker: the state kept between rounds and the steps of a round.
//!
//! A round has two phases that the caller runs, with its own connections and
//! workers: submitting the requests, then asking the service for each
//! sender's sequence number. The benchmarker says how to split the work,
//! takes what the workers brought back, and turns it into a summary, keeping
//! its table of prior sequence numbers up to date.

use vstd::prelude::*;
use crate::accounts::{AccountAddress, AccountData, AccountStatus, SequenceTable};
use crate::dispatch::{
    collect_reports,
    random_below,
    stagger_bound,
    submission_result,
    WorkerReport,
};
use crate::error::BenchError;
use crate::partition::{chunk_len, chunk_start, divide_items, ChunkRange};
use crate::reconcile::{
    first_fault,
    lemma_first_fault_is_none_iff_fault_free,
    mentions,
    reconcile,
    reconcile_result,
    reconciled_prior,
    reconciled_senders,
    sender_fault,
};
use crate::summary::{per_second, BenchSummary};

verus! {

/// The stagger range of a funding round: workers start at once.
pub const MINT_STAGGER_RANGE_MS: u16 = 1;

/// The submission rate of a funding round: unbounded.
pub const MINT_SUBMIT_RATE: u64 = 0xffff_ffff_ffff_ffff;

/// The values published after a measured round, in milliseconds and in
/// requests per second.
#[derive(Clone, Copy, Debug, PartialEq, Eq, Structural)]
pub struct ThroughputGauges {
    pub submit_duration_ms: u128,
    pub wait_duration_ms: u128,
    pub running_duration_ms: u128,
    pub request_throughput: u128,
    pub txn_throughput: u128,
}

/// What a round leaves to report: its summary, and the requests that were
/// generated but not committed when the wait ended.
#[derive(Clone, Copy, Debug, PartialEq, Eq, Structural)]
pub struct RoundOutcome {
    pub summary: BenchSummary,
    pub num_timed_out: usize,
}

/// The table after `accounts` were registered one after the other: each
/// takes the place of any earlier number for its address.
pub open spec fn registered(
    prior: Map<AccountAddress, u64>,
    accounts: Seq<AccountData>,
) -> Map<AccountAddress, u64>
    decreases accounts.len(),
{
    if accounts.len() == 0 {
        prior
    } else {
        registered(prior, accounts.drop_last()).insert(
            accounts.last().address,
            accounts.last().sequence_number,
        )
    }
}

/// The answers of the wait phase's workers as one mapping; where two workers
/// answer for one address, the later worker's answer stands.
pub open spec fn merged(chunks: Seq<SequenceTable>) -> Map<AccountAddress, u64>
    decreases chunks.len(),
{
    if chunks.len() == 0 {
        Map::empty()
    } else {
        merged(chunks.drop_last()).union_prefer_right(chunks.last()@)
    }
}

/// The outcome of a round, from what its two phases brought back.
pub open spec fn round_result(
    stagger_range_ms: u16,
    prior: Map<AccountAddress, u64>,
    num_requests: usize,
    senders: Seq<AccountData>,
    reports: Seq<WorkerReport>,
    raw_submit_ms: u128,
    synced: Map<AccountAddress, u64>,
    wait_ms: u128,
) -> Result<RoundOutcome, BenchError> {
    match submission_result(stagger_range_ms, reports, raw_submit_ms) {
        Err(e) => Err(e),
        Ok(submitted) => match reconcile_result(prior, synced, senders) {
            Err(e) => Err(e),
            Ok(counts) => if submitted.1 + wait_ms > u128::MAX {
                Err(BenchError::Overflow)
            } else {
                Ok(
                    RoundOutcome {
                        summary: BenchSummary {
                            num_submitted: num_requests,
                            num_accepted: submitted.0,
                            num_committed: counts.0,
                            submit_duration_ms: submitted.1,
                            wait_duration_ms: wait_ms,
                        },
                        num_timed_out: counts.1,
                    },
                )
            },
        },
    }
}

/// Whether a round gets as far as updating the sequence numbers: the
/// submission phase is sound and no sender has a fault.
pub open spec fn round_reconciles(
    stagger_range_ms: u16,
    prior: Map<AccountAddress, u64>,
    senders: Seq<AccountData>,
    reports: Seq<WorkerReport>,
    raw_submit_ms: u128,
    synced: Map<AccountAddress, u64>,
) -> bool {
    submission_result(stagger_range_ms, reports, raw_submit_ms) is Ok && first_fault(
        prior,
        synced,
        senders,
    ) is None
}

/// The gauges of a summary. There is none where no submission time was
/// measured.
pub open spec fn gauges_of(summary: BenchSummary) -> Result<ThroughputGauges, BenchError> {
    if summary.submit_duration_ms == 0 {
        Err(BenchError::ZeroDuration)
    } else {
        Ok(
            ThroughputGauges {
                submit_duration_ms: summary.submit_duration_ms,
                wait_duration_ms: summary.wait_duration_ms,
                running_duration_ms: summary.running_ms() as u128,
                request_throughput: per_second(
                    summary.num_accepted as nat,
                    summary.submit_duration_ms as nat,
                ) as u128,
                txn_throughput: per_second(summary.num_committed as nat, summary.running_ms()) as u128,
            },
        )
    }
}

/// The verdict on a funding round: every request must have been accepted and
/// committed.
pub open spec fn mint_verdict(summary: BenchSummary) -> Result<(), BenchError> {
    if summary.num_submitted > summary.num_accepted || summary.num_accepted
        > summary.num_committed {
        Err(
            BenchError::MintFailed {
                accepted: summary.num_accepted,
                requested: summary.num_submitted,
                failed: if summary.num_accepted > summary.num_committed {
                    (summary.num_accepted - summary.num_committed) as usize
                } else {
                    0usize
                },
            },
        )
    } else {
        Ok(())
    }
}

/// Registering keeps every address that the table had and adds the address
/// of every account; an account that no later account shares its address
/// with is recorded with its own number.
pub proof fn lemma_registered_drops_no_account(
    prior: Map<AccountAddress, u64>,
    accounts: Seq<AccountData>,
)
    ensures
        forall|a: AccountAddress| #[trigger]
            prior.dom().contains(a) ==> registered(prior, accounts).dom().contains(a),
        forall|i: int|
            0 <= i < accounts.len() ==> registered(prior, accounts).dom().contains(
                (#[trigger] accounts[i]).address,
            ),
        forall|i: int|
            0 <= i < accounts.len() && (forall|j: int|
                i < j < accounts.len() ==> (#[trigger] accounts[j]).address != accounts[i].address)
                ==> registered(prior, accounts)[(#[trigger] accounts[i]).address]
                == accounts[i].sequence_number,
    decreases accounts.len(),
{
    if accounts.len() > 0 {
        let front = accounts.drop_last();
        lemma_registered_drops_no_account(prior, front);
        assert forall|i: int| 0 <= i < accounts.len() implies registered(
            prior,
            accounts,
        ).dom().contains((#[trigger] accounts[i]).address) by {
            if i < front.len() {
                assert(front[i] == accounts[i]);
            }
        }
        assert forall|i: int|
            0 <= i < accounts.len() && (forall|j: int|
                i < j < accounts.len() ==> (#[trigger] accounts[j]).address
                    != accounts[i].address) implies registered(prior, accounts)[(
        #[trigger] accounts[i]).address] == accounts[i].sequence_number by {
            if i < front.len() {
                assert(front[i] == accounts[i]);
                assert(accounts[accounts.len() - 1].address != accounts[i].address);
                assert forall|j: int| i < j < front.len() implies (#[trigger] front[j]).address
                    != front[i].address by {
                    assert(accounts[j].address != accounts[i].address);
                }
            }
        }
    }
}

/// The gauges to publish for a summary.
pub fn throughput_gauges(summary: &BenchSummary) -> (r: Result<ThroughputGauges, BenchError>)
    requires
        summary.wf(),
    ensures
        r == gauges_of(*summary),
{
    let request_throughput: u128 = match summary.req_throughput() {
        Ok(rate) => rate,
        Err(e) => {
            return Err(e);
        },
    };
    let txn_throughput: u128 = match summary.txn_throughput() {
        Ok(rate) => rate,
        Err(e) => {
            return Err(e);
        },
    };
    Ok(
        ThroughputGauges {
            submit_duration_ms: summary.submit_duration_ms,
            wait_duration_ms: summary.wait_duration_ms,
            running_duration_ms: summary.running_duration_ms(),
            request_throughput,
            txn_throughput,
        },
    )
}

/// Drives rounds of requests against a ledger service and keeps, for every
/// account it was told of, the sequence number that the service had
/// persisted when the last round ended.
#[derive(Debug)]
pub struct Benchmarker {
    num_clients: usize,
    stagger_range_ms: u16,
    prev_sequence_numbers: SequenceTable,
    submit_rate: u64,
}

impl Benchmarker {
    /// The number of client connections.
    pub closed spec fn client_count(&self) -> usize {
        self.num_clients
    }

    /// The exclusive upper bound, in milliseconds, of a worker's start delay.
    pub closed spec fn stagger_range(&self) -> u16 {
        self.stagger_range_ms
    }

    /// The submission rate of a round that names none.
    pub closed spec fn default_rate(&self) -> u64 {
        self.submit_rate
    }

    /// The prior sequence number of every account registered or loaded.
    pub closed spec fn prior(&self) -> Map<AccountAddress, u64> {
        self.prev_sequence_numbers@
    }

    /// There is a client, and the table has one row per address.
    pub closed spec fn wf(&self) -> bool {
        self.num_clients > 0 && self.prev_sequence_numbers.wf()
    }

    /// `other` has the same clients, stagger range and rate.
    pub open spec fn same_settings(&self, other: &Benchmarker) -> bool {
        &&& self.client_count() == other.client_count()
        &&& self.stagger_range() == other.stagger_range()
        &&& self.default_rate() == other.default_rate()
    }

    /// A benchmarker over `num_clients` connections, with no account yet.
    /// Fails with `NoClients` exactly when there is no connection.
    pub fn new(num_clients: usize, stagger_range_ms: u16, submit_rate: u64) -> (r: Result<
        Benchmarker,
        BenchError,
    >)
        ensures
            num_clients == 0 ==> r is Err && r->Err_0 == BenchError::NoClients,
            num_clients > 0 ==> r is Ok && r->Ok_0.wf() && r->Ok_0.client_count() == num_clients
                && r->Ok_0.stagger_range() == stagger_range_ms && r->Ok_0.default_rate()
                == submit_rate && r->Ok_0.prior() == Map::<AccountAddress, u64>::empty(),
    {
        if num_clients == 0 {
            return Err(BenchError::NoClients);
        }
        Ok(
            Benchmarker {
                num_clients,
                stagger_range_ms,
                prev_sequence_numbers: SequenceTable::new(),
                submit_rate,
            },
        )
    }

    /// The number of client connections.
    pub fn num_clients(&self) -> (n: usize)
        ensures
            n == self.client_count(),
    {
        self.num_clients
    }

    /// The stagger range in milliseconds.
    pub fn stagger_range_ms(&self) -> (n: u16)
        ensures
            n == self.stagger_range(),
    {
        self.stagger_range_ms
    }

    /// The rate of a round: `submit_rate` where it is given, else the
    /// benchmarker's own.
    pub fn submit_rate(&self, submit_rate: Option<u64>) -> (n: u64)
        ensures
            n == match submit_rate {
                Some(rate) => rate,
                None => self.default_rate(),
            },
    {
        match submit_rate {
            Some(rate) => rate,
            None => self.submit_rate,
        }
    }

    /// The prior sequence number of `address`, if the account is known.
    pub fn prev_sequence_number(&self, address: AccountAddress) -> (r: Option<u64>)
        requires
            self.wf(),
        ensures
            r == if self.prior().dom().contains(address) {
                Some(self.prior()[address])
            } else {
                None
            },
    {
        self.prev_sequence_numbers.get(address)
    }

    /// Takes in the funding account from what the service answered when asked
    /// for it. Fails with `FaucetNotFound` where the service had no answer and
    /// with `FaucetNotPersisted` where the account is not persisted, and then
    /// changes nothing; else records the account's number and returns the
    /// account.
    pub fn load_faucet_account(
        &mut self,
        address: AccountAddress,
        state: Option<(u64, AccountStatus)>,
    ) -> (r: Result<AccountData, BenchError>)
        requires
            old(self).wf(),
        ensures
            final(self).wf(),
            final(self).same_settings(old(self)),
            match state {
                None => r == Err::<AccountData, BenchError>(BenchError::FaucetNotFound)
                    && final(self).prior() == old(self).prior(),
                Some(found) => if found.1 == AccountStatus::Persisted {
                    r == Ok::<AccountData, BenchError>(
                        (AccountData {
                            address,
                            sequence_number: found.0,
                            status: AccountStatus::Persisted,
                        }),
                    ) && final(self).prior() == old(self).prior().insert(address, found.0)
                } else {
                    r == Err::<AccountData, BenchError>(BenchError::FaucetNotPersisted)
                        && final(self).prior() == old(self).prior()
                },
            },
    {
        match state {
            None => Err(BenchError::FaucetNotFound),
            Some((sequence_number, status)) => {
                match status {
                    AccountStatus::Persisted => {
                        self.prev_sequence_numbers.insert(address, sequence_number);
                        Ok(AccountData { address, sequence_number, status })
                    },
                    _ => Err(BenchError::FaucetNotPersisted),
                }
            },
        }
    }

    /// Records the current sequence number of each account as its prior
    /// number.
    pub fn register_accounts(&mut self, accounts: &Vec<AccountData>)
        requires
            old(self).wf(),
        ensures
            final(self).wf(),
            final(self).same_settings(old(self)),
            final(self).prior() == registered(old(self).prior(), accounts@),
    {
        let mut i: usize = 0;
        while i < accounts.len()
            invariant
                self.wf(),
                self.same_settings(old(self)),
                i <= accounts@.len(),
                self.prior() == registered(old(self).prior(), accounts@.take(i as int)),
            decreases accounts.len() - i,
        {
            let account = accounts[i];
            proof {
                assert(accounts@.take(i + 1).drop_last() =~= accounts@.take(i as int));
            }
            self.prev_sequence_numbers.insert(account.address, account.sequence_number);
            i = i + 1;
        }
        assert(accounts@.take(i as int) =~= accounts@);
    }

    /// Draws the delay, in milliseconds, that a worker waits before its first
    /// request: some value below the stagger range, and 0 where the range is
    /// below 2.
    pub fn stagger_client(stagger_range_ms: u16) -> (d: u16)
        ensures
            d < stagger_bound(stagger_range_ms),
    {
        let bound: u16 = if stagger_range_ms < 1 {
            1
        } else {
            stagger_range_ms
        };
        random_below(bound)
    }

    /// The ranges into which a batch of `total` items is split, one per
    /// client: contiguous, and balanced to within one item.
    pub fn plan_chunks(&self, total: usize) -> (r: Vec<ChunkRange>)
        requires
            self.wf(),
        ensures
            r@.len() == self.client_count(),
            forall|i: int|
                0 <= i < r@.len() ==> (#[trigger] r@[i]).start == chunk_start(
                    total as nat,
                    self.client_count() as nat,
                    i as nat,
                ) && r@[i].end == r@[i].start + chunk_len(
                    total as nat,
                    self.client_count() as nat,
                    i as nat,
                ),
    {
        divide_items(total, self.num_clients)
    }

    /// The accepted count and the duration of a submission phase, from the
    /// workers' reports and the wall-clock time of the phase.
    pub fn submit_requests(&self, reports: &Vec<WorkerReport>, raw_elapsed_ms: u128) -> (r: Result<
        (usize, u128),
        BenchError,
    >)
        ensures
            r == submission_result(self.stagger_range(), reports@, raw_elapsed_ms),
    {
        collect_reports(self.stagger_range_ms, reports, raw_elapsed_ms)
    }

    /// The synced sequence numbers of a wait phase, from the answers of its
    /// workers.
    pub fn wait_txns_committed(&self, chunks: &Vec<SequenceTable>) -> (r: SequenceTable)
        requires
            forall|i: int| 0 <= i < chunks@.len() ==> (#[trigger] chunks@[i]).wf(),
        ensures
            r.wf(),
            r@ == merged(chunks@),
    {
        let mut all = SequenceTable::new();
        let mut i: usize = 0;
        while i < chunks.len()
            invariant
                forall|k: int| 0 <= k < chunks@.len() ==> (#[trigger] chunks@[k]).wf(),
                all.wf(),
                i <= chunks@.len(),
                all@ == merged(chunks@.take(i as int)),
            decreases chunks.len() - i,
        {
            proof {
                assert(chunks@.take(i + 1).drop_last() =~= chunks@.take(i as int));
            }
            all.extend(&chunks[i]);
            i = i + 1;
        }
        assert(chunks@.take(i as int) =~= chunks@);
        all
    }

    /// Reconciles the senders with the synced numbers: returns the committed
    /// and the uncommitted count and sets prior and local numbers to the
    /// synced ones. A fault of a sender is returned before anything changes.
    pub fn check_txn_results(
        &mut self,
        senders: &mut Vec<AccountData>,
        sync_sequence_numbers: &SequenceTable,
    ) -> (r: Result<(usize, usize), BenchError>)
        requires
            old(self).wf(),
            sync_sequence_numbers.wf(),
        ensures
            final(self).wf(),
            final(self).same_settings(old(self)),
            r == reconcile_result(old(self).prior(), sync_sequence_numbers@, old(senders)@),
            first_fault(old(self).prior(), sync_sequence_numbers@, old(senders)@) is Some ==> (
                final(self).prior() == old(self).prior()
                && final(senders)@ == old(senders)@
            ),
            first_fault(old(self).prior(), sync_sequence_numbers@, old(senders)@) is None ==> (
                final(self).prior() == reconciled_prior(
                    old(self).prior(),
                    sync_sequence_numbers@,
                    old(senders)@,
                )
                && final(senders)@ == reconciled_senders(sync_sequence_numbers@, old(senders)@)
            ),
    {
        reconcile(&mut self.prev_sequence_numbers, senders, sync_sequence_numbers)
    }

    /// Closes a round: folds the submission reports, reconciles the senders
    /// with the synced numbers, and assembles the summary and the count of
    /// requests that timed out.
    ///
    /// Where the submission phase is unsound or a sender has a fault, nothing
    /// changes. Else prior and local numbers are set to the synced ones, also
    /// where a count or the running time then overflows.
    pub fn submit_requests_and_wait_txns_committed(
        &mut self,
        num_requests: usize,
        senders: &mut Vec<AccountData>,
        reports: &Vec<WorkerReport>,
        raw_submit_ms: u128,
        sync_sequence_numbers: &SequenceTable,
        wait_ms: u128,
    ) -> (r: Result<RoundOutcome, BenchError>)
        requires
            old(self).wf(),
            sync_sequence_numbers.wf(),
        ensures
            final(self).wf(),
            final(self).same_settings(old(self)),
            r == round_result(
                old(self).stagger_range(),
                old(self).prior(),
                num_requests,
                old(senders)@,
                reports@,
                raw_submit_ms,
                sync_sequence_numbers@,
                wait_ms,
            ),
            r is Ok ==> r->Ok_0.summary.wf(),
            round_reconciles(
                old(self).stagger_range(),
                old(self).prior(),
                old(senders)@,
                reports@,
                raw_submit_ms,
                sync_sequence_numbers@,
            ) ==> final(self).prior() == reconciled_prior(
                old(self).prior(),
                sync_sequence_numbers@,
                old(senders)@,
            ) && final(senders)@ == reconciled_senders(sync_sequence_numbers@, old(senders)@),
            !round_reconciles(
                old(self).stagger_range(),
                old(self).prior(),
                old(senders)@,
                reports@,
                raw_submit_ms,
                sync_sequence_numbers@,
            ) ==> final(self).prior() == old(self).prior() && final(senders)@ == old(senders)@,
    {
        let (num_accepted, submit_duration_ms) = match self.submit_requests(
            reports,
            raw_submit_ms,
        ) {
            Ok(submitted) => submitted,
            Err(e) => {
                return Err(e);
            },
        };
        let (num_committed, num_timed_out) = match self.check_txn_results(
            senders,
            sync_sequence_numbers,
        ) {
            Ok(counts) => counts,
            Err(e) => {
                return Err(e);
            },
        };
        match BenchSummary::new(
            num_requests,
            num_accepted,
            num_committed,
            submit_duration_ms,
            wait_ms,
        ) {
            Ok(summary) => Ok(RoundOutcome { summary, num_timed_out }),
            Err(e) => Err(e),
        }
    }

    /// Closes a round as `submit_requests_and_wait_txns_committed` does, and
    /// derives the gauges to publish. Fails with `ZeroDuration` where the round
    /// is sound but no submission time was measured; the round's updates stand
    /// then too.
    pub fn measure_txn_throughput(
        &mut self,
        num_requests: usize,
        senders: &mut Vec<AccountData>,
        reports: &Vec<WorkerReport>,
        raw_submit_ms: u128,
        sync_sequence_numbers: &SequenceTable,
        wait_ms: u128,
    ) -> (r: Result<(RoundOutcome, ThroughputGauges), BenchError>)
        requires
            old(self).wf(),
            sync_sequence_numbers.wf(),
        ensures
            final(self).wf(),
            final(self).same_settings(old(self)),
            r == match round_result(
                old(self).stagger_range(),
                old(self).prior(),
                num_requests,
                old(senders)@,
                reports@,
                raw_submit_ms,
                sync_sequence_numbers@,
                wait_ms,
            ) {
                Err(e) => Err::<(RoundOutcome, ThroughputGauges), BenchError>(e),
                Ok(outcome) => match gauges_of(outcome.summary) {
                    Err(e) => Err::<(RoundOutcome, ThroughputGauges), BenchError>(e),
                    Ok(gauges) => Ok::<(RoundOutcome, ThroughputGauges), BenchError>(
                        (outcome, gauges),
                    ),
                },
            },
            round_reconciles(
                old(self).stagger_range(),
                old(self).prior(),
                old(senders)@,
                reports@,
                raw_submit_ms,
                sync_sequence_numbers@,
            ) ==> final(self).prior() == reconciled_prior(
                old(self).prior(),
                sync_sequence_numbers@,
                old(senders)@,
            ) && final(senders)@ == reconciled_senders(sync_sequence_numbers@, old(senders)@),
            !round_reconciles(
                old(self).stagger_range(),
                old(self).prior(),
                old(senders)@,
                reports@,
                raw_submit_ms,
                sync_sequence_numbers@,
            ) ==> final(self).prior() == old(self).prior() && final(senders)@ == old(senders)@,
    {
        let outcome = match self.submit_requests_and_wait_txns_committed(
            num_requests,
            senders,
            reports,
            raw_submit_ms,
            sync_sequence_numbers,
            wait_ms,
        ) {
            Ok(outcome) => outcome,
            Err(e) => {
                return Err(e);
            },
        };
        let gauges = match throughput_gauges(&outcome.summary) {
            Ok(gauges) => gauges,
            Err(e) => {
                return Err(e);
            },
        };
        Ok((outcome, gauges))
    }

    /// Closes a funding round, which the caller has run with
    /// `MINT_STAGGER_RANGE_MS` and `MINT_SUBMIT_RATE` and with the funding
    /// account as the only sender. Succeeds only if every request was accepted
    /// and committed; else fails with `MintFailed` and the counts, or with the
    /// round's own error.
    pub fn mint_accounts(
        &mut self,
        num_requests: usize,
        faucet_account: &mut AccountData,
        reports: &Vec<WorkerReport>,
        raw_submit_ms: u128,
        sync_sequence_numbers: &SequenceTable,
        wait_ms: u128,
    ) -> (r: Result<(), BenchError>)
        requires
            old(self).wf(),
            sync_sequence_numbers.wf(),
        ensures
            final(self).wf(),
            final(self).same_settings(old(self)),
            r == match round_result(
                MINT_STAGGER_RANGE_MS,
                old(self).prior(),
                num_requests,
                seq![*old(faucet_account)],
                reports@,
                raw_submit_ms,
                sync_sequence_numbers@,
                wait_ms,
            ) {
                Err(e) => Err::<(), BenchError>(e),
                Ok(outcome) => mint_verdict(outcome.summary),
            },
            round_reconciles(
                MINT_STAGGER_RANGE_MS,
                old(self).prior(),
                seq![*old(faucet_account)],
                reports@,
                raw_submit_ms,
                sync_sequence_numbers@,
            ) ==> final(self).prior() == old(self).prior().insert(
                old(faucet_account).address,
                sync_sequence_numbers@[old(faucet_account).address],
            ) && *final(faucet_account) == (AccountData {
                address: old(faucet_account).address,
                sequence_number: sync_sequence_numbers@[old(faucet_account).address],
                status: old(faucet_account).status,
            }),
            !round_reconciles(
                MINT_STAGGER_RANGE_MS,
                old(self).prior(),
                seq![*old(faucet_account)],
                reports@,
                raw_submit_ms,
                sync_sequence_numbers@,
            ) ==> (
                final(self).prior() == old(self).prior()
                && *final(faucet_account) == *old(faucet_account)
            ),
    {
        let stagger_range_ms: u16 = self.stagger_range_ms;
        self.stagger_range_ms = MINT_STAGGER_RANGE_MS;
        let mut senders: Vec<AccountData> = Vec::new();
        senders.push(*faucet_account);
        let ghost before = senders@;
        proof {
            assert(before =~= seq![*faucet_account]);
        }
        let result = self.submit_requests_and_wait_txns_committed(
            num_requests,
            &mut senders,
            reports,
            raw_submit_ms,
            sync_sequence_numbers,
            wait_ms,
        );
        self.stagger_range_ms = stagger_range_ms;
        proof {
            if round_reconciles(
                MINT_STAGGER_RANGE_MS,
                old(self).prior(),
                before,
                reports@,
                raw_submit_ms,
                sync_sequence_numbers@,
            ) {
                assert(before[0].address == old(faucet_account).address);
                lemma_first_fault_is_none_iff_fault_free(
                    old(self).prior(),
                    sync_sequence_numbers@,
                    before,
                );
                assert(sender_fault(
                    old(self).prior(),
                    sync_sequence_numbers@,
                    before[0],
                ) is None);
                assert(self.prior() =~= old(self).prior().insert(
                    old(faucet_account).address,
                    sync_sequence_numbers@[old(faucet_account).address],
                )) by {
                    assert forall|a: AccountAddress|
                        mentions(before, a) <==> a == old(faucet_account).address by {
                        if a == old(faucet_account).address {
                            assert(before[0].address == a);
                        }
                    }
                }
            }
        }
        *faucet_account = senders[0];
        match result {
            Err(e) => Err(e),
            Ok(outcome) => {
                let summary = outcome.summary;
                if summary.has_rejected_txns() || summary.has_uncommitted_txns() {
                    let failed: usize = if summary.num_accepted > summary.num_committed {
                        summary.num_accepted - summary.num_committed
                    } else {
                        0
                    };
                    Err(
                        BenchError::MintFailed {
                            accepted: summary.num_accepted,
                            requested: summary.num_submitted,
                            failed,
                        },
                    )
                } else {
                    Ok(())
                }
            },
        }
    }
}

} // verus!
