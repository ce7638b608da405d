//! Reconciling the caller's view of its accounts with the service's view at
//! the end of a round.
//!
//! For each sender three numbers meet: `prior`, the number recorded when the
//! last round ended; `synced`, the number the service reports now; `local`,
//! the number the caller has reached while generating requests. A round is
//! sound only if `local >= synced >= prior`.

use vstd::prelude::*;
use crate::accounts::{AccountAddress, AccountData, SequenceTable};
use crate::error::BenchError;

verus! {

/// What is wrong with one sender, if anything.
pub open spec fn sender_fault(
    prior: Map<AccountAddress, u64>,
    synced: Map<AccountAddress, u64>,
    sender: AccountData,
) -> Option<BenchError> {
    if !prior.dom().contains(sender.address) {
        Some(BenchError::UnknownSender)
    } else if !synced.dom().contains(sender.address) {
        Some(BenchError::MissingSyncedNumber)
    } else if sender.sequence_number < synced[sender.address] || synced[sender.address]
        < prior[sender.address] {
        Some(BenchError::SequenceRegression)
    } else {
        None
    }
}

/// No sender has a fault.
pub open spec fn fault_free(
    prior: Map<AccountAddress, u64>,
    synced: Map<AccountAddress, u64>,
    senders: Seq<AccountData>,
) -> bool {
    forall|i: int|
        0 <= i < senders.len() ==> sender_fault(prior, synced, #[trigger] senders[i]) is None
}

/// Sender `i` has a fault and no sender before it has one.
pub open spec fn first_fault_at(
    prior: Map<AccountAddress, u64>,
    synced: Map<AccountAddress, u64>,
    senders: Seq<AccountData>,
    i: int,
) -> bool {
    &&& 0 <= i < senders.len()
    &&& sender_fault(prior, synced, senders[i]) is Some
    &&& fault_free(prior, synced, senders.take(i))
}

/// The fault of the first sender that has one.
pub open spec fn first_fault(
    prior: Map<AccountAddress, u64>,
    synced: Map<AccountAddress, u64>,
    senders: Seq<AccountData>,
) -> Option<BenchError> {
    if fault_free(prior, synced, senders) {
        None
    } else {
        sender_fault(
            prior,
            synced,
            senders[choose|i: int| first_fault_at(prior, synced, senders, i)],
        )
    }
}

/// Some sender has the address `address`.
pub open spec fn mentions(senders: Seq<AccountData>, address: AccountAddress) -> bool {
    exists|i: int| 0 <= i < senders.len() && (#[trigger] senders[i]).address == address
}

/// What sender `i` adds to the committed count: `synced - prior` of its
/// address, unless an earlier sender has the same address and has added it
/// already.
pub open spec fn committed_by(
    prior: Map<AccountAddress, u64>,
    synced: Map<AccountAddress, u64>,
    senders: Seq<AccountData>,
    i: int,
) -> int {
    let address = senders[i].address;
    if mentions(senders.take(i), address) {
        0
    } else {
        synced[address] - prior[address]
    }
}

/// The committed count of the first `n` senders.
pub open spec fn committed_upto(
    prior: Map<AccountAddress, u64>,
    synced: Map<AccountAddress, u64>,
    senders: Seq<AccountData>,
    n: int,
) -> int
    decreases n,
{
    if n <= 0 {
        0
    } else {
        committed_upto(prior, synced, senders, n - 1) + committed_by(prior, synced, senders, n - 1)
    }
}

/// What the first `n` senders still have outstanding: `local - synced`, summed.
pub open spec fn uncommitted_upto(
    synced: Map<AccountAddress, u64>,
    senders: Seq<AccountData>,
    n: int,
) -> int
    decreases n,
{
    if n <= 0 {
        0
    } else {
        uncommitted_upto(synced, senders, n - 1) + (senders[n - 1].sequence_number
            - synced[senders[n - 1].address])
    }
}

/// Requests found committed since the last round, over all senders.
pub open spec fn committed_count(
    prior: Map<AccountAddress, u64>,
    synced: Map<AccountAddress, u64>,
    senders: Seq<AccountData>,
) -> int {
    committed_upto(prior, synced, senders, senders.len() as int)
}

/// Requests generated but not committed, over all senders.
pub open spec fn uncommitted_count(
    synced: Map<AccountAddress, u64>,
    senders: Seq<AccountData>,
) -> int {
    uncommitted_upto(synced, senders, senders.len() as int)
}

/// The prior table after reconciliation: the synced number for each address
/// that a sender has, the old number for every other. No address is dropped.
pub open spec fn reconciled_prior(
    prior: Map<AccountAddress, u64>,
    synced: Map<AccountAddress, u64>,
    senders: Seq<AccountData>,
) -> Map<AccountAddress, u64> {
    Map::new(
        |a: AccountAddress| prior.dom().contains(a),
        |a: AccountAddress|
            if mentions(senders, a) {
                synced[a]
            } else {
                prior[a]
            },
    )
}

/// The senders after reconciliation: each is set back to its synced number.
pub open spec fn reconciled_senders(
    synced: Map<AccountAddress, u64>,
    senders: Seq<AccountData>,
) -> Seq<AccountData> {
    Seq::new(
        senders.len(),
        |i: int|
            AccountData {
                address: senders[i].address,
                sequence_number: synced[senders[i].address],
                status: senders[i].status,
            },
    )
}

/// What reconciliation returns: the first fault; else `Overflow` if a count
/// does not fit `usize`; else the committed and the uncommitted count.
pub open spec fn reconcile_result(
    prior: Map<AccountAddress, u64>,
    synced: Map<AccountAddress, u64>,
    senders: Seq<AccountData>,
) -> Result<(usize, usize), BenchError> {
    match first_fault(prior, synced, senders) {
        Some(e) => Err(e),
        None => if committed_count(prior, synced, senders) > usize::MAX || uncommitted_count(
            synced,
            senders,
        ) > usize::MAX {
            Err(BenchError::Overflow)
        } else {
            Ok(
                (
                    committed_count(prior, synced, senders) as usize,
                    uncommitted_count(synced, senders) as usize,
                ),
            )
        },
    }
}

proof fn lemma_mentions_step(senders: Seq<AccountData>, i: int, address: AccountAddress)
    requires
        0 <= i < senders.len(),
    ensures
        mentions(senders.take(i + 1), address) <==> (mentions(senders.take(i), address)
            || senders[i].address == address),
{
    let shorter = senders.take(i);
    let longer = senders.take(i + 1);
    if mentions(longer, address) {
        let k = choose|k: int| 0 <= k < longer.len() && (#[trigger] longer[k]).address == address;
        if k < i {
            assert(shorter[k].address == address);
        }
    }
    if mentions(shorter, address) {
        let k = choose|k: int|
            0 <= k < shorter.len() && (#[trigger] shorter[k]).address == address;
        assert(longer[k].address == address);
    }
    if senders[i].address == address {
        assert(longer[i].address == address);
    }
}

proof fn lemma_first_fault_found(
    prior: Map<AccountAddress, u64>,
    synced: Map<AccountAddress, u64>,
    senders: Seq<AccountData>,
    i: int,
)
    requires
        first_fault_at(prior, synced, senders, i),
    ensures
        first_fault(prior, synced, senders) == sender_fault(prior, synced, senders[i]),
{
    let c = choose|c: int| first_fault_at(prior, synced, senders, c);
    if c < i {
        assert(senders.take(i)[c] == senders[c]);
    }
    if i < c {
        assert(senders.take(c)[i] == senders[i]);
    }
}

proof fn lemma_find_first_fault(
    prior: Map<AccountAddress, u64>,
    synced: Map<AccountAddress, u64>,
    senders: Seq<AccountData>,
    k: int,
) -> (i: int)
    requires
        0 <= k <= senders.len(),
        fault_free(prior, synced, senders.take(k)),
        !fault_free(prior, synced, senders),
    ensures
        first_fault_at(prior, synced, senders, i),
    decreases senders.len() - k,
{
    if k == senders.len() {
        assert(senders.take(k) =~= senders);
        k
    } else if sender_fault(prior, synced, senders[k]) is Some {
        k
    } else {
        assert forall|j: int| 0 <= j < k + 1 implies sender_fault(
            prior,
            synced,
            #[trigger] senders.take(k + 1)[j],
        ) is None by {
            if j < k {
                assert(senders.take(k)[j] == senders.take(k + 1)[j]);
            }
        }
        lemma_find_first_fault(prior, synced, senders, k + 1)
    }
}

/// There is a first fault exactly when some sender has a fault.
pub proof fn lemma_first_fault_is_none_iff_fault_free(
    prior: Map<AccountAddress, u64>,
    synced: Map<AccountAddress, u64>,
    senders: Seq<AccountData>,
)
    ensures
        first_fault(prior, synced, senders) is None <==> fault_free(prior, synced, senders),
{
    if !fault_free(prior, synced, senders) {
        let i = lemma_find_first_fault(prior, synced, senders, 0);
    }
}

/// After reconciliation every sender's prior number and local number equal
/// its synced number, and the prior table has the addresses it had before.
pub proof fn lemma_reconciled_numbers_are_synced(
    prior: Map<AccountAddress, u64>,
    synced: Map<AccountAddress, u64>,
    senders: Seq<AccountData>,
    i: int,
)
    requires
        fault_free(prior, synced, senders),
        0 <= i < senders.len(),
    ensures
        reconciled_prior(prior, synced, senders).dom() == prior.dom(),
        reconciled_prior(prior, synced, senders)[senders[i].address] == synced[senders[i].address],
        reconciled_senders(synced, senders)[i].sequence_number == synced[senders[i].address],
        reconciled_senders(synced, senders)[i].address == senders[i].address,
{
    assert(sender_fault(prior, synced, senders[i]) is None);
    assert(reconciled_prior(prior, synced, senders).dom() =~= prior.dom());
}

/// Reconciliation lowers no prior number: an account's number never goes
/// back from one round to the next.
pub proof fn lemma_prior_numbers_do_not_decrease(
    prior: Map<AccountAddress, u64>,
    synced: Map<AccountAddress, u64>,
    senders: Seq<AccountData>,
    address: AccountAddress,
)
    requires
        fault_free(prior, synced, senders),
        prior.dom().contains(address),
    ensures
        reconciled_prior(prior, synced, senders).dom().contains(address),
        reconciled_prior(prior, synced, senders)[address] >= prior[address],
{
    if mentions(senders, address) {
        let k = choose|k: int| 0 <= k < senders.len() && (#[trigger] senders[k]).address == address;
        assert(sender_fault(prior, synced, senders[k]) is None);
    }
}

/// Where every sender's numbers are in order, neither count is negative, for
/// any number of senders taken from the front.
pub proof fn lemma_counts_are_not_negative(
    prior: Map<AccountAddress, u64>,
    synced: Map<AccountAddress, u64>,
    senders: Seq<AccountData>,
    n: int,
)
    requires
        fault_free(prior, synced, senders),
        0 <= n <= senders.len(),
    ensures
        0 <= committed_upto(prior, synced, senders, n) <= n * u64::MAX,
        0 <= uncommitted_upto(synced, senders, n) <= n * u64::MAX,
    decreases n,
{
    if n > 0 {
        lemma_counts_are_not_negative(prior, synced, senders, n - 1);
        assert(sender_fault(prior, synced, senders[n - 1]) is None);
        assert(n * u64::MAX == (n - 1) * u64::MAX + u64::MAX) by (nonlinear_arith);
    } else {
        assert(0 * u64::MAX == 0) by (nonlinear_arith);
    }
}

proof fn lemma_nothing_left_to_commit(
    prior: Map<AccountAddress, u64>,
    synced: Map<AccountAddress, u64>,
    senders: Seq<AccountData>,
    n: int,
)
    requires
        0 <= n <= senders.len(),
        forall|i: int|
            0 <= i < senders.len() ==> (
                prior.dom().contains((#[trigger] senders[i]).address)
                && synced.dom().contains(senders[i].address)
                && prior[senders[i].address] == synced[senders[i].address]
                && senders[i].sequence_number == synced[senders[i].address]
            ),
    ensures
        committed_upto(prior, synced, senders, n) == 0,
        uncommitted_upto(synced, senders, n) == 0,
        fault_free(prior, synced, senders),
    decreases n,
{
    if n > 0 {
        lemma_nothing_left_to_commit(prior, synced, senders, n - 1);
        assert(prior[senders[n - 1].address] == synced[senders[n - 1].address]);
    }
}

/// Reconciling a second time against the same synced numbers finds nothing
/// new: no request committed, none outstanding, and tables and senders stay
/// as the first reconciliation left them.
pub proof fn lemma_reconcile_is_idempotent(
    prior: Map<AccountAddress, u64>,
    synced: Map<AccountAddress, u64>,
    senders: Seq<AccountData>,
)
    requires
        fault_free(prior, synced, senders),
    ensures
        reconcile_result(
            reconciled_prior(prior, synced, senders),
            synced,
            reconciled_senders(synced, senders),
        ) == Ok::<(usize, usize), BenchError>((0usize, 0usize)),
        committed_count(
            reconciled_prior(prior, synced, senders),
            synced,
            reconciled_senders(synced, senders),
        ) == 0,
        reconciled_prior(
            reconciled_prior(prior, synced, senders),
            synced,
            reconciled_senders(synced, senders),
        ) == reconciled_prior(prior, synced, senders),
        reconciled_senders(synced, reconciled_senders(synced, senders)) == reconciled_senders(
            synced,
            senders,
        ),
{
    let prior2 = reconciled_prior(prior, synced, senders);
    let senders2 = reconciled_senders(synced, senders);
    assert forall|i: int| 0 <= i < senders2.len() implies (
        prior2.dom().contains((#[trigger] senders2[i]).address)
        && synced.dom().contains(senders2[i].address)
        && prior2[senders2[i].address] == synced[senders2[i].address]
        && senders2[i].sequence_number == synced[senders2[i].address]
    ) by {
        assert(sender_fault(prior, synced, senders[i]) is None);
        assert(senders2[i].address == senders[i].address);
    }
    lemma_nothing_left_to_commit(prior2, synced, senders2, senders2.len() as int);
    assert(reconciled_senders(synced, senders2) =~= senders2);
    assert forall|a: AccountAddress| prior2.dom().contains(a) implies #[trigger] reconciled_prior(
        prior2,
        synced,
        senders2,
    )[a] == prior2[a] by {
        if mentions(senders2, a) {
            let k = choose|k: int| 0 <= k < senders2.len() && (#[trigger] senders2[k]).address == a;
            assert(senders[k].address == a);
        }
    }
    assert(reconciled_prior(prior2, synced, senders2) =~= prior2);
}

/// Compares each sender's numbers and, where all are in order, counts what
/// was committed and what is outstanding, and sets the prior table and the
/// senders to the synced numbers.
///
/// A fault of any sender is returned before anything is changed. `Overflow`
/// is returned after the update, where a count does not fit `usize`.
pub fn reconcile(
    prior: &mut SequenceTable,
    senders: &mut Vec<AccountData>,
    synced: &SequenceTable,
) -> (r: Result<(usize, usize), BenchError>)
    requires
        old(prior).wf(),
        synced.wf(),
    ensures
        final(prior).wf(),
        r == reconcile_result(old(prior)@, synced@, old(senders)@),
        first_fault(old(prior)@, synced@, old(senders)@) is Some ==> final(prior)@ == old(prior)@
            && final(senders)@ == old(senders)@,
        first_fault(old(prior)@, synced@, old(senders)@) is None ==> final(prior)@
            == reconciled_prior(old(prior)@, synced@, old(senders)@) && final(senders)@
            == reconciled_senders(synced@, old(senders)@),
{
    let ghost prior0 = prior@;
    let ghost senders0 = senders@;
    let n: usize = senders.len();
    let mut i: usize = 0;
    while i < n
        invariant
            prior.wf(),
            synced.wf(),
            prior@ == prior0,
            senders@ == senders0,
            n == senders0.len(),
            i <= n,
            fault_free(prior0, synced@, senders0.take(i as int)),
        decreases n - i,
    {
        let sender = senders[i];
        let known = prior.get(sender.address);
        let found = synced.get(sender.address);
        let in_order = match (known, found) {
            (Some(p), Some(s)) => sender.sequence_number >= s && s >= p,
            _ => false,
        };
        if !in_order {
            proof {
                lemma_first_fault_found(prior0, synced@, senders0, i as int);
            }
            return match (known, found) {
                (None, _) => Err(BenchError::UnknownSender),
                (Some(_), None) => Err(BenchError::MissingSyncedNumber),
                (Some(_), Some(_)) => Err(BenchError::SequenceRegression),
            };
        }
        proof {
            assert forall|k: int| 0 <= k < i + 1 implies sender_fault(
                prior0,
                synced@,
                #[trigger] senders0.take(i + 1)[k],
            ) is None by {
                if k < i {
                    assert(senders0.take(i as int)[k] == senders0.take(i + 1)[k]);
                }
            }
        }
        i = i + 1;
    }
    assert(senders0.take(n as int) =~= senders0);
    let mut committed: u128 = 0;
    let mut uncommitted: u128 = 0;
    i = 0;
    while i < n
        invariant
            prior.wf(),
            synced.wf(),
            n == senders0.len(),
            senders@.len() == n,
            i <= n,
            fault_free(prior0, synced@, senders0),
            prior@ =~= reconciled_prior(prior0, synced@, senders0.take(i as int)),
            forall|j: int|
                0 <= j < i ==> #[trigger] senders@[j] == reconciled_senders(synced@, senders0)[j],
            forall|j: int| i <= j < n ==> #[trigger] senders@[j] == senders0[j],
            committed == committed_upto(prior0, synced@, senders0, i as int),
            uncommitted == uncommitted_upto(synced@, senders0, i as int),
        decreases n - i,
    {
        let sender = senders[i];
        proof {
            assert(sender == senders0[i as int]);
            assert(sender_fault(prior0, synced@, senders0[i as int]) is None);
            lemma_counts_are_not_negative(prior0, synced@, senders0, i as int);
            lemma_counts_are_not_negative(prior0, synced@, senders0, i + 1);
            assert((i + 1) * u64::MAX <= usize::MAX * u64::MAX) by (nonlinear_arith)
                requires
                    i + 1 <= usize::MAX,
            ;
            assert(usize::MAX * u64::MAX <= u128::MAX) by (nonlinear_arith)
                requires
                    usize::MAX <= 0xffff_ffff_ffff_ffff,
                    u64::MAX == 0xffff_ffff_ffff_ffff,
            ;
        }
        let known = prior.get(sender.address);
        let found = synced.get(sender.address);
        match (known, found) {
            (Some(p), Some(s)) => {
                committed = committed + (s - p) as u128;
                uncommitted = uncommitted + (sender.sequence_number - s) as u128;
                prior.insert(sender.address, s);
                senders.set(
                    i,
                    AccountData { address: sender.address, sequence_number: s, status: sender.status },
                );
                proof {
                    assert forall|a: AccountAddress| prior0.dom().contains(a) implies prior@[a]
                        == #[trigger] reconciled_prior(prior0, synced@, senders0.take(i + 1))[a] by {
                        lemma_mentions_step(senders0, i as int, a);
                    }
                }
            },
            _ => {
                return Err(BenchError::UnknownSender);
            },
        }
        i = i + 1;
    }
    proof {
        assert(senders0.take(n as int) =~= senders0);
        assert(senders@ =~= reconciled_senders(synced@, senders0));
    }
    if committed > usize::MAX as u128 || uncommitted > usize::MAX as u128 {
        Err(BenchError::Overflow)
    } else {
        Ok((committed as usize, uncommitted as usize))
    }
}

} // verus!
