//! Accounts as the benchmarker sees them, and the table that maps an account's
//! address to a sequence number.

use vstd::prelude::*;

verus! {

/// A 256-bit account identifier, held as its upper and lower half.
#[derive(Clone, Copy, Debug, PartialEq, Eq, Hash, Structural)]
pub struct AccountAddress {
    pub high: u128,
    pub low: u128,
}

/// How far an account is known to the service.
#[derive(Clone, Copy, Debug, PartialEq, Eq, Structural)]
pub enum AccountStatus {
    /// Created by the caller, not yet seen by the service.
    Local,
    /// Stored by the service.
    Persisted,
    /// The service could not be asked.
    Unknown,
}

/// What a round reads and updates of an account. The signing credential stays
/// with the caller.
#[derive(Clone, Copy, Debug, PartialEq, Eq, Structural)]
pub struct AccountData {
    pub address: AccountAddress,
    /// The sequence number the caller will use for the account's next request.
    pub sequence_number: u64,
    pub status: AccountStatus,
}

/// One row of a sequence table.
#[derive(Clone, Copy, Debug, PartialEq, Eq, Structural)]
struct SequenceEntry {
    address: AccountAddress,
    sequence_number: u64,
}

/// Some row of `rows` is for `address`.
spec fn has_row(rows: Seq<SequenceEntry>, address: AccountAddress) -> bool {
    exists|i: int| 0 <= i < rows.len() && (#[trigger] rows[i]).address == address
}

/// No two rows are for the same address.
spec fn distinct_rows(rows: Seq<SequenceEntry>) -> bool {
    forall|i: int, j: int|
        0 <= i < j < rows.len() ==> (#[trigger] rows[i]).address != (#[trigger] rows[j]).address
}

/// A row for `address`, if there is one.
spec fn row_of(rows: Seq<SequenceEntry>, address: AccountAddress) -> int {
    choose|i: int| 0 <= i < rows.len() && (#[trigger] rows[i]).address == address
}

/// The mapping that a list of rows stands for.
spec fn rows_map(rows: Seq<SequenceEntry>) -> Map<AccountAddress, u64> {
    Map::new(
        |a: AccountAddress| has_row(rows, a),
        |a: AccountAddress| rows[row_of(rows, a)].sequence_number,
    )
}

proof fn lemma_row_lookup(rows: Seq<SequenceEntry>, i: int)
    requires
        distinct_rows(rows),
        0 <= i < rows.len(),
    ensures
        has_row(rows, rows[i].address),
        row_of(rows, rows[i].address) == i,
        rows_map(rows).dom().contains(rows[i].address),
        rows_map(rows)[rows[i].address] == rows[i].sequence_number,
{
    let j = row_of(rows, rows[i].address);
    assert(0 <= j < rows.len() && rows[j].address == rows[i].address);
}

proof fn lemma_row_update(rows: Seq<SequenceEntry>, i: int, value: u64)
    requires
        distinct_rows(rows),
        0 <= i < rows.len(),
    ensures
        distinct_rows(
            rows.update(i, (SequenceEntry { address: rows[i].address, sequence_number: value })),
        ),
        rows_map(
            rows.update(i, (SequenceEntry { address: rows[i].address, sequence_number: value })),
        ) =~= rows_map(rows).insert(rows[i].address, value),
{
    let after = rows.update(
        i,
        SequenceEntry { address: rows[i].address, sequence_number: value },
    );
    assert forall|k: int| 0 <= k < rows.len() implies (#[trigger] after[k]).address
        == rows[k].address by {}
    assert(distinct_rows(after)) by {
        assert forall|k: int, l: int| 0 <= k < l < after.len() implies (#[trigger] after[k]).address
            != (#[trigger] after[l]).address by {
            assert(rows[k].address != rows[l].address);
        }
    }
    assert forall|a: AccountAddress| has_row(after, a) <==> has_row(rows, a) by {
        if has_row(after, a) {
            let k = row_of(after, a);
            assert(rows[k].address == a);
        }
        if has_row(rows, a) {
            let k = row_of(rows, a);
            assert(after[k].address == a);
        }
    }
    assert forall|a: AccountAddress| has_row(after, a) implies #[trigger] rows_map(after)[a]
        == rows_map(rows).insert(rows[i].address, value)[a] by {
        let k = row_of(after, a);
        assert(after[k].address == a);
        lemma_row_lookup(after, k);
        lemma_row_lookup(rows, k);
    }
}

proof fn lemma_row_push(rows: Seq<SequenceEntry>, row: SequenceEntry)
    requires
        distinct_rows(rows),
        !has_row(rows, row.address),
    ensures
        distinct_rows(rows.push(row)),
        rows_map(rows.push(row)) =~= rows_map(rows).insert(row.address, row.sequence_number),
{
    let after = rows.push(row);
    assert(distinct_rows(after)) by {
        assert forall|k: int, l: int| 0 <= k < l < after.len() implies (#[trigger] after[k]).address
            != (#[trigger] after[l]).address by {
            if l < rows.len() {
                assert(rows[k].address != rows[l].address);
            } else {
                assert(rows[k].address == after[k].address);
            }
        }
    }
    assert forall|a: AccountAddress| has_row(after, a) <==> (has_row(rows, a) || a
        == row.address) by {
        if has_row(after, a) {
            let k = row_of(after, a);
            if k < rows.len() {
                assert(rows[k].address == a);
            }
        }
        if has_row(rows, a) {
            let k = row_of(rows, a);
            assert(after[k].address == a);
        }
        if a == row.address {
            assert(after[rows.len() as int].address == a);
        }
    }
    assert forall|a: AccountAddress| has_row(after, a) implies #[trigger] rows_map(after)[a]
        == rows_map(rows).insert(row.address, row.sequence_number)[a] by {
        let k = row_of(after, a);
        assert(after[k].address == a);
        lemma_row_lookup(after, k);
        if k < rows.len() {
            lemma_row_lookup(rows, k);
        }
    }
}

/// A mapping from account address to sequence number, one row per address.
#[derive(Debug)]
pub struct SequenceTable {
    rows: Vec<SequenceEntry>,
}

impl View for SequenceTable {
    type V = Map<AccountAddress, u64>;

    closed spec fn view(&self) -> Map<AccountAddress, u64> {
        rows_map(self.rows@)
    }
}

impl SequenceTable {
    /// No address has two rows.
    pub closed spec fn wf(&self) -> bool {
        distinct_rows(self.rows@)
    }

    /// The empty table.
    pub fn new() -> (t: SequenceTable)
        ensures
            t.wf(),
            t@ == Map::<AccountAddress, u64>::empty(),
    {
        let t = SequenceTable { rows: Vec::new() };
        assert(t@ =~= Map::<AccountAddress, u64>::empty());
        t
    }

    /// The sequence number recorded for `address`, if any.
    pub fn get(&self, address: AccountAddress) -> (r: Option<u64>)
        requires
            self.wf(),
        ensures
            r == if self@.dom().contains(address) {
                Some(self@[address])
            } else {
                None
            },
    {
        let mut i: usize = 0;
        while i < self.rows.len()
            invariant
                self.wf(),
                i <= self.rows@.len(),
                forall|k: int| 0 <= k < i ==> (#[trigger] self.rows@[k]).address != address,
            decreases self.rows.len() - i,
        {
            let row = self.rows[i];
            if row.address == address {
                proof {
                    lemma_row_lookup(self.rows@, i as int);
                }
                return Some(row.sequence_number);
            }
            i = i + 1;
        }
        None
    }

    /// Records `sequence_number` for `address`, in place of any earlier number.
    pub fn insert(&mut self, address: AccountAddress, sequence_number: u64)
        requires
            old(self).wf(),
        ensures
            final(self).wf(),
            final(self)@ == old(self)@.insert(address, sequence_number),
    {
        let mut i: usize = 0;
        while i < self.rows.len()
            invariant
                self.wf(),
                *self == *old(self),
                i <= self.rows@.len(),
                forall|k: int| 0 <= k < i ==> (#[trigger] self.rows@[k]).address != address,
            decreases self.rows.len() - i,
        {
            if self.rows[i].address == address {
                proof {
                    lemma_row_update(self.rows@, i as int, sequence_number);
                }
                self.rows.set(i, SequenceEntry { address, sequence_number });
                return ;
            }
            i = i + 1;
        }
        proof {
            lemma_row_push(self.rows@, SequenceEntry { address, sequence_number });
        }
        self.rows.push(SequenceEntry { address, sequence_number });
    }

    /// Takes over every entry of `other`, in place of any earlier number for
    /// the same address.
    pub fn extend(&mut self, other: &SequenceTable)
        requires
            old(self).wf(),
            other.wf(),
        ensures
            final(self).wf(),
            final(self)@ == old(self)@.union_prefer_right(other@),
    {
        let mut i: usize = 0;
        while i < other.rows.len()
            invariant
                self.wf(),
                other.wf(),
                i <= other.rows@.len(),
                self@.dom() =~= old(self)@.dom().union(
                    Set::new(
                        |a: AccountAddress|
                            exists|k: int| 0 <= k < i && (#[trigger] other.rows@[k]).address == a,
                    ),
                ),
                forall|a: AccountAddress| #[trigger]
                    self@.dom().contains(a) ==> self@[a] == if exists|k: int|
                        0 <= k < i && (#[trigger] other.rows@[k]).address == a {
                        other@[a]
                    } else {
                        old(self)@[a]
                    },
            decreases other.rows.len() - i,
        {
            let row = other.rows[i];
            proof {
                lemma_row_lookup(other.rows@, i as int);
            }
            let ghost before = self@;
            self.insert(row.address, row.sequence_number);
            proof {
                assert forall|a: AccountAddress| #[trigger]
                    self@.dom().contains(a) implies self@[a] == if exists|k: int|
                    0 <= k < i + 1 && (#[trigger] other.rows@[k]).address == a {
                    other@[a]
                } else {
                    old(self)@[a]
                } by {
                    if a == row.address {
                        assert(other.rows@[i as int].address == a);
                    } else {
                        assert(before.dom().contains(a));
                        if exists|k: int| 0 <= k < i + 1 && (#[trigger] other.rows@[k]).address == a {
                            let k = choose|k: int|
                                0 <= k < i + 1 && (#[trigger] other.rows@[k]).address == a;
                            assert(k < i);
                        }
                    }
                }
                assert(other.rows@[i as int].address == row.address);
            }
            i = i + 1;
        }
        proof {
            assert forall|a: AccountAddress|
                other@.dom().contains(a) <==> exists|k: int|
                    0 <= k < i && (#[trigger] other.rows@[k]).address == a by {}
            assert(self@ =~= old(self)@.union_prefer_right(other@));
        }
    }
}

} // verus!
