use benchmark::accounts::{AccountAddress, SequenceTable};

fn addr(n: u128) -> AccountAddress {
    AccountAddress { high: 0, low: n }
}

#[test]
fn empty_table_knows_no_address() {
    let t = SequenceTable::new();
    assert_eq!(t.get(addr(1)), None);
}

#[test]
fn insert_then_get() {
    let mut t = SequenceTable::new();
    t.insert(addr(1), 10);
    t.insert(addr(2), 20);
    assert_eq!(t.get(addr(1)), Some(10));
    assert_eq!(t.get(addr(2)), Some(20));
    assert_eq!(t.get(addr(3)), None);
}

#[test]
fn insert_replaces_the_earlier_number() {
    let mut t = SequenceTable::new();
    t.insert(addr(1), 10);
    t.insert(addr(2), 20);
    t.insert(addr(1), 11);
    assert_eq!(t.get(addr(1)), Some(11));
    assert_eq!(t.get(addr(2)), Some(20));
}

#[test]
fn addresses_differ_by_either_half() {
    let mut t = SequenceTable::new();
    t.insert(AccountAddress { high: 1, low: 0 }, 1);
    t.insert(AccountAddress { high: 0, low: 1 }, 2);
    assert_eq!(t.get(AccountAddress { high: 1, low: 0 }), Some(1));
    assert_eq!(t.get(AccountAddress { high: 0, low: 1 }), Some(2));
    assert_eq!(t.get(AccountAddress { high: 1, low: 1 }), None);
}

#[test]
fn extend_prefers_the_other_table() {
    let mut t = SequenceTable::new();
    t.insert(addr(1), 10);
    t.insert(addr(2), 20);
    let mut other = SequenceTable::new();
    other.insert(addr(2), 21);
    other.insert(addr(3), 30);
    t.extend(&other);
    assert_eq!(t.get(addr(1)), Some(10));
    assert_eq!(t.get(addr(2)), Some(21));
    assert_eq!(t.get(addr(3)), Some(30));
}

#[test]
fn extend_by_the_empty_table_changes_nothing() {
    let mut t = SequenceTable::new();
    t.insert(addr(1), 10);
    t.extend(&SequenceTable::new());
    assert_eq!(t.get(addr(1)), Some(10));
}
