//! The replay rules on concrete records.
use std::collections::HashMap;
use transactions::{process_record, Client, ClientId, Entry, Record, TransactionId, Type};

fn replay(records: &[Record]) -> (HashMap<ClientId, Client>, HashMap<TransactionId, Entry>) {
    let mut clients = HashMap::new();
    let mut entries = HashMap::new();
    for record in records {
        process_record(*record, &mut clients, &mut entries);
    }
    (clients, entries)
}

fn account(client: ClientId, available: i128, held: i128, locked: bool) -> Client {
    Client { client, available, held, total: available + held, locked }
}

#[test]
fn new_client_is_empty() {
    assert_eq!(Client::new(7), account(7, 0, 0, false));
    assert_eq!(Client::default(), account(0, 0, 0, false));
}

#[test]
fn deposit_is_recorded() {
    let (clients, entries) = replay(&[Record::new(Type::Deposit, 1, 9, Some(12_345))]);
    assert_eq!(clients[&1], account(1, 12_345, 0, false));
    assert_eq!(entries[&9], Entry { client: 1, amount: 12_345, disputed: false });
}

#[test]
fn deposit_without_positive_amount_is_ignored() {
    let (clients, entries) = replay(&[
        Record::new(Type::Deposit, 1, 1, None),
        Record::new(Type::Deposit, 1, 2, Some(0)),
        Record::new(Type::Deposit, 1, 3, Some(-5)),
    ]);
    assert_eq!(clients[&1], account(1, 0, 0, false));
    assert!(entries.is_empty());
}

#[test]
fn deposit_with_known_tx_is_ignored() {
    let (clients, entries) = replay(&[
        Record::new(Type::Deposit, 1, 1, Some(10_000)),
        Record::new(Type::Deposit, 2, 1, Some(70_000)),
    ]);
    assert_eq!(clients[&1], account(1, 10_000, 0, false));
    assert_eq!(clients[&2], account(2, 0, 0, false));
    assert_eq!(entries.len(), 1);
    assert_eq!(entries[&1].client, 1);
}

#[test]
fn withdrawal_takes_available_funds_and_leaves_no_entry() {
    let (clients, entries) = replay(&[
        Record::new(Type::Deposit, 1, 1, Some(10_000)),
        Record::new(Type::Withdrawal, 1, 2, Some(10_000)),
    ]);
    assert_eq!(clients[&1], account(1, 0, 0, false));
    assert!(!entries.contains_key(&2));
}

#[test]
fn overdraft_changes_nothing() {
    let before = replay(&[Record::new(Type::Deposit, 1, 1, Some(10_000))]);
    let after = replay(&[
        Record::new(Type::Deposit, 1, 1, Some(10_000)),
        Record::new(Type::Withdrawal, 1, 2, Some(10_001)),
    ]);
    assert_eq!(before, after);
}

#[test]
fn ignored_record_still_opens_an_account() {
    let (clients, entries) = replay(&[Record::new(Type::Dispute, 4, 1, None)]);
    assert_eq!(clients[&4], account(4, 0, 0, false));
    assert!(entries.is_empty());
}

#[test]
fn dispute_then_resolve_restores_the_account() {
    let deposit = Record::new(Type::Deposit, 1, 1, Some(25_000));
    let dispute = Record::new(Type::Dispute, 1, 1, None);
    let resolve = Record::new(Type::Resolve, 1, 1, None);
    let deposited = replay(&[deposit]);
    let (clients, entries) = replay(&[deposit, dispute]);
    assert_eq!(clients[&1], account(1, 0, 25_000, false));
    assert!(entries[&1].disputed);
    assert_eq!(replay(&[deposit, dispute, resolve]), deposited);
}

#[test]
fn dispute_is_refused_twice_by_another_client_and_without_funds() {
    let deposit = Record::new(Type::Deposit, 1, 1, Some(25_000));
    let dispute = Record::new(Type::Dispute, 1, 1, None);
    assert_eq!(replay(&[deposit, dispute, dispute]), replay(&[deposit, dispute]));
    let (clients, entries) = replay(&[deposit, Record::new(Type::Dispute, 2, 1, None)]);
    assert_eq!(clients[&1], account(1, 25_000, 0, false));
    assert_eq!(clients[&2], account(2, 0, 0, false));
    assert!(!entries[&1].disputed);
    let (clients, entries) =
        replay(&[deposit, Record::new(Type::Withdrawal, 1, 2, Some(1)), dispute]);
    assert_eq!(clients[&1], account(1, 24_999, 0, false));
    assert!(!entries[&1].disputed);
    let (clients, _) = replay(&[deposit, Record::new(Type::Dispute, 1, 8, None)]);
    assert_eq!(clients[&1], account(1, 25_000, 0, false));
}

#[test]
fn resolve_needs_a_dispute() {
    let deposit = Record::new(Type::Deposit, 1, 1, Some(25_000));
    let resolve = Record::new(Type::Resolve, 1, 1, None);
    assert_eq!(replay(&[deposit, resolve]), replay(&[deposit]));
}

#[test]
fn resolve_by_another_client_needs_held_funds_of_its_own() {
    let (clients, entries) = replay(&[
        Record::new(Type::Deposit, 1, 1, Some(10_000)),
        Record::new(Type::Dispute, 1, 1, None),
        Record::new(Type::Resolve, 2, 1, None),
    ]);
    assert_eq!(clients[&1], account(1, 0, 10_000, false));
    assert_eq!(clients[&2], account(2, 0, 0, false));
    assert!(entries[&1].disputed);
}

#[test]
fn chargeback_locks_the_account() {
    let deposit = Record::new(Type::Deposit, 1, 1, Some(10_000));
    let other = Record::new(Type::Deposit, 1, 2, Some(5_000));
    let dispute = Record::new(Type::Dispute, 1, 1, None);
    let chargeback = Record::new(Type::Chargeback, 1, 1, None);
    let (clients, entries) = replay(&[deposit, other, dispute, chargeback]);
    assert_eq!(clients[&1], account(1, 5_000, 0, true));
    assert!(entries[&1].disputed);
}

#[test]
fn chargeback_needs_a_dispute_and_the_right_client() {
    let deposit = Record::new(Type::Deposit, 1, 1, Some(10_000));
    let dispute = Record::new(Type::Dispute, 1, 1, None);
    assert_eq!(
        replay(&[deposit, Record::new(Type::Chargeback, 1, 1, None)]),
        replay(&[deposit])
    );
    let (clients, _) = replay(&[deposit, dispute, Record::new(Type::Chargeback, 2, 1, None)]);
    assert_eq!(clients[&1], account(1, 0, 10_000, false));
    assert_eq!(clients[&2], account(2, 0, 0, false));
}

#[test]
fn locked_account_takes_no_further_record() {
    let locking = [
        Record::new(Type::Deposit, 1, 1, Some(10_000)),
        Record::new(Type::Deposit, 1, 2, Some(5_000)),
        Record::new(Type::Dispute, 1, 1, None),
        Record::new(Type::Chargeback, 1, 1, None),
    ];
    let locked = replay(&locking);
    let later = [
        Record::new(Type::Deposit, 1, 3, Some(10_000)),
        Record::new(Type::Withdrawal, 1, 4, Some(1_000)),
        Record::new(Type::Dispute, 1, 2, None),
        Record::new(Type::Resolve, 1, 1, None),
        Record::new(Type::Chargeback, 1, 1, None),
    ];
    for record in later {
        let mut records = locking.to_vec();
        records.push(record);
        assert_eq!(replay(&records), locked);
    }
}

#[test]
fn totals_add_up_after_every_record() {
    let records = [
        Record::new(Type::Deposit, 1, 1, Some(10_000)),
        Record::new(Type::Deposit, 2, 2, Some(7_500)),
        Record::new(Type::Dispute, 1, 1, None),
        Record::new(Type::Withdrawal, 2, 3, Some(2_500)),
        Record::new(Type::Resolve, 1, 1, None),
        Record::new(Type::Dispute, 2, 2, None),
        Record::new(Type::Chargeback, 2, 2, None),
        Record::new(Type::Deposit, 2, 4, Some(1)),
    ];
    for n in 0..=records.len() {
        let (clients, _) = replay(&records[..n]);
        for (id, client) in &clients {
            assert_eq!(client.client, *id);
            assert_eq!(client.total, client.available + client.held);
            assert!(client.available >= 0 && client.held >= 0);
        }
        assert_eq!(Record::process(&records[..n]), clients);
    }
    let (clients, _) = replay(&records);
    assert_eq!(clients[&1], account(1, 10_000, 0, false));
    assert_eq!(clients[&2], account(2, 5_001, 0, false));
}

#[test]
fn largest_amounts_add_up() {
    let (clients, _) = replay(&[
        Record::new(Type::Deposit, 1, 1, Some(i64::MAX)),
        Record::new(Type::Deposit, 1, 2, Some(i64::MAX)),
    ]);
    assert_eq!(clients[&1].total, 2 * (i64::MAX as i128));
}
