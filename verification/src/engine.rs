//! The executable engine: one record at a time, and a whole input at once.

use std::collections::HashMap;
use vstd::prelude::*;
use crate::bounds::{lemma_apply_well_formed, lemma_deposited_after, lemma_deposited_bounds};
use crate::ledger::{
    accepted, account_sound, apply, empty_ledger, replay, well_formed, Ledger,
};
use crate::model::{Balance, Client, ClientId, Entry, Record, TransactionId, Type};

verus! {

broadcast use vstd::std_specs::hash::group_hash_axioms;

/// The state that two tables stand for.
pub open spec fn ledger_of(
    clients: HashMap<ClientId, Client>,
    records: HashMap<TransactionId, Entry>,
) -> Ledger {
    Ledger { accounts: clients@, entries: records@ }
}

/// Applies `record` to the accounts in `clients` and the entries in `records`.
///
/// A record that breaks a rule is ignored; nothing is ever reported.
pub fn process_record(
    record: Record,
    clients: &mut HashMap<ClientId, Client>,
    records: &mut HashMap<TransactionId, Entry>,
)
    requires
        well_formed(ledger_of(*old(clients), *old(records))),
    ensures
        ledger_of(*final(clients), *final(records)) == apply(
            ledger_of(*old(clients), *old(records)),
            record,
        ),
        well_formed(ledger_of(*final(clients), *final(records))),
{
    let ghost before = ledger_of(*clients, *records);
    proof {
        lemma_deposited_bounds(before);
        lemma_apply_well_formed(before, record);
        if accepted(before, record) {
            lemma_deposited_after(before, record);
        }
    }
    let mut client = match clients.get(&record.client) {
        Some(found) => *found,
        None => Client::new(record.client),
    };
    if client.locked {
        assert(clients@.contains_key(record.client));
        return ;
    }
    match record.ty {
        Type::Chargeback => {
            if let Some(entry) = records.get(&record.tx) {
                let amount: Balance = entry.amount as Balance;
                if entry.client == record.client && entry.disputed && client.held >= amount {
                    client.locked = true;
                    client.held = client.held - amount;
                }
            }
        },
        Type::Deposit => {
            if let Some(amount) = record.amount {
                if !records.contains_key(&record.tx) && amount > 0 {
                    client.available = client.available + amount as Balance;
                    records.insert(
                        record.tx,
                        Entry { client: record.client, amount, disputed: false },
                    );
                }
            }
        },
        Type::Dispute => {
            if let Some(entry) = records.get(&record.tx) {
                let entry: Entry = *entry;
                let amount: Balance = entry.amount as Balance;
                if entry.client == record.client && !entry.disputed && client.available >= amount {
                    client.available = client.available - amount;
                    client.held = client.held + amount;
                    records.insert(record.tx, Entry { disputed: true, ..entry });
                }
            }
        },
        Type::Resolve => {
            if let Some(entry) = records.get(&record.tx) {
                let entry: Entry = *entry;
                let amount: Balance = entry.amount as Balance;
                if entry.disputed && client.held >= amount {
                    client.available = client.available + amount;
                    client.held = client.held - amount;
                    records.insert(record.tx, Entry { disputed: false, ..entry });
                }
            }
        },
        Type::Withdrawal => {
            if let Some(amount) = record.amount {
                if client.available >= amount as Balance && amount > 0 {
                    client.available = client.available - amount as Balance;
                }
            }
        },
    }
    client.total = client.available + client.held;
    clients.insert(record.client, client);
    assert(clients@ =~= apply(before, record).accounts);
    assert(records@ =~= apply(before, record).entries);
}

impl Record {
    /// Replays `raw_records`, first to last, and returns the account of every
    /// client that a record named.
    pub fn process(raw_records: &[Record]) -> (clients: HashMap<ClientId, Client>)
        ensures
            clients@ == replay(raw_records@).accounts,
            well_formed(replay(raw_records@)),
            forall|c: ClientId|
                (#[trigger] clients@.contains_key(c)) ==> account_sound(c, clients@[c]),
    {
        let mut clients: HashMap<ClientId, Client> = HashMap::new();
        let mut records: HashMap<TransactionId, Entry> = HashMap::new();
        assert(ledger_of(clients, records) == empty_ledger());
        let mut i: usize = 0;
        while i < raw_records.len()
            invariant
                i <= raw_records.len(),
                ledger_of(clients, records) == replay(raw_records@.take(i as int)),
                well_formed(ledger_of(clients, records)),
            decreases raw_records.len() - i,
        {
            assert(raw_records@.take(i + 1).drop_last() == raw_records@.take(i as int));
            process_record(raw_records[i], &mut clients, &mut records);
            i = i + 1;
        }
        assert(raw_records@.take(i as int) == raw_records@);
        assert(clients@ == ledger_of(clients, records).accounts);
        clients
    }
}

} // verus!
