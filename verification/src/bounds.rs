//! Facts about the sum of all deposits, and the proof that every record
//! keeps the engine's state well formed.

use vstd::prelude::*;
use crate::ledger::{
    accepted, account_of, apply, deposited, deposited_below, noted, replay_from, tx_space,
    well_formed, Ledger,
};
use crate::model::{Entry, Record, TransactionId, Type};

verus! {

/// Largest sum that the entry table can record.
pub open spec fn deposit_limit() -> int {
    0x1_0000_0000int * 0x7fff_ffff_ffff_ffffint
}

/// A sum of positive amounts is not negative and stays below the largest
/// amount times the number of transactions summed.
pub proof fn lemma_deposited_below_bounds(entries: Map<TransactionId, Entry>, n: nat)
    requires
        forall|tx: TransactionId| (#[trigger] entries.contains_key(tx)) ==> entries[tx].amount > 0,
    ensures
        0 <= deposited_below(entries, n) <= n * 0x7fff_ffff_ffff_ffff,
    decreases n,
{
    if n > 0 {
        lemma_deposited_below_bounds(entries, (n - 1) as nat);
    }
}

/// A new entry adds its amount to every sum that reaches its transaction.
pub proof fn lemma_deposited_below_insert(
    entries: Map<TransactionId, Entry>,
    tx: TransactionId,
    entry: Entry,
    n: nat,
)
    requires
        !entries.contains_key(tx),
        n <= tx_space(),
    ensures
        deposited_below(entries.insert(tx, entry), n) == deposited_below(entries, n) + if tx < n {
            entry.amount as int
        } else {
            0
        },
    decreases n,
{
    if n > 0 {
        lemma_deposited_below_insert(entries, tx, entry, (n - 1) as nat);
    }
}

/// Two tables with the same transactions and the same amounts have the same sums.
pub proof fn lemma_deposited_below_amounts(
    a: Map<TransactionId, Entry>,
    b: Map<TransactionId, Entry>,
    n: nat,
)
    requires
        forall|tx: TransactionId| a.contains_key(tx) == b.contains_key(tx),
        forall|tx: TransactionId| (#[trigger] a.contains_key(tx)) ==> a[tx].amount == b[tx].amount,
    ensures
        deposited_below(a, n) == deposited_below(b, n),
    decreases n,
{
    if n > 0 {
        lemma_deposited_below_amounts(a, b, (n - 1) as nat);
    }
}

/// In a well-formed state the sum of all deposits is within the limit, so no
/// balance can leave the range of its type.
pub proof fn lemma_deposited_bounds(s: Ledger)
    requires
        well_formed(s),
    ensures
        0 <= deposited(s.entries) <= deposit_limit(),
{
    lemma_deposited_below_bounds(s.entries, tx_space());
}

/// An accepted deposit raises the sum of all deposits by its amount; any
/// other record leaves the sum as it was.
pub proof fn lemma_deposited_after(s: Ledger, r: Record)
    requires
        well_formed(s),
        accepted(s, r),
    ensures
        deposited(noted(s, r)) == deposited(s.entries) + if r.ty == Type::Deposit {
            r.amount.unwrap() as int
        } else {
            0
        },
{
    match r.ty {
        Type::Deposit => {
            let entry = Entry { client: r.client, amount: r.amount.unwrap(), disputed: false };
            lemma_deposited_below_insert(s.entries, r.tx, entry, tx_space());
        },
        Type::Dispute | Type::Resolve => {
            lemma_deposited_below_amounts(s.entries, noted(s, r), tx_space());
        },
        _ => {},
    }
}

/// Every record keeps the state well formed.
pub proof fn lemma_apply_well_formed(s: Ledger, r: Record)
    requires
        well_formed(s),
    ensures
        well_formed(apply(s, r)),
{
    lemma_deposited_bounds(s);
    let account = account_of(s.accounts, r.client);
    if !account.locked && accepted(s, r) {
        lemma_deposited_after(s, r);
    }
}

/// Every sequence of records keeps the state well formed.
pub proof fn lemma_replay_well_formed(s: Ledger, records: Seq<Record>)
    requires
        well_formed(s),
    ensures
        well_formed(replay_from(s, records)),
    decreases records.len(),
{
    if records.len() > 0 {
        lemma_replay_well_formed(s, records.drop_last());
        lemma_apply_well_formed(replay_from(s, records.drop_last()), records.last());
    }
}

} // verus!
