//! The replay rules: how one record changes the accounts and the entry table.

use vstd::prelude::*;
use crate::model::{Balance, Client, ClientId, Entry, Record, TransactionId, Type};

verus! {

/// The engine's state between two records: one account per client seen so
/// far, and one entry per accepted deposit.
pub struct Ledger {
    pub accounts: Map<ClientId, Client>,
    pub entries: Map<TransactionId, Entry>,
}

/// Number of transaction identifiers that exist.
pub open spec fn tx_space() -> nat {
    0x1_0000_0000
}

/// The state before the first record.
pub open spec fn empty_ledger() -> Ledger {
    Ledger { accounts: Map::empty(), entries: Map::empty() }
}

/// The account of `client`: the stored one, or a fresh one if none is stored.
pub open spec fn account_of(accounts: Map<ClientId, Client>, client: ClientId) -> Client {
    if accounts.contains_key(client) {
        accounts[client]
    } else {
        Client::fresh(client)
    }
}

/// `account` with `amount` moved into its available funds (out of them if negative).
pub open spec fn with_available(account: Client, amount: int) -> Client {
    Client { available: (account.available + amount) as Balance, ..account }
}

/// `account` with `amount` moved into its held funds (out of them if negative).
pub open spec fn with_held(account: Client, amount: int) -> Client {
    Client { held: (account.held + amount) as Balance, ..account }
}

/// `account` with its total brought up to date.
pub open spec fn settled(account: Client) -> Client {
    Client { total: (account.available + account.held) as Balance, ..account }
}

/// Whether a deposit record is accepted in state `s`.
pub open spec fn deposit_accepted(s: Ledger, r: Record) -> bool {
    &&& r.amount matches Some(a)
    &&& a > 0
    &&& !s.entries.contains_key(r.tx)
}

/// Whether a withdrawal record is accepted in state `s`.
pub open spec fn withdrawal_accepted(s: Ledger, r: Record) -> bool {
    &&& r.amount matches Some(a)
    &&& a > 0
    &&& account_of(s.accounts, r.client).available >= a
}

/// Whether a dispute record is accepted in state `s`.
pub open spec fn dispute_accepted(s: Ledger, r: Record) -> bool {
    &&& s.entries.contains_key(r.tx)
    &&& s.entries[r.tx].client == r.client
    &&& !s.entries[r.tx].disputed
    &&& account_of(s.accounts, r.client).available >= s.entries[r.tx].amount
}

/// Whether a resolve record is accepted in state `s`.
pub open spec fn resolve_accepted(s: Ledger, r: Record) -> bool {
    &&& s.entries.contains_key(r.tx)
    &&& s.entries[r.tx].disputed
    &&& account_of(s.accounts, r.client).held >= s.entries[r.tx].amount
}

/// Whether a chargeback record is accepted in state `s`.
pub open spec fn chargeback_accepted(s: Ledger, r: Record) -> bool {
    &&& s.entries.contains_key(r.tx)
    &&& s.entries[r.tx].client == r.client
    &&& s.entries[r.tx].disputed
    &&& account_of(s.accounts, r.client).held >= s.entries[r.tx].amount
}

/// Whether record `r` is accepted in state `s`, that is, changes a balance,
/// a dispute flag or a lock.
pub open spec fn accepted(s: Ledger, r: Record) -> bool {
    &&& !account_of(s.accounts, r.client).locked
    &&& match r.ty {
        Type::Deposit => deposit_accepted(s, r),
        Type::Withdrawal => withdrawal_accepted(s, r),
        Type::Dispute => dispute_accepted(s, r),
        Type::Resolve => resolve_accepted(s, r),
        Type::Chargeback => chargeback_accepted(s, r),
    }
}

/// The account of `r.client` after an accepted record `r`, before its total
/// is brought up to date.
pub open spec fn moved(s: Ledger, r: Record) -> Client {
    let account = account_of(s.accounts, r.client);
    match r.ty {
        Type::Deposit => with_available(account, r.amount.unwrap() as int),
        Type::Withdrawal => with_available(account, -r.amount.unwrap()),
        Type::Dispute => with_held(
            with_available(account, -s.entries[r.tx].amount),
            s.entries[r.tx].amount as int,
        ),
        Type::Resolve => with_held(
            with_available(account, s.entries[r.tx].amount as int),
            -s.entries[r.tx].amount,
        ),
        Type::Chargeback => Client {
            locked: true,
            ..with_held(account, -s.entries[r.tx].amount)
        },
    }
}

/// The entry table after an accepted record `r`.
pub open spec fn noted(s: Ledger, r: Record) -> Map<TransactionId, Entry> {
    match r.ty {
        Type::Deposit => s.entries.insert(
            r.tx,
            Entry { client: r.client, amount: r.amount.unwrap(), disputed: false },
        ),
        Type::Dispute => s.entries.insert(r.tx, Entry { disputed: true, ..s.entries[r.tx] }),
        Type::Resolve => s.entries.insert(r.tx, Entry { disputed: false, ..s.entries[r.tx] }),
        _ => s.entries,
    }
}

/// The state after record `r` is applied to state `s`.
///
/// A record for a locked account changes nothing. Any other record leaves an
/// account for its client behind, also when the record itself is ignored.
pub open spec fn apply(s: Ledger, r: Record) -> Ledger {
    let account = account_of(s.accounts, r.client);
    if account.locked {
        s
    } else if accepted(s, r) {
        Ledger { accounts: s.accounts.insert(r.client, settled(moved(s, r))), entries: noted(s, r) }
    } else {
        Ledger { accounts: s.accounts.insert(r.client, settled(account)), entries: s.entries }
    }
}

/// The state after `records` are applied to `s`, first to last.
pub open spec fn replay_from(s: Ledger, records: Seq<Record>) -> Ledger
    decreases records.len(),
{
    if records.len() == 0 {
        s
    } else {
        apply(replay_from(s, records.drop_last()), records.last())
    }
}

/// The state after `records` are applied to the empty state, first to last.
pub open spec fn replay(records: Seq<Record>) -> Ledger {
    replay_from(empty_ledger(), records)
}

/// Sum of the amounts of the entries whose transaction is below `n`.
pub open spec fn deposited_below(entries: Map<TransactionId, Entry>, n: nat) -> int
    decreases n,
{
    if n == 0 {
        0
    } else {
        let tx = (n - 1) as TransactionId;
        deposited_below(entries, (n - 1) as nat) + if entries.contains_key(tx) {
            entries[tx].amount as int
        } else {
            0
        }
    }
}

/// Sum of the amounts of all entries: what was ever deposited.
pub open spec fn deposited(entries: Map<TransactionId, Entry>) -> int {
    deposited_below(entries, tx_space())
}

/// An account stored under `client` is sound: it carries that client's
/// identifier, no balance is negative, and the total is the sum of the other two.
pub open spec fn account_sound(client: ClientId, account: Client) -> bool {
    &&& account.client == client
    &&& account.available >= 0
    &&& account.held >= 0
    &&& account.total == account.available + account.held
}

/// The invariant of the engine's state: every account is sound and holds no
/// more than was ever deposited, and every entry records a positive amount.
pub open spec fn well_formed(s: Ledger) -> bool {
    &&& forall|c: ClientId|
        (#[trigger] s.accounts.contains_key(c)) ==> account_sound(c, s.accounts[c])
            && s.accounts[c].total <= deposited(s.entries)
    &&& forall|tx: TransactionId|
        (#[trigger] s.entries.contains_key(tx)) ==> s.entries[tx].amount > 0
}

} // verus!
