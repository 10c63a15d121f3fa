//! The data that the engine works on: records, ledger entries and accounts.

use vstd::prelude::*;

verus! {

/// Identifies a client.
pub type ClientId = u16;

/// Identifies a transaction.
pub type TransactionId = u32;

/// An amount of money in ten-thousandths of the currency unit.
pub type Amount = i64;

/// A balance in ten-thousandths of the currency unit.
pub type Balance = i128;

/// Types of transactions.
#[derive(Clone, Copy, Debug, PartialEq, Eq, Structural)]
pub enum Type {
    /// The final state of a dispute: the client reverses a transaction.
    Chargeback,
    /// A credit to the client's account.
    Deposit,
    /// A client's claim that a transaction was erroneous.
    Dispute,
    /// A resolution to a dispute, releasing the associated held funds.
    Resolve,
    /// A debit to the client's account.
    Withdrawal,
}

/// Transaction record, the unit of input.
#[derive(Clone, Copy, Debug, PartialEq, Eq)]
pub struct Record {
    /// Transaction type.
    pub ty: Type,
    /// Client the transaction belongs to.
    pub client: ClientId,
    /// Transaction the record introduces or refers to.
    pub tx: TransactionId,
    /// Value of the transaction; absent on records that refer to an earlier one.
    pub amount: Option<Amount>,
}

impl Record {
    pub fn new(ty: Type, client: ClientId, tx: TransactionId, amount: Option<Amount>) -> (r: Self)
        ensures
            r == (Record { ty, client, tx, amount }),
    {
        Record { ty, client, tx, amount }
    }
}

/// What the engine remembers of an accepted deposit, keyed by its transaction.
#[derive(Clone, Copy, Debug, PartialEq, Eq, Structural)]
pub struct Entry {
    /// Client that made the deposit.
    pub client: ClientId,
    /// Amount deposited.
    pub amount: Amount,
    /// Whether the deposit is under dispute.
    pub disputed: bool,
}

/// Account summary.
#[derive(Clone, Copy, Debug, PartialEq, Eq, Structural)]
pub struct Client {
    /// Client the account belongs to.
    pub client: ClientId,
    /// Funds that can be withdrawn.
    pub available: Balance,
    /// Funds that are held for dispute.
    pub held: Balance,
    /// Funds that are available or held.
    pub total: Balance,
    /// Whether the account is locked.
    pub locked: bool,
}

impl Client {
    /// The account that a client has before any record touched it.
    pub open spec fn fresh(client: ClientId) -> Client {
        Client { client, available: 0, held: 0, total: 0, locked: false }
    }

    pub fn new(client: ClientId) -> (r: Self)
        ensures
            r == Client::fresh(client),
    {
        Client { client, available: 0, held: 0, total: 0, locked: false }
    }
}

impl Default for Client {
    fn default() -> (r: Self)
        ensures
            r == Client::fresh(0),
    {
        Client { client: 0, available: 0, held: 0, total: 0, locked: false }
    }
}

} // verus!
