//! Laws of the replay rules, each proved from the definition of `apply`.

use vstd::prelude::*;
use crate::bounds::{lemma_apply_well_formed, lemma_deposited_bounds, lemma_replay_well_formed};
use crate::ledger::{
    accepted, account_of, apply, empty_ledger, replay, replay_from, well_formed, Ledger,
};
use crate::model::{Amount, ClientId, Record, Type};

verus! {

/// Two states that differ at most in accounts that no record has moved yet:
/// the entries are the same, and every client has the same account, counting
/// a client without an account as having a fresh one.
pub open spec fn same_balances(a: Ledger, b: Ledger) -> bool {
    &&& a.entries == b.entries
    &&& forall|c: ClientId| account_of(a.accounts, c) == account_of(b.accounts, c)
}

/// After any sequence of records, every account's total is the sum of its
/// available and held funds, and none of the three is negative.
pub proof fn lemma_totals_add_up(records: Seq<Record>, client: ClientId)
    requires
        replay(records).accounts.contains_key(client),
    ensures
        ({
            let account = replay(records).accounts[client];
            &&& account.total == account.available + account.held
            &&& account.available >= 0
            &&& account.held >= 0
            &&& account.client == client
        }),
{
    lemma_replay_well_formed(empty_ledger(), records);
}

/// An account that is locked is never changed again, whatever records follow.
pub proof fn lemma_locked_account_is_final(s: Ledger, records: Seq<Record>, client: ClientId)
    requires
        s.accounts.contains_key(client),
        s.accounts[client].locked,
    ensures
        replay_from(s, records).accounts.contains_key(client),
        replay_from(s, records).accounts[client] == s.accounts[client],
    decreases records.len(),
{
    if records.len() > 0 {
        lemma_locked_account_is_final(s, records.drop_last(), client);
    }
}

/// A record for a locked account changes nothing at all.
pub proof fn lemma_locked_account_ignores(s: Ledger, r: Record)
    requires
        account_of(s.accounts, r.client).locked,
    ensures
        apply(s, r) == s,
{
}

/// A deposit of `a` followed by its dispute moves exactly `a` from available
/// to held, and the resolve that follows moves it back: the state after the
/// resolve is the state after the deposit.
pub proof fn lemma_dispute_then_resolve(
    s: Ledger,
    deposit: Record,
    dispute: Record,
    resolve: Record,
    a: Amount,
)
    requires
        well_formed(s),
        !account_of(s.accounts, deposit.client).locked,
        !s.entries.contains_key(deposit.tx),
        a > 0,
        deposit.ty == Type::Deposit && deposit.amount == Some(a),
        dispute.ty == Type::Dispute && dispute.client == deposit.client && dispute.tx == deposit.tx,
        resolve.ty == Type::Resolve && resolve.client == deposit.client && resolve.tx == deposit.tx,
    ensures
        ({
            let c = deposit.client;
            let before = account_of(s.accounts, c);
            let s1 = apply(s, deposit);
            let s2 = apply(s1, dispute);
            let s3 = apply(s2, resolve);
            &&& s1.accounts[c].available == before.available + a
            &&& s1.accounts[c].held == before.held
            &&& s2.accounts[c].available == s1.accounts[c].available - a
            &&& s2.accounts[c].held == s1.accounts[c].held + a
            &&& s2.accounts[c].total == s1.accounts[c].total
            &&& s2.entries[deposit.tx].disputed
            &&& s3 == s1
        }),
{
    let s1 = apply(s, deposit);
    let s2 = apply(s1, dispute);
    let s3 = apply(s2, resolve);
    lemma_deposited_bounds(s);
    lemma_apply_well_formed(s, deposit);
    lemma_deposited_bounds(s1);
    lemma_apply_well_formed(s1, dispute);
    lemma_deposited_bounds(s2);
    assert(accepted(s, deposit));
    assert(accepted(s1, dispute));
    assert(accepted(s2, resolve));
    assert(s3.accounts =~= s1.accounts);
    assert(s3.entries =~= s1.entries);
}

/// An accepted chargeback of a deposit of `a` takes `a` out of the held
/// funds, leaves the available funds alone and locks the account.
pub proof fn lemma_chargeback_locks(s: Ledger, chargeback: Record)
    requires
        well_formed(s),
        chargeback.ty == Type::Chargeback,
        accepted(s, chargeback),
    ensures
        ({
            let c = chargeback.client;
            let a = s.entries[chargeback.tx].amount;
            let s1 = apply(s, chargeback);
            &&& s1.accounts[c].held == s.accounts[c].held - a
            &&& s1.accounts[c].available == s.accounts[c].available
            &&& s1.accounts[c].total == s.accounts[c].total - a
            &&& s1.accounts[c].locked
            &&& s1.entries == s.entries
        }),
{
    lemma_deposited_bounds(s);
    assert(s.accounts.contains_key(chargeback.client)) by {
        if !s.accounts.contains_key(chargeback.client) {
            assert(account_of(s.accounts, chargeback.client).held == 0);
        }
    }
}

/// After an accepted chargeback, a second chargeback or a resolve of the same
/// transaction moves nothing. The one exception is left out: a resolve sent by
/// another client whose own held funds cover the amount, which the rules accept.
pub proof fn lemma_chargeback_is_final(s: Ledger, chargeback: Record, again: Record)
    requires
        well_formed(s),
        chargeback.ty == Type::Chargeback,
        accepted(s, chargeback),
        again.tx == chargeback.tx,
        again.ty == Type::Chargeback || again.ty == Type::Resolve,
        !({
            &&& again.ty == Type::Resolve
            &&& again.client != chargeback.client
            &&& !account_of(apply(s, chargeback).accounts, again.client).locked
            &&& account_of(apply(s, chargeback).accounts, again.client).held
                >= s.entries[chargeback.tx].amount
        }),
    ensures
        same_balances(apply(s, chargeback), apply(apply(s, chargeback), again)),
        again.client == chargeback.client ==> apply(apply(s, chargeback), again) == apply(
            s,
            chargeback,
        ),
{
    let s1 = apply(s, chargeback);
    lemma_apply_well_formed(s, chargeback);
    lemma_deposited_bounds(s1);
    lemma_chargeback_locks(s, chargeback);
    lemma_ignored_moves_nothing(s1, again);
}

/// A record that is not accepted moves nothing.
pub proof fn lemma_ignored_moves_nothing(s: Ledger, r: Record)
    requires
        well_formed(s),
        !accepted(s, r),
    ensures
        same_balances(s, apply(s, r)),
{
    let t = apply(s, r);
    assert forall|c: ClientId| account_of(s.accounts, c) == account_of(t.accounts, c) by {
        if s.accounts.contains_key(c) {
            assert(s.accounts[c].total == s.accounts[c].available + s.accounts[c].held);
        }
    }
}

/// A withdrawal of more than the available funds moves nothing: neither the
/// available funds nor the total change.
pub proof fn lemma_overdraft_moves_nothing(s: Ledger, withdrawal: Record, a: Amount)
    requires
        well_formed(s),
        withdrawal.ty == Type::Withdrawal,
        withdrawal.amount == Some(a),
        a > account_of(s.accounts, withdrawal.client).available,
    ensures
        same_balances(s, apply(s, withdrawal)),
        apply(s, withdrawal).accounts[withdrawal.client].available == account_of(
            s.accounts,
            withdrawal.client,
        ).available,
        apply(s, withdrawal).accounts[withdrawal.client].total == account_of(
            s.accounts,
            withdrawal.client,
        ).total,
{
    lemma_ignored_moves_nothing(s, withdrawal);
    assert(account_of(apply(s, withdrawal).accounts, withdrawal.client) == account_of(
        s.accounts,
        withdrawal.client,
    ));
}

} // verus!
