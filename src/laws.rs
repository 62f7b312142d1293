//! Properties of a replay that hold for every input log.
use vstd::prelude::*;

use crate::models::{amount_value, ErrorKind, Transaction, TransactionType};
use crate::processor::{account_of, applied_account, replay, step, step_error};

verus! {

/// `tx` moves funds in or out (a deposit or a withdrawal).
pub open spec fn is_funds_movement(tx: Transaction) -> bool {
    tx.transaction_type == TransactionType::Deposit || tx.transaction_type
        == TransactionType::Withdrawal
}

/// `tx` refers to an earlier transaction (a dispute, a resolve or a chargeback).
pub open spec fn is_reference(tx: Transaction) -> bool {
    !is_funds_movement(tx)
}

/// The sum of the deposits of `client` in `txs`.
pub open spec fn deposited(txs: Seq<Transaction>, client: u16) -> int
    decreases txs.len(),
{
    if txs.len() == 0 {
        0
    } else {
        let tx = txs.last();
        deposited(txs.drop_last(), client) + if tx.client_id == client && tx.transaction_type
            == TransactionType::Deposit {
            amount_value(tx)
        } else {
            0
        }
    }
}

/// The sum of the withdrawals of `client` in `txs` that were accepted when replayed.
pub open spec fn withdrawn(txs: Seq<Transaction>, client: u16) -> int
    decreases txs.len(),
{
    if txs.len() == 0 {
        0
    } else {
        let tx = txs.last();
        withdrawn(txs.drop_last(), client) + if tx.client_id == client && tx.transaction_type
            == TransactionType::Withdrawal && step_error(replay(txs.drop_last()), tx) is None {
            amount_value(tx)
        } else {
            0
        }
    }
}

/// Replaying one more transaction is one more step.
pub proof fn lemma_replay_push(txs: Seq<Transaction>, tx: Transaction)
    ensures
        replay(txs.push(tx)) == step(replay(txs), tx),
{
    assert(txs.push(tx).drop_last() =~= txs);
}

/// After every transaction, each account's total equals its available plus held funds.
pub proof fn lemma_total_is_sum(txs: Seq<Transaction>)
    ensures
        forall|c: u16| #[trigger]
            replay(txs).accounts.contains_key(c) ==> replay(txs).accounts[c].total == replay(
                txs,
            ).accounts[c].available + replay(txs).accounts[c].held,
    decreases txs.len(),
{
    if txs.len() > 0 {
        let prefix = txs.drop_last();
        lemma_total_is_sum(prefix);
        let tx = txs.last();
        assert(replay(txs) == step(replay(prefix), tx));
        if step_error(replay(prefix), tx) is None {
            let a = applied_account(account_of(replay(prefix), tx.client_id), tx, replay(prefix).history);
            assert(a.total == a.available + a.held);
        }
    }
}

/// A transaction id is under dispute only if it is in the history store.
pub proof fn lemma_disputes_are_recorded(txs: Seq<Transaction>)
    ensures
        replay(txs).disputes.dom().subset_of(replay(txs).history.dom()),
    decreases txs.len(),
{
    if txs.len() > 0 {
        lemma_disputes_are_recorded(txs.drop_last());
    }
}

/// Over a log of deposits and withdrawals only, each account holds nothing, and
/// its available funds and total are its deposits less its accepted withdrawals.
pub proof fn lemma_funds_movements_only(txs: Seq<Transaction>)
    requires
        forall|i: int| 0 <= i < txs.len() ==> is_funds_movement(#[trigger] txs[i]),
    ensures
        forall|c: u16| #[trigger]
            replay(txs).accounts.contains_key(c) ==> {
                let a = replay(txs).accounts[c];
                &&& a.available == deposited(txs, c) - withdrawn(txs, c)
                &&& a.held == 0
                &&& a.total == a.available
            },
    decreases txs.len(),
{
    if txs.len() > 0 {
        let prefix = txs.drop_last();
        assert forall|i: int| 0 <= i < prefix.len() implies is_funds_movement(
            #[trigger] prefix[i],
        ) by {
            assert(prefix[i] == txs[i]);
        }
        lemma_funds_movements_only(prefix);
        assert(is_funds_movement(txs[txs.len() - 1]));
        assert forall|c: u16| #[trigger]
            replay(txs).accounts.contains_key(c) implies replay(txs).accounts[c].available
            == deposited(txs, c) - withdrawn(txs, c) by {
            if !replay(prefix).accounts.contains_key(c) {
                assert(deposited(prefix, c) == 0 && withdrawn(prefix, c) == 0) by {
                    lemma_no_account_no_movement(prefix, c);
                }
            }
        }
    }
}

/// A client without an account has no deposit and no accepted withdrawal.
proof fn lemma_no_account_no_movement(txs: Seq<Transaction>, c: u16)
    requires
        !replay(txs).accounts.contains_key(c),
    ensures
        deposited(txs, c) == 0,
        withdrawn(txs, c) == 0,
    decreases txs.len(),
{
    if txs.len() > 0 {
        let prefix = txs.drop_last();
        lemma_accounts_grow(prefix, txs.last());
        lemma_no_account_no_movement(prefix, c);
    }
}

/// A step never closes an account.
proof fn lemma_accounts_grow(txs: Seq<Transaction>, tx: Transaction)
    ensures
        replay(txs).accounts.dom().subset_of(step(replay(txs), tx).accounts.dom()),
{
}

/// A dispute followed by a resolve of the same recorded transaction leaves the
/// account as it was before the dispute; a second resolve is then rejected as
/// not disputed and changes nothing.
pub proof fn lemma_dispute_then_resolve(txs: Seq<Transaction>, d: Transaction, r: Transaction)
    requires
        d.transaction_type == TransactionType::Dispute,
        r.transaction_type == TransactionType::Resolve,
        r.client_id == d.client_id,
        r.id == d.id,
        replay(txs).history.contains_key(d.id),
    ensures
        replay(txs.push(d).push(r)).accounts.contains_key(d.client_id),
        replay(txs.push(d).push(r)).accounts[d.client_id] == account_of(replay(txs), d.client_id),
        step_error(replay(txs.push(d).push(r)), r) == Some(ErrorKind::NotDisputed),
        replay(txs.push(d).push(r).push(r)) == replay(txs.push(d).push(r)),
{
    lemma_replay_push(txs, d);
    lemma_replay_push(txs.push(d), r);
    lemma_replay_push(txs.push(d).push(r), r);
    lemma_total_is_sum(txs);
}

/// A dispute followed by a chargeback of the same recorded transaction locks the
/// account and takes the disputed amount out of its held funds; a second
/// chargeback is then rejected as not disputed and changes nothing.
pub proof fn lemma_dispute_then_chargeback(
    txs: Seq<Transaction>,
    d: Transaction,
    cb: Transaction,
)
    requires
        d.transaction_type == TransactionType::Dispute,
        cb.transaction_type == TransactionType::Chargeback,
        cb.client_id == d.client_id,
        cb.id == d.id,
        replay(txs).history.contains_key(d.id),
    ensures
        ({
            let disputed = replay(txs.push(d)).accounts[d.client_id];
            let charged = replay(txs.push(d).push(cb)).accounts[d.client_id];
            let amount = amount_value(replay(txs).history[d.id]);
            &&& replay(txs.push(d).push(cb)).accounts.contains_key(d.client_id)
            &&& charged.locked
            &&& charged.held == disputed.held - amount
            &&& charged.available == disputed.available
            &&& charged.available == account_of(replay(txs), d.client_id).available - amount
        }),
        step_error(replay(txs.push(d).push(cb)), cb) == Some(ErrorKind::NotDisputed),
        replay(txs.push(d).push(cb).push(cb)) == replay(txs.push(d).push(cb)),
{
    lemma_replay_push(txs, d);
    lemma_replay_push(txs.push(d), cb);
    lemma_replay_push(txs.push(d).push(cb), cb);
}

/// Once an account is locked it stays locked whatever follows.
pub proof fn lemma_locked_stays_locked(txs: Seq<Transaction>, more: Seq<Transaction>, c: u16)
    requires
        replay(txs).accounts.contains_key(c),
        replay(txs).accounts[c].locked,
    ensures
        replay(txs + more).accounts.contains_key(c),
        replay(txs + more).accounts[c].locked,
    decreases more.len(),
{
    if more.len() == 0 {
        assert(txs + more =~= txs);
    } else {
        let shorter = more.drop_last();
        lemma_locked_stays_locked(txs, shorter, c);
        assert((txs + more).drop_last() =~= txs + shorter);
    }
}

/// A withdrawal larger than the available funds is rejected for insufficient
/// funds and leaves the whole ledger as it was.
pub proof fn lemma_overdraft_is_rejected(txs: Seq<Transaction>, w: Transaction)
    requires
        w.transaction_type == TransactionType::Withdrawal,
        account_of(replay(txs), w.client_id).available < amount_value(w),
    ensures
        step_error(replay(txs), w) == Some(ErrorKind::InsufficientFunds),
        replay(txs.push(w)) == replay(txs),
{
    lemma_replay_push(txs, w);
}

/// Every id in the history store belongs to a deposit or withdrawal of the log.
proof fn lemma_history_is_seen(txs: Seq<Transaction>, id: u32)
    requires
        replay(txs).history.contains_key(id),
    ensures
        exists|i: int| 0 <= i < txs.len() && #[trigger] txs[i].id == id && is_funds_movement(
            txs[i],
        ),
    decreases txs.len(),
{
    let prefix = txs.drop_last();
    if replay(prefix).history.contains_key(id) {
        lemma_history_is_seen(prefix, id);
        let i = choose|i: int| 0 <= i < prefix.len() && #[trigger] prefix[i].id == id
            && is_funds_movement(prefix[i]);
        assert(txs[i] == prefix[i]);
    } else {
        assert(txs[txs.len() - 1].id == id);
    }
}

/// A dispute, resolve or chargeback naming an id that no deposit or withdrawal
/// of the log carries is rejected as unknown and leaves the whole ledger as it was.
pub proof fn lemma_unknown_reference_is_rejected(txs: Seq<Transaction>, tx: Transaction)
    requires
        is_reference(tx),
        forall|i: int| 0 <= i < txs.len() && #[trigger] txs[i].id == tx.id ==> !is_funds_movement(
            txs[i],
        ),
    ensures
        step_error(replay(txs), tx) == Some(ErrorKind::UnknownTransaction),
        replay(txs.push(tx)) == replay(txs),
{
    if replay(txs).history.contains_key(tx.id) {
        lemma_history_is_seen(txs, tx.id);
    }
    lemma_replay_push(txs, tx);
}

} // verus!
