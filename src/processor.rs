use std::collections::HashMap;
use vstd::prelude::*;

use crate::models::{
    amount_value, new_account, with_total, Account, AccountView, ErrorKind, ProcessorError,
    Transaction, TransactionType,
};

verus! {

broadcast use vstd::std_specs::hash::group_hash_axioms;

/// Room an account must leave below `i128::MAX` so that one more transaction,
/// whose amount is an `i64`, cannot overflow any balance.
pub open spec fn headroom() -> int {
    i128::MAX - 0x8000_0000_0000_0000
}

/// Every balance of `a`, and the sum of `available` and `held`, lie within `[-b, b]`.
pub open spec fn bounded(a: AccountView, b: int) -> bool {
    &&& -b <= a.available <= b
    &&& -b <= a.held <= b
    &&& -b <= a.available + a.held <= b
}

/// Why `tx` is rejected when applied to `acct` with the given history store and
/// dispute tracker, or `None` when it is accepted.
pub open spec fn apply_error(
    acct: AccountView,
    tx: Transaction,
    history: Map<u32, Transaction>,
    disputes: Map<u32, Transaction>,
) -> Option<ErrorKind> {
    match tx.transaction_type {
        TransactionType::Deposit => None,
        TransactionType::Withdrawal => if acct.available >= amount_value(tx) {
            None
        } else {
            Some(ErrorKind::InsufficientFunds)
        },
        TransactionType::Dispute => if history.contains_key(tx.id) {
            None
        } else {
            Some(ErrorKind::UnknownTransaction)
        },
        _ => if !history.contains_key(tx.id) {
            Some(ErrorKind::UnknownTransaction)
        } else if !disputes.contains_key(tx.id) {
            Some(ErrorKind::NotDisputed)
        } else {
            None
        },
    }
}

/// The account after an accepted `tx`. Disputes, resolves and chargebacks move
/// the amount of the referenced transaction found in `history`.
pub open spec fn applied_account(
    acct: AccountView,
    tx: Transaction,
    history: Map<u32, Transaction>,
) -> AccountView {
    let amount = amount_value(tx);
    let prior = amount_value(history[tx.id]);
    with_total(
        match tx.transaction_type {
            TransactionType::Deposit => AccountView { available: acct.available + amount, ..acct },
            TransactionType::Withdrawal => AccountView {
                available: acct.available - amount,
                ..acct
            },
            TransactionType::Dispute => AccountView {
                available: acct.available - prior,
                held: acct.held + prior,
                ..acct
            },
            TransactionType::Resolve => AccountView {
                available: acct.available + prior,
                held: acct.held - prior,
                ..acct
            },
            TransactionType::Chargeback => AccountView {
                held: acct.held - prior,
                locked: true,
                ..acct
            },
        },
    )
}

/// The history store after an accepted `tx`: deposits and withdrawals are
/// recorded under their id, the first record of an id being kept.
pub open spec fn applied_history(tx: Transaction, history: Map<u32, Transaction>) -> Map<
    u32,
    Transaction,
> {
    match tx.transaction_type {
        TransactionType::Deposit | TransactionType::Withdrawal => if history.contains_key(tx.id) {
            history
        } else {
            history.insert(tx.id, tx)
        },
        _ => history,
    }
}

/// The dispute tracker after an accepted `tx`: a dispute marks its id (the first
/// disputing record being kept), a resolve or chargeback clears it.
pub open spec fn applied_disputes(tx: Transaction, disputes: Map<u32, Transaction>) -> Map<
    u32,
    Transaction,
> {
    match tx.transaction_type {
        TransactionType::Dispute => if disputes.contains_key(tx.id) {
            disputes
        } else {
            disputes.insert(tx.id, tx)
        },
        TransactionType::Resolve | TransactionType::Chargeback => disputes.remove(tx.id),
        _ => disputes,
    }
}

/// The whole state of a replay: the account of each client seen, the history
/// store and the dispute tracker.
pub struct LedgerState {
    pub accounts: Map<u16, AccountView>,
    pub history: Map<u32, Transaction>,
    pub disputes: Map<u32, Transaction>,
}

pub open spec fn empty_ledger() -> LedgerState {
    LedgerState { accounts: Map::empty(), history: Map::empty(), disputes: Map::empty() }
}

/// The account of `client`, or a fresh one when the client has none yet.
pub open spec fn account_of(s: LedgerState, client: u16) -> AccountView {
    if s.accounts.contains_key(client) {
        s.accounts[client]
    } else {
        new_account(client)
    }
}

/// Why `tx` is rejected in state `s`, or `None` when it is accepted.
pub open spec fn step_error(s: LedgerState, tx: Transaction) -> Option<ErrorKind> {
    apply_error(account_of(s, tx.client_id), tx, s.history, s.disputes)
}

/// The state after `tx`. A rejected transaction changes nothing, and in
/// particular opens no account.
pub open spec fn step(s: LedgerState, tx: Transaction) -> LedgerState {
    if step_error(s, tx) is Some {
        s
    } else {
        LedgerState {
            accounts: s.accounts.insert(
                tx.client_id,
                applied_account(account_of(s, tx.client_id), tx, s.history),
            ),
            history: applied_history(tx, s.history),
            disputes: applied_disputes(tx, s.disputes),
        }
    }
}

/// The state after applying `txs` in order to an empty ledger.
pub open spec fn replay(txs: Seq<Transaction>) -> LedgerState
    decreases txs.len(),
{
    if txs.len() == 0 {
        empty_ledger()
    } else {
        step(replay(txs.drop_last()), txs.last())
    }
}

/// The transactions of `txs` that are rejected during a replay, in order, each
/// with the reason.
pub open spec fn rejections(txs: Seq<Transaction>) -> Seq<(Transaction, ErrorKind)>
    decreases txs.len(),
{
    if txs.len() == 0 {
        Seq::empty()
    } else {
        let before = rejections(txs.drop_last());
        match step_error(replay(txs.drop_last()), txs.last()) {
            Some(kind) => before.push((txs.last(), kind)),
            None => before,
        }
    }
}

/// The executable accounts `m` have exactly the clients and values of `a`.
pub open spec fn accounts_match(m: Map<u16, Account>, a: Map<u16, AccountView>) -> bool {
    &&& m.dom() == a.dom()
    &&& forall|c: u16| #[trigger] m.contains_key(c) ==> m[c]@ == a[c]
}

/// A transaction that was rejected during a replay, with the reason.
#[derive(Debug)]
pub struct Rejection {
    pub transaction: Transaction,
    pub error: ProcessorError,
}

proof fn lemma_amount_range(tx: Transaction)
    ensures
        -0x8000_0000_0000_0000 <= amount_value(tx) < 0x8000_0000_0000_0000,
{
}

fn find_transaction_amount(tx_id: &u32, tx_history: &HashMap<u32, Transaction>) -> (r: Result<
    i64,
    ProcessorError,
>)
    ensures
        match r {
            Ok(a) => tx_history@.contains_key(*tx_id) && a as int == amount_value(
                tx_history@[*tx_id],
            ),
            Err(e) => !tx_history@.contains_key(*tx_id) && e.kind == ErrorKind::UnknownTransaction,
        },
{
    match tx_history.get(tx_id) {
        Some(historical_tx) => Ok(historical_tx.amount()),
        None => Err(
            ProcessorError::new(
                ErrorKind::UnknownTransaction,
                "Unable to find historical transaction".to_string(),
            ),
        ),
    }
}

fn disputed_transaction_exists(tx_id: &u32, dispute_history: &HashMap<u32, Transaction>) -> (r:
    Result<bool, ProcessorError>)
    ensures
        match r {
            Ok(b) => b && dispute_history@.contains_key(*tx_id),
            Err(e) => !dispute_history@.contains_key(*tx_id) && e.kind == ErrorKind::NotDisputed,
        },
{
    if dispute_history.contains_key(tx_id) {
        Ok(true)
    } else {
        Err(
            ProcessorError::new(
                ErrorKind::NotDisputed,
                "Unable to find disputed transaction".to_string(),
            ),
        )
    }
}

/// Records a deposit or withdrawal in the history store unless its id is already there.
fn record_in_history(tx_history: &mut HashMap<u32, Transaction>, tx: &Transaction)
    ensures
        final(tx_history)@ == (if old(tx_history)@.contains_key(tx.id) {
            old(tx_history)@
        } else {
            old(tx_history)@.insert(tx.id, *tx)
        }),
{
    if !tx_history.contains_key(&tx.id) {
        tx_history.insert(tx.id, *tx);
    }
}

/// Applies one transaction to the account of its client, updating the history
/// store and the dispute tracker. A rejected transaction changes nothing.
pub fn apply_transaction(
    acct: &mut Account,
    tx: &Transaction,
    tx_history: &mut HashMap<u32, Transaction>,
    dispute_history: &mut HashMap<u32, Transaction>,
) -> (r: Result<(), ProcessorError>)
    requires
        bounded(old(acct)@, headroom()),
    ensures
        match r {
            Ok(()) => {
                &&& apply_error(old(acct)@, *tx, old(tx_history)@, old(dispute_history)@) is None
                &&& final(acct)@ == applied_account(old(acct)@, *tx, old(tx_history)@)
                &&& final(tx_history)@ == applied_history(*tx, old(tx_history)@)
                &&& final(dispute_history)@ == applied_disputes(*tx, old(dispute_history)@)
            },
            Err(e) => {
                &&& apply_error(old(acct)@, *tx, old(tx_history)@, old(dispute_history)@) == Some(
                    e.kind,
                )
                &&& *final(acct) == *old(acct)
                &&& final(tx_history)@ == old(tx_history)@
                &&& final(dispute_history)@ == old(dispute_history)@
            },
        },
{
    proof {
        lemma_amount_range(*tx);
    }
    match tx.transaction_type {
        TransactionType::Deposit => {
            acct.available = acct.available + tx.amount() as i128;
            record_in_history(tx_history, tx);
        },
        TransactionType::Withdrawal => {
            let amount = tx.amount() as i128;
            if acct.available >= amount {
                acct.available = acct.available - amount;
                record_in_history(tx_history, tx);
            } else {
                return Err(
                    ProcessorError::new(
                        ErrorKind::InsufficientFunds,
                        "Insufficient funds for withdrawal".to_string(),
                    ),
                );
            }
        },
        TransactionType::Dispute => {
            let prior = match find_transaction_amount(&tx.id, tx_history) {
                Ok(a) => a as i128,
                Err(e) => {
                    return Err(e);
                },
            };
            proof {
                lemma_amount_range(tx_history@[tx.id]);
            }
            acct.available = acct.available - prior;
            acct.held = acct.held + prior;
            if !dispute_history.contains_key(&tx.id) {
                dispute_history.insert(tx.id, *tx);
            }
        },
        TransactionType::Resolve => {
            let prior = match find_transaction_amount(&tx.id, tx_history) {
                Ok(a) => a as i128,
                Err(e) => {
                    return Err(e);
                },
            };
            proof {
                lemma_amount_range(tx_history@[tx.id]);
            }
            match disputed_transaction_exists(&tx.id, dispute_history) {
                Ok(_) => {},
                Err(e) => {
                    return Err(e);
                },
            }
            acct.available = acct.available + prior;
            acct.held = acct.held - prior;
            dispute_history.remove(&tx.id);
        },
        TransactionType::Chargeback => {
            let prior = match find_transaction_amount(&tx.id, tx_history) {
                Ok(a) => a as i128,
                Err(e) => {
                    return Err(e);
                },
            };
            proof {
                lemma_amount_range(tx_history@[tx.id]);
            }
            match disputed_transaction_exists(&tx.id, dispute_history) {
                Ok(_) => {},
                Err(e) => {
                    return Err(e);
                },
            }
            acct.held = acct.held - prior;
            acct.locked = true;
            dispute_history.remove(&tx.id);
        },
    }
    acct.sum_total();
    Ok(())
}

/// Replays `transactions` in order against an empty ledger. Returns the final
/// account of every client with at least one accepted transaction, and each
/// rejected transaction with the reason, in input order.
pub fn replay_transactions(transactions: &Vec<Transaction>) -> (r: (
    HashMap<u16, Account>,
    Vec<Rejection>,
))
    ensures
        accounts_match(r.0@, replay(transactions@).accounts),
        r.1@.len() == rejections(transactions@).len(),
        forall|j: int|
            0 <= j < r.1@.len() ==> (#[trigger] r.1@[j]).transaction == rejections(
                transactions@,
            )[j].0 && r.1@[j].error.kind == rejections(transactions@)[j].1,
{
    let mut account_map: HashMap<u16, Account> = HashMap::new();
    let mut tx_history: HashMap<u32, Transaction> = HashMap::new();
    let mut dispute_history: HashMap<u32, Transaction> = HashMap::new();
    let mut rejected: Vec<Rejection> = Vec::new();
    let n = transactions.len();
    let mut i: usize = 0;
    while i < n
        invariant
            n == transactions@.len(),
            i <= n,
            accounts_match(account_map@, replay(transactions@.take(i as int)).accounts),
            tx_history@ == replay(transactions@.take(i as int)).history,
            dispute_history@ == replay(transactions@.take(i as int)).disputes,
            forall|c: u16|
                #[trigger] account_map@.contains_key(c) ==> bounded(
                    account_map@[c]@,
                    i * 0x8000_0000_0000_0000,
                ),
            rejected@.len() == rejections(transactions@.take(i as int)).len(),
            forall|j: int|
                0 <= j < rejected@.len() ==> (#[trigger] rejected@[j]).transaction == rejections(
                    transactions@.take(i as int),
                )[j].0 && rejected@[j].error.kind == rejections(
                    transactions@.take(i as int),
                )[j].1,
        decreases n - i,
    {
        let tx: Transaction = transactions[i];
        let ghost before = replay(transactions@.take(i as int));
        let ghost prefix = transactions@.take(i as int + 1);
        proof {
            assert(prefix.drop_last() =~= transactions@.take(i as int));
            assert(prefix.last() == tx);
        }
        let mut account = match account_map.get(&tx.client_id) {
            Some(a) => *a,
            None => Account::new(&tx.client_id),
        };
        assert(account@ == account_of(before, tx.client_id));
        match apply_transaction(&mut account, &tx, &mut tx_history, &mut dispute_history) {
            Ok(()) => {
                account_map.insert(tx.client_id, account);
                proof {
                    lemma_amount_range(tx);
                    if before.history.contains_key(tx.id) {
                        lemma_amount_range(before.history[tx.id]);
                    }
                }
            },
            Err(e) => {
                rejected.push(Rejection { transaction: tx, error: e });
            },
        }
        assert(accounts_match(account_map@, replay(prefix).accounts));
        i = i + 1;
    }
    assert(transactions@.take(n as int) =~= transactions@);
    (account_map, rejected)
}

/// Replays `transactions` in order against an empty ledger and returns the final
/// account of every client with at least one accepted transaction.
pub fn process_transactions(transactions: Vec<Transaction>) -> (r: HashMap<u16, Account>)
    ensures
        accounts_match(r@, replay(transactions@).accounts),
{
    let (accounts, _rejected) = replay_transactions(&transactions);
    accounts
}

} // verus!
