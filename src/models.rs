use vstd::prelude::*;

verus! {

/// The kind of a ledger event.
#[derive(Clone, Copy, Debug, PartialEq, Eq, Structural)]
pub enum TransactionType {
    Deposit,
    Withdrawal,
    Dispute,
    Resolve,
    Chargeback,
}

/// One ledger event. `amount` is counted in ten-thousandths and is present only
/// for deposits and withdrawals; dispute, resolve and chargeback records reuse
/// the `id` of the transaction they refer to.
#[derive(Clone, Copy, Debug, PartialEq, Eq, Structural)]
pub struct Transaction {
    pub transaction_type: TransactionType,
    pub client_id: u16,
    pub id: u32,
    pub amount: Option<i64>,
}

/// The amount carried by a transaction, an absent amount read as zero.
pub open spec fn amount_value(tx: Transaction) -> int {
    match tx.amount {
        Some(a) => a as int,
        None => 0,
    }
}

impl Transaction {
    /// The amount of this transaction, or zero when it carries none.
    pub fn amount(&self) -> (r: i64)
        ensures
            r as int == amount_value(*self),
    {
        match self.amount {
            Some(a) => a,
            None => 0,
        }
    }
}

/// The balances of one client. `total` is kept equal to `available + held`.
#[derive(Clone, Copy, Debug)]
pub struct Account {
    pub client_id: u16,
    pub available: i128,
    pub held: i128,
    pub total: i128,
    pub locked: bool,
}

/// The mathematical value of an account: its balances as unbounded integers.
pub struct AccountView {
    pub client_id: u16,
    pub available: int,
    pub held: int,
    pub total: int,
    pub locked: bool,
}

impl View for Account {
    type V = AccountView;

    open spec fn view(&self) -> AccountView {
        AccountView {
            client_id: self.client_id,
            available: self.available as int,
            held: self.held as int,
            total: self.total as int,
            locked: self.locked,
        }
    }
}

/// A freshly opened account: all balances zero and not locked.
pub open spec fn new_account(client_id: u16) -> AccountView {
    AccountView { client_id, available: 0, held: 0, total: 0, locked: false }
}

/// The account with `total` recomputed from `available` and `held`.
pub open spec fn with_total(a: AccountView) -> AccountView {
    AccountView { total: a.available + a.held, ..a }
}

impl Account {
    pub fn new(client_id: &u16) -> (r: Account)
        ensures
            r@ == new_account(*client_id),
    {
        Account { client_id: *client_id, available: 0, held: 0, total: 0, locked: false }
    }

    /// Recomputes `total` as `available + held`.
    pub fn sum_total(&mut self)
        requires
            i128::MIN <= old(self).available + old(self).held <= i128::MAX,
        ensures
            final(self)@ == with_total(old(self)@),
    {
        self.total = self.available + self.held;
    }
}

/// Why a transaction was rejected.
#[derive(Clone, Copy, Debug, PartialEq, Eq, Structural)]
pub enum ErrorKind {
    /// A withdrawal larger than the available funds.
    InsufficientFunds,
    /// A dispute, resolve or chargeback naming a transaction never recorded.
    UnknownTransaction,
    /// A resolve or chargeback naming a transaction not under dispute.
    NotDisputed,
}

/// A rejected transaction: its kind of failure and a message for the log.
#[derive(Debug)]
pub struct ProcessorError {
    pub kind: ErrorKind,
    pub message: String,
}

impl ProcessorError {
    pub fn new(kind: ErrorKind, message: String) -> (r: ProcessorError)
        ensures
            r.kind == kind,
            r.message@ == message@,
    {
        ProcessorError { kind, message }
    }
}

} // verus!
