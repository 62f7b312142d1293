use contabile::parse::{parse_amount, parse_transaction, parse_type, ParseError};
use contabile::TransactionType::{Chargeback, Deposit, Dispute, Resolve, Withdrawal};
use contabile::{
    apply_transaction, process_transactions, replay_transactions, Account, ErrorKind,
    ProcessorError, Transaction, TransactionType,
};
use std::collections::HashMap;

fn tx(kind: TransactionType, client_id: u16, id: u32, amount: Option<i64>) -> Transaction {
    Transaction { transaction_type: kind, client_id, id, amount }
}

fn rows(transactions: Vec<Transaction>) -> Vec<String> {
    let accounts = process_transactions(transactions);
    let mut out: Vec<String> = accounts.values().map(|a| a.to_csv_row()).collect();
    out.sort();
    out
}

#[test]
fn end_to_end_deposit_then_withdrawal() {
    let out = rows(vec![
        tx(Deposit, 1, 1, parse_amount(b"3.0123")),
        tx(Withdrawal, 1, 2, parse_amount(b"1.8761")),
    ]);
    assert_eq!(out, vec!["1,1.1362,0.0000,1.1362,false".to_string()]);
}

#[test]
fn end_to_end_dispute_then_chargeback() {
    let out = rows(vec![
        tx(Deposit, 1, 1, Some(55000)),
        tx(Deposit, 1, 2, Some(25000)),
        tx(Dispute, 1, 2, None),
        tx(Chargeback, 1, 2, None),
    ]);
    assert_eq!(out, vec!["1,5.5000,0.0000,5.5000,true".to_string()]);
}

#[test]
fn end_to_end_lone_withdrawal_emits_no_row() {
    let out = rows(vec![tx(Withdrawal, 1, 1, Some(30000))]);
    assert!(out.is_empty());
}

#[test]
fn funds_movements_only_sum_up() {
    let accounts = process_transactions(vec![
        tx(Deposit, 1, 1, Some(10000)),
        tx(Deposit, 2, 2, Some(5000)),
        tx(Withdrawal, 1, 3, Some(4000)),
        tx(Withdrawal, 1, 4, Some(7000)),
        tx(Deposit, 1, 5, Some(2500)),
        tx(Withdrawal, 2, 6, Some(5000)),
    ]);
    let a = accounts.get(&1).unwrap();
    assert_eq!(a.available, 10000 - 4000 + 2500);
    assert_eq!(a.held, 0);
    assert_eq!(a.total, a.available);
    let b = accounts.get(&2).unwrap();
    assert_eq!((b.available, b.held, b.total), (0, 0, 0));
}

#[test]
fn dispute_resolve_restores_and_second_resolve_fails() {
    let (accounts, rejected) = replay_transactions(&vec![
        tx(Deposit, 1, 1, Some(12345)),
        tx(Dispute, 1, 1, None),
        tx(Resolve, 1, 1, None),
        tx(Resolve, 1, 1, None),
    ]);
    let a = accounts.get(&1).unwrap();
    assert_eq!((a.available, a.held, a.total, a.locked), (12345, 0, 12345, false));
    assert_eq!(rejected.len(), 1);
    assert_eq!(rejected[0].error.kind, ErrorKind::NotDisputed);
    assert_eq!(rejected[0].transaction, tx(Resolve, 1, 1, None));
}

#[test]
fn dispute_chargeback_locks_and_second_chargeback_fails() {
    let (accounts, rejected) = replay_transactions(&vec![
        tx(Deposit, 3, 1, Some(40000)),
        tx(Deposit, 3, 2, Some(10000)),
        tx(Dispute, 3, 2, None),
        tx(Chargeback, 3, 2, None),
        tx(Chargeback, 3, 2, None),
        tx(Deposit, 3, 3, Some(1)),
    ]);
    let a = accounts.get(&3).unwrap();
    assert!(a.locked);
    assert_eq!((a.available, a.held, a.total), (40001, 0, 40001));
    assert_eq!(rejected.len(), 1);
    assert_eq!(rejected[0].error.kind, ErrorKind::NotDisputed);
}

#[test]
fn overdraft_leaves_account_identical() {
    let mut acct = Account::new(&4);
    acct.available = 500;
    acct.held = 200;
    acct.sum_total();
    let mut history: HashMap<u32, Transaction> = HashMap::new();
    let mut disputes: HashMap<u32, Transaction> = HashMap::new();
    let r = apply_transaction(&mut acct, &tx(Withdrawal, 4, 9, Some(501)), &mut history, &mut disputes);
    assert_eq!(r.unwrap_err().kind, ErrorKind::InsufficientFunds);
    assert_eq!((acct.available, acct.held, acct.total, acct.locked), (500, 200, 700, false));
    assert!(history.is_empty());
    assert!(disputes.is_empty());
}

#[test]
fn unknown_references_fail_and_change_nothing() {
    let (accounts, rejected) = replay_transactions(&vec![
        tx(Deposit, 1, 1, Some(100)),
        tx(Dispute, 1, 7, None),
        tx(Resolve, 1, 8, None),
        tx(Chargeback, 1, 9, None),
        tx(Dispute, 2, 7, None),
    ]);
    assert_eq!(accounts.len(), 1);
    let a = accounts.get(&1).unwrap();
    assert_eq!((a.available, a.held, a.total, a.locked), (100, 0, 100, false));
    assert_eq!(rejected.len(), 4);
    for r in &rejected {
        assert_eq!(r.error.kind, ErrorKind::UnknownTransaction);
    }
}

#[test]
fn total_is_available_plus_held_throughout() {
    let log = vec![
        tx(Deposit, 1, 1, Some(900)),
        tx(Deposit, 2, 2, Some(300)),
        tx(Dispute, 1, 1, None),
        tx(Withdrawal, 1, 3, Some(50)),
        tx(Dispute, 2, 2, None),
        tx(Resolve, 2, 2, None),
        tx(Chargeback, 1, 1, None),
        tx(Deposit, 1, 4, Some(75)),
    ];
    for n in 0..=log.len() {
        let accounts = process_transactions(log[..n].to_vec());
        for a in accounts.values() {
            assert_eq!(a.total, a.available + a.held);
        }
    }
}

#[test]
fn dispute_can_drive_available_negative() {
    let accounts = process_transactions(vec![
        tx(Deposit, 1, 1, Some(10000)),
        tx(Withdrawal, 1, 2, Some(8000)),
        tx(Dispute, 1, 1, None),
    ]);
    let a = accounts.get(&1).unwrap();
    assert_eq!((a.available, a.held, a.total), (-8000, 10000, 2000));
    assert_eq!(a.to_csv_row(), "1,-0.8000,1.0000,0.2000,false");
}

#[test]
fn history_is_keyed_by_id_across_clients() {
    let accounts = process_transactions(vec![
        tx(Deposit, 1, 5, Some(700)),
        tx(Deposit, 2, 5, Some(300)),
        tx(Dispute, 2, 5, None),
    ]);
    let b = accounts.get(&2).unwrap();
    assert_eq!((b.available, b.held, b.total), (-400, 700, 300));
}

#[test]
fn duplicate_deposit_is_credited_but_history_keeps_first() {
    let accounts = process_transactions(vec![
        tx(Deposit, 1, 1, Some(100)),
        tx(Deposit, 1, 1, Some(50)),
        tx(Dispute, 1, 1, None),
    ]);
    let a = accounts.get(&1).unwrap();
    assert_eq!((a.available, a.held), (50, 100));
}

#[test]
fn account_row_rendering() {
    let mut a = Account::new(&65535);
    a.available = 137530;
    a.held = 109871;
    a.sum_total();
    assert_eq!(a.to_csv_row(), "65535,13.7530,10.9871,24.7401,false");
    let z = Account::new(&0);
    assert_eq!(z.to_csv_row(), "0,0.0000,0.0000,0.0000,false");
    let mut n = Account::new(&2);
    n.available = -5;
    n.locked = true;
    n.sum_total();
    assert_eq!(n.to_csv_row(), "2,-0.0005,0.0000,-0.0005,true");
}

#[test]
fn processor_error_carries_kind_and_message() {
    let e = ProcessorError::new(ErrorKind::NotDisputed, "not under dispute".to_string());
    assert_eq!(e.kind, ErrorKind::NotDisputed);
    assert_eq!(e.message, "not under dispute");
}

#[test]
fn amount_parsing() {
    assert_eq!(parse_amount(b"3.0123"), Some(30123));
    assert_eq!(parse_amount(b"5.5"), Some(55000));
    assert_eq!(parse_amount(b"7"), Some(70000));
    assert_eq!(parse_amount(b"-1.25"), Some(-12500));
    assert_eq!(parse_amount(b"0.0001"), Some(1));
    assert_eq!(parse_amount(b"922337203685477.5807"), Some(i64::MAX));
    assert_eq!(parse_amount(b"922337203685477.5808"), None);
    assert_eq!(parse_amount(b"1.23456"), None);
    assert_eq!(parse_amount(b"1."), None);
    assert_eq!(parse_amount(b".5"), None);
    assert_eq!(parse_amount(b"-"), None);
    assert_eq!(parse_amount(b"1.2x"), None);
    assert_eq!(parse_amount(b"abc"), None);
    assert_eq!(parse_amount(b""), None);
}

#[test]
fn type_parsing() {
    assert_eq!(parse_type(b"deposit"), Some(Deposit));
    assert_eq!(parse_type(b"withdrawal"), Some(Withdrawal));
    assert_eq!(parse_type(b"dispute"), Some(Dispute));
    assert_eq!(parse_type(b"resolve"), Some(Resolve));
    assert_eq!(parse_type(b"chargeback"), Some(Chargeback));
    assert_eq!(parse_type(b"refund"), None);
    assert_eq!(parse_type(b""), None);
}

#[test]
fn record_parsing() {
    assert_eq!(
        parse_transaction(b"deposit", b"1", b"1", b"1.5"),
        Ok(tx(Deposit, 1, 1, Some(15000)))
    );
    assert_eq!(
        parse_transaction(b"dispute", b"65535", b"4294967295", b""),
        Ok(tx(Dispute, 65535, 4294967295, None))
    );
    assert_eq!(parse_transaction(b"gift", b"1", b"1", b"1"), Err(ParseError::UnknownType));
    assert_eq!(parse_transaction(b"deposit", b"65536", b"1", b"1"), Err(ParseError::BadClient));
    assert_eq!(parse_transaction(b"deposit", b"", b"1", b"1"), Err(ParseError::BadClient));
    assert_eq!(parse_transaction(b"deposit", b"1", b"4294967296", b"1"), Err(ParseError::BadTx));
    assert_eq!(parse_transaction(b"deposit", b"1", b"x", b"1"), Err(ParseError::BadTx));
    assert_eq!(parse_transaction(b"deposit", b"1", b"2", b"1,0"), Err(ParseError::BadAmount));
}
