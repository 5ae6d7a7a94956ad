use ledger_engine::account::Account;
use ledger_engine::amount::Amount;
use ledger_engine::engine::Engine;
use ledger_engine::engine::OutputRecord;
use ledger_engine::history::TransactionHistory;
use ledger_engine::tx::{Transaction, TransactionType};

// One unit in the fixed-point scale: 10^4 raw units per whole currency unit.
const ONE: i64 = 10000;

fn record(tx_type: TransactionType, client: u16, tx: u32, amount: &str) -> Transaction {
    Transaction {
        tx_type,
        client,
        tx,
        amount: Amount::parse(amount).unwrap(),
    }
}

#[test]
fn deposits_and_withdrawal_snapshot() {
    let records = vec![
        record(TransactionType::Deposit, 1, 1, "10.0"),
        record(TransactionType::Deposit, 2, 2, "20.0"),
        record(TransactionType::Withdrawal, 1, 3, "5.0"),
    ];
    let engine = Engine::run(&records);
    let out = engine.output_records();
    assert_eq!(out.len(), 2);
    assert_eq!(out[0].client, 1);
    assert_eq!(out[0].available.raw, 5 * ONE);
    assert_eq!(out[0].held.raw, 0);
    assert_eq!(out[0].total.raw, 5 * ONE);
    assert!(!out[0].locked);
    assert_eq!(out[1].client, 2);
    assert_eq!(out[1].available.raw, 20 * ONE);
    assert_eq!(out[1].held.raw, 0);
    assert_eq!(out[1].total.raw, 20 * ONE);
    assert!(!out[1].locked);
}

#[test]
fn dispute_then_chargeback_locks_account() {
    let records = vec![
        record(TransactionType::Deposit, 1, 1, "10.0"),
        record(TransactionType::Dispute, 1, 1, "0"),
        record(TransactionType::Chargeback, 1, 1, "0"),
    ];
    let engine = Engine::run(&records);
    let out = engine.output_records();
    assert_eq!(out.len(), 1);
    assert_eq!(out[0].client, 1);
    assert_eq!(out[0].available.raw, 0);
    assert_eq!(out[0].held.raw, 0);
    assert_eq!(out[0].total.raw, 0);
    assert!(out[0].locked);
}

#[test]
fn deposit_dispute_holds_funds_and_resolve_releases() {
    let mut engine = Engine::new();
    engine.apply(record(TransactionType::Deposit, 1, 1, "10.0"));
    engine.apply(record(TransactionType::Dispute, 1, 1, "0"));
    let a = engine.accounts[1];
    assert_eq!(a.held.raw, 10 * ONE);
    assert_eq!(a.total.raw, 10 * ONE);
    assert_eq!(a.available().raw, 0);
    engine.apply(record(TransactionType::Resolve, 1, 1, "0"));
    let a = engine.accounts[1];
    assert_eq!(a.held.raw, 0);
    assert_eq!(a.total.raw, 10 * ONE);
    assert!(!a.locked);
}

#[test]
fn withdrawal_boundary_and_rejection() {
    let mut engine = Engine::new();
    engine.apply(record(TransactionType::Deposit, 1, 1, "10.0"));
    // More than the available balance: silently ignored.
    engine.apply(record(TransactionType::Withdrawal, 1, 2, "10.0001"));
    assert_eq!(engine.accounts[1].total.raw, 10 * ONE);
    // Exactly the available balance: must succeed.
    engine.apply(record(TransactionType::Withdrawal, 1, 3, "10.0"));
    assert_eq!(engine.accounts[1].total.raw, 0);
    assert_eq!(engine.accounts[1].held.raw, 0);
}

#[test]
fn unknown_tx_is_a_no_op() {
    let mut engine = Engine::new();
    engine.apply(record(TransactionType::Deposit, 1, 1, "10.0"));
    let before: Account = engine.accounts[1];
    engine.apply(record(TransactionType::Dispute, 1, 99, "0"));
    assert!(engine.accounts[1] == before);
    engine.apply(record(TransactionType::Resolve, 1, 99, "0"));
    assert!(engine.accounts[1] == before);
    engine.apply(record(TransactionType::Chargeback, 1, 99, "0"));
    assert!(engine.accounts[1] == before);
    assert!(!engine.accounts[1].locked);
}

#[test]
fn resolve_twice_reduces_held_twice() {
    // The engine does not track open disputes: the second resolve applies
    // again and drives held negative.
    let mut engine = Engine::new();
    engine.apply(record(TransactionType::Deposit, 1, 1, "10.0"));
    engine.apply(record(TransactionType::Dispute, 1, 1, "0"));
    engine.apply(record(TransactionType::Resolve, 1, 1, "0"));
    assert_eq!(engine.accounts[1].held.raw, 0);
    engine.apply(record(TransactionType::Resolve, 1, 1, "0"));
    assert_eq!(engine.accounts[1].held.raw, -10 * ONE);
    assert_eq!(engine.accounts[1].total.raw, 10 * ONE);
}

#[test]
fn untouched_client_produces_no_row() {
    let records = vec![
        record(TransactionType::Deposit, 1, 1, "10.0"),
        record(TransactionType::Deposit, 2, 2, "20.0"),
    ];
    let engine = Engine::run(&records);
    let out = engine.output_records();
    assert!(out.iter().all(|r| r.client != 3));
    assert_eq!(out.len(), 2);
}

#[test]
fn empty_input_produces_no_rows() {
    let engine = Engine::run(&Vec::new());
    assert_eq!(engine.output_records().len(), 0);
}

#[test]
fn locked_account_still_accepts_transactions() {
    // Locked accounts deliberately keep accepting transactions.
    let mut engine = Engine::new();
    engine.apply(record(TransactionType::Deposit, 1, 1, "10.0"));
    engine.apply(record(TransactionType::Dispute, 1, 1, "0"));
    engine.apply(record(TransactionType::Chargeback, 1, 1, "0"));
    assert!(engine.accounts[1].locked);
    engine.apply(record(TransactionType::Deposit, 1, 2, "4.0"));
    assert_eq!(engine.accounts[1].total.raw, 4 * ONE);
    assert!(engine.accounts[1].locked);
}

#[test]
fn output_rows_come_in_ascending_client_order() {
    let records = vec![
        record(TransactionType::Deposit, 9, 1, "1.0"),
        record(TransactionType::Deposit, 3, 2, "1.0"),
        record(TransactionType::Deposit, 5, 3, "1.0"),
    ];
    let engine = Engine::run(&records);
    let out = engine.output_records();
    let clients: Vec<u16> = out.iter().map(|r| r.client).collect();
    assert_eq!(clients, vec![3, 5, 9]);
}

#[test]
fn history_records_and_looks_up_deposits() {
    let mut history = TransactionHistory::new();
    assert!(history.lookup(5).is_none());
    history.record_deposit(5, Amount::parse("2.5").unwrap());
    let found = history.lookup(5).unwrap();
    assert_eq!(found.raw, 25000);
    assert!(history.lookup(6).is_none());
}

#[test]
fn from_account_derives_available() {
    let account = Account {
        locked: false,
        total: Amount::from_raw(300),
        held: Amount::from_raw(100),
    };
    let row = OutputRecord::from_account(account, 7);
    assert_eq!(row.client, 7);
    assert_eq!(row.available.raw, 200);
    assert_eq!(row.held.raw, 100);
    assert_eq!(row.total.raw, 300);
    assert!(!row.locked);
}

#[test]
fn unused_accounts_are_detected() {
    let fresh = Account::new();
    assert!(fresh.unused());
    let touched = Account {
        locked: false,
        total: Amount::from_raw(1),
        held: Amount::from_raw(0),
    };
    assert!(!touched.unused());
    let locked_only = Account {
        locked: true,
        total: Amount::from_raw(0),
        held: Amount::from_raw(0),
    };
    assert!(!locked_only.unused());
}
