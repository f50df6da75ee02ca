//! Leader-side behaviour: transactions through the accounting stage into
//! entries, log records and broadcast blobs.

use tpu::accountant::Accountant;
use tpu::accounting_stage::AccountingStage;
use tpu::data::Event;
use tpu::data::Transaction;
use tpu::data::TransferError;
use tpu::tpu::Tpu;

const ALICE: u64 = 1;
const BOB: u64 = 2;

fn transfer(from: u64, to: u64, tokens: u64, last_id: u64, sig: u64) -> Transaction {
    Transaction { from, to, tokens, last_id, sig }
}

#[test]
fn leader_round_trip_one_transfer() {
    let accountant = Accountant::new(ALICE, 10_000);
    let mut stage = AccountingStage::new(accountant);
    stage.register_entry_id(100);
    let txs = vec![transfer(ALICE, BOB, 501, 100, 7)];
    let entry = stage.process_transactions(&txs, 5, 0);
    assert_eq!(stage.get_balance(ALICE), Some(9_499));
    assert_eq!(stage.get_balance(BOB), Some(501));
    assert_eq!(entry.id, 5);
    assert_eq!(entry.num, 0);
    assert_eq!(entry.events.len(), 1);

    let mut unit = Tpu::new(stage);
    let out = unit.run_sync(vec![entry], 0, 99);
    assert_eq!(out.blobs.len(), 1);
    assert_eq!(out.blobs[0].index, 0);
    assert_eq!(out.blobs[0].id, 99);
    assert_eq!(out.records.len(), 1);
    let line = String::from_utf8(out.records[0].clone()).unwrap();
    assert_eq!(line, "entry id=5 num=0 txn from=1 to=2 tokens=501 last_id=100 sig=7\n");
    assert_eq!(line.matches("txn").count(), 1);
}

#[test]
fn double_spend_second_transfer_rejected() {
    let accountant = Accountant::new(ALICE, 10);
    let mut stage = AccountingStage::new(accountant);
    stage.register_entry_id(40);
    let txs = vec![
        transfer(ALICE, BOB, 8, 40, 11),
        transfer(ALICE, BOB, 8, 40, 11),
    ];
    let entry = stage.process_transactions(&txs, 1, 0);
    assert_eq!(entry.events.len(), 1);
    assert_eq!(stage.get_balance(ALICE), Some(2));
    assert_eq!(stage.get_balance(BOB), Some(8));
}

#[test]
fn unknown_last_id_rejected() {
    let mut accountant = Accountant::new(ALICE, 100);
    let r = accountant.process_transaction(&transfer(ALICE, BOB, 10, 77, 1));
    assert_eq!(r, Err(TransferError::UnknownLastId));
    assert_eq!(accountant.get_balance(ALICE), Some(100));
    assert_eq!(accountant.get_balance(BOB), None);
}

#[test]
fn duplicate_signature_rejected() {
    let mut accountant = Accountant::new(ALICE, 100);
    accountant.register_entry_id(3);
    assert_eq!(accountant.process_transaction(&transfer(ALICE, BOB, 10, 3, 9)), Ok(()));
    assert_eq!(
        accountant.process_transaction(&transfer(ALICE, BOB, 10, 3, 9)),
        Err(TransferError::DuplicateSignature)
    );
    assert_eq!(accountant.get_balance(ALICE), Some(90));
    assert_eq!(accountant.get_balance(BOB), Some(10));
}

#[test]
fn insufficient_funds_rejected() {
    let mut accountant = Accountant::new(ALICE, 5);
    accountant.register_entry_id(3);
    assert_eq!(
        accountant.process_transaction(&transfer(ALICE, BOB, 6, 3, 1)),
        Err(TransferError::InsufficientFunds)
    );
    assert_eq!(
        accountant.process_transaction(&transfer(BOB, ALICE, 1, 3, 2)),
        Err(TransferError::InsufficientFunds)
    );
}

#[test]
fn credit_up_to_max_balance_succeeds() {
    // Conservation keeps the total at the mint's supply, so with a supply
    // of u64::MAX a receiving balance can reach the limit but never pass
    // it: the overflow guard never fires from a fresh state.
    let mut accountant = Accountant::new(ALICE, u64::MAX);
    accountant.register_entry_id(3);
    assert_eq!(accountant.process_transaction(&transfer(ALICE, BOB, 5, 3, 1)), Ok(()));
    assert_eq!(accountant.process_transaction(&transfer(ALICE, BOB, u64::MAX - 5, 3, 2)), Ok(()));
    assert_eq!(accountant.get_balance(BOB), Some(u64::MAX));
    assert_eq!(accountant.get_balance(ALICE), Some(0));
    assert_eq!(
        accountant.process_transaction(&transfer(ALICE, BOB, 1, 3, 4)),
        Err(TransferError::InsufficientFunds)
    );
}

#[test]
fn conservation_over_many_transfers() {
    let accountant = Accountant::new(ALICE, 10_000);
    let mut stage = AccountingStage::new(accountant);
    stage.register_entry_id(1);
    let txs = vec![
        transfer(ALICE, BOB, 700, 1, 10),
        transfer(ALICE, 3, 300, 1, 11),
        transfer(ALICE, BOB, 50_000, 1, 12), // rejected: insufficient
        transfer(BOB, 3, 200, 1, 13),
        transfer(3, ALICE, 400, 1, 14),
        transfer(BOB, ALICE, 999, 99, 15), // rejected: unknown last id
    ];
    let entry = stage.process_transactions(&txs, 2, 0);
    assert_eq!(entry.events.len(), 4);
    let sum = stage.get_balance(ALICE).unwrap_or(0)
        + stage.get_balance(BOB).unwrap_or(0)
        + stage.get_balance(3).unwrap_or(0);
    assert_eq!(sum, 10_000);
}

#[test]
fn registration_is_idempotent() {
    let mut accountant = Accountant::new(ALICE, 100);
    accountant.register_entry_id(8);
    accountant.register_entry_id(8);
    assert_eq!(accountant.process_transaction(&transfer(ALICE, BOB, 10, 8, 1)), Ok(()));
    assert_eq!(accountant.get_balance(BOB), Some(10));
}

#[test]
fn self_transfer_conserves_and_records_signature() {
    let mut accountant = Accountant::new(ALICE, 100);
    accountant.register_entry_id(8);
    assert_eq!(accountant.process_transaction(&transfer(ALICE, ALICE, 30, 8, 1)), Ok(()));
    assert_eq!(accountant.get_balance(ALICE), Some(100));
    assert_eq!(
        accountant.process_transaction(&transfer(ALICE, ALICE, 30, 8, 1)),
        Err(TransferError::DuplicateSignature)
    );
}

#[test]
fn sync_writes_entries_in_emitted_order() {
    let accountant = Accountant::new(ALICE, 1_000);
    let mut stage = AccountingStage::new(accountant);
    stage.register_entry_id(1);
    let e0 = stage.process_transactions(&vec![transfer(ALICE, BOB, 10, 1, 21)], 50, 0);
    let e1 = stage.process_transactions(&vec![transfer(ALICE, BOB, 20, 1, 22)], 51, 1);
    let e2 = stage.process_transactions(&vec![], 52, 2);
    let mut unit = Tpu::new(stage);
    let out = unit.run_sync(vec![e0, e1, e2], 7, 4);
    assert_eq!(out.records.len(), 3);
    // entry order survives into the log and into the packed blobs
    let ids: Vec<u64> = out
        .blobs
        .iter()
        .flat_map(|b| b.entries.iter().map(|e| e.id))
        .collect();
    assert_eq!(ids, vec![50, 51, 52]);
    assert_eq!(out.blobs[0].index, 7);
    let l0 = String::from_utf8(out.records[0].clone()).unwrap();
    let l2 = String::from_utf8(out.records[2].clone()).unwrap();
    assert!(l0.starts_with("entry id=50 num=0"));
    assert_eq!(l2, "entry id=52 num=2\n");
}

#[test]
fn timestamp_event_is_encoded_and_ignored_by_balances() {
    let accountant = Accountant::new(ALICE, 100);
    let mut stage = AccountingStage::new(accountant);
    let entry = tpu::data::Entry {
        id: 9,
        num: 3,
        events: vec![Event::Timestamp(1234)],
    };
    stage.process_verified_entries(&vec![entry]);
    assert_eq!(stage.get_balance(ALICE), Some(100));
    let encoded = tpu::encode::encode_entry(&tpu::data::Entry {
        id: 9,
        num: 3,
        events: vec![Event::Timestamp(1234)],
    });
    assert_eq!(String::from_utf8(encoded).unwrap(), "entry id=9 num=3 ts at=1234\n");
}
