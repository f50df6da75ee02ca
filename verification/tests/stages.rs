//! Stage-level behaviour: verifier pairing, request dispatch, packing,
//! encoding and the worker lifecycle decisions.

use tpu::accountant::Accountant;
use tpu::data::Entry;
use tpu::data::Event;
use tpu::data::Packet;
use tpu::data::Request;
use tpu::data::Response;
use tpu::data::Transaction;
use tpu::encode::encode_entry;
use tpu::encode::encode_u64;
use tpu::ledger::process_entry_list_into_blobs;
use tpu::ledger::reconstruct_entries_from_blobs;
use tpu::ledger::MAX_ENTRIES_PER_BLOB;
use tpu::lifecycle::sync_decision;
use tpu::lifecycle::worker_decision;
use tpu::lifecycle::Decision;
use tpu::lifecycle::RecvStatus;
use tpu::request::ThinClientService;
use tpu::sigverify::verify_batch;

const ALICE: u64 = 1;
const BOB: u64 = 2;

fn tx(sig: u64) -> Transaction {
    Transaction { from: ALICE, to: BOB, tokens: 10, last_id: 5, sig }
}

fn tx_packet(sig: u64, addr: u64) -> Packet {
    Packet { req: Some(Request::Transaction(tx(sig))), addr }
}

#[test]
fn verify_batch_pairs_in_order() {
    let batch = vec![
        vec![tx_packet(1, 7), tx_packet(2, 7)],
        vec![tx_packet(3, 8)],
    ];
    let flags = vec![vec![1u8, 0u8], vec![1u8]];
    let paired = verify_batch(batch.clone(), flags.clone()).expect("lengths match");
    assert_eq!(paired.len(), 2);
    assert_eq!(paired[0].0, batch[0]);
    assert_eq!(paired[0].1, flags[0]);
    assert_eq!(paired[1].0, batch[1]);
    assert_eq!(paired[1].1, flags[1]);
}

#[test]
fn verify_batch_rejects_short_flag_vectors() {
    let batch = vec![vec![tx_packet(1, 7), tx_packet(2, 7)]];
    assert!(verify_batch(batch.clone(), vec![vec![1u8]]).is_none());
    assert!(verify_batch(batch.clone(), vec![]).is_none());
    assert!(verify_batch(batch, vec![vec![1u8, 1u8], vec![1u8]]).is_none());
}

#[test]
fn request_stage_gates_transactions_on_sig_flag() {
    let mut service = ThinClientService::new();
    let accountant = Accountant::new(ALICE, 100);
    // four packets, the third carries a corrupted signature (flag 0)
    let packets = vec![tx_packet(11, 7), tx_packet(12, 7), tx_packet(13, 7), tx_packet(14, 7)];
    let flags = vec![1u8, 1u8, 0u8, 1u8];
    let out = service.process_request_packets(&accountant, &packets, &flags);
    let sigs: Vec<u64> = out.txs.iter().map(|t| t.sig).collect();
    assert_eq!(sigs, vec![11, 12, 14]);
    assert!(out.responses.is_empty());
}

#[test]
fn request_stage_answers_queries_and_drops_malformed() {
    let mut service = ThinClientService::new();
    let mut accountant = Accountant::new(ALICE, 100);
    accountant.register_entry_id(5);
    assert_eq!(accountant.process_transaction(&tx(50)), Ok(()));
    let packets = vec![
        Packet { req: Some(Request::GetBalance { key: ALICE }), addr: 31 },
        Packet { req: None, addr: 32 },
        Packet { req: Some(Request::GetBalance { key: 77 }), addr: 33 },
    ];
    let flags = vec![0u8, 1u8, 1u8];
    let out = service.process_request_packets(&accountant, &packets, &flags);
    assert!(out.txs.is_empty());
    assert_eq!(out.responses.len(), 2);
    assert_eq!(out.responses[0], (31, Response::Balance { key: ALICE, val: Some(90) }));
    assert_eq!(out.responses[1], (33, Response::Balance { key: 77, val: None }));
}

#[test]
fn subscribers_receive_entry_info() {
    let mut service = ThinClientService::new();
    let accountant = Accountant::new(ALICE, 100);
    let packets = vec![
        Packet { req: Some(Request::Subscribe { addr: 91 }), addr: 91 },
        Packet { req: Some(Request::Subscribe { addr: 92 }), addr: 92 },
    ];
    let flags = vec![1u8, 1u8];
    let out = service.process_request_packets(&accountant, &packets, &flags);
    assert!(out.txs.is_empty());
    assert!(out.responses.is_empty());
    let entry = Entry { id: 6, num: 2, events: vec![Event::Timestamp(1), Event::Timestamp(2)] };
    let notices = service.notify_entry_info_subscribers(&entry);
    assert_eq!(notices.len(), 2);
    assert_eq!(notices[0], (91, Response::EntryInfo { id: 6, num: 2, event_count: 2 }));
    assert_eq!(notices[1], (92, Response::EntryInfo { id: 6, num: 2, event_count: 2 }));
}

#[test]
fn pack_and_reconstruct_round_trip() {
    let entries: Vec<Entry> = (0..9)
        .map(|i| Entry { id: 100 + i, num: i, events: vec![Event::Timestamp(i)] })
        .collect();
    let blobs = process_entry_list_into_blobs(entries, 20, 3);
    assert_eq!(MAX_ENTRIES_PER_BLOB, 4);
    assert_eq!(blobs.len(), 3);
    assert_eq!(blobs[0].entries.len(), 4);
    assert_eq!(blobs[1].entries.len(), 4);
    assert_eq!(blobs[2].entries.len(), 1);
    let indices: Vec<u64> = blobs.iter().map(|b| b.index).collect();
    assert_eq!(indices, vec![20, 21, 22]);
    assert!(blobs.iter().all(|b| b.id == 3));
    let back = reconstruct_entries_from_blobs(&blobs);
    let ids: Vec<u64> = back.iter().map(|e| e.id).collect();
    assert_eq!(ids, (100..109).collect::<Vec<u64>>());
    let nums: Vec<u64> = back.iter().map(|e| e.num).collect();
    assert_eq!(nums, (0..9).collect::<Vec<u64>>());
}

#[test]
fn pack_of_nothing_is_nothing() {
    let blobs = process_entry_list_into_blobs(Vec::new(), 0, 3);
    assert!(blobs.is_empty());
}

#[test]
fn decimal_encoding_exact_values() {
    assert_eq!(encode_u64(0), b"0".to_vec());
    assert_eq!(encode_u64(7), b"7".to_vec());
    assert_eq!(encode_u64(10), b"10".to_vec());
    assert_eq!(encode_u64(501), b"501".to_vec());
    assert_eq!(encode_u64(u64::MAX), b"18446744073709551615".to_vec());
}

#[test]
fn entry_line_is_field_named_and_newline_terminated() {
    let entry = Entry {
        id: 12,
        num: 4,
        events: vec![
            Event::Transaction(Transaction { from: 1, to: 2, tokens: 501, last_id: 9, sig: 77 }),
            Event::Timestamp(55),
        ],
    };
    let line = String::from_utf8(encode_entry(&entry)).unwrap();
    assert_eq!(
        line,
        "entry id=12 num=4 txn from=1 to=2 tokens=501 last_id=9 sig=77 ts at=55\n"
    );
}

#[test]
fn workers_exit_only_on_failed_receive_with_stop_set() {
    assert_eq!(worker_decision(RecvStatus::Received, false), Decision::Continue);
    assert_eq!(worker_decision(RecvStatus::TimedOut, false), Decision::Continue);
    assert_eq!(worker_decision(RecvStatus::Disconnected, false), Decision::Continue);
    assert_eq!(worker_decision(RecvStatus::Received, true), Decision::Continue);
    assert_eq!(worker_decision(RecvStatus::TimedOut, true), Decision::Exit);
    assert_eq!(worker_decision(RecvStatus::Disconnected, true), Decision::Exit);
    assert_eq!(sync_decision(false), Decision::Continue);
    assert_eq!(sync_decision(true), Decision::Exit);
}
