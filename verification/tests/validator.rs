//! Validator-side behaviour: leader-built blobs through the window, into
//! the account state, with retransmission and recycling accounted for.

use tpu::accountant::Accountant;
use tpu::accounting_stage::AccountingStage;
use tpu::data::Blob;
use tpu::data::Entry;
use tpu::data::Event;
use tpu::data::Transaction;
use tpu::recycler::BlobRecycler;
use tpu::tpu::Tpu;
use tpu::window::Window;
use tpu::window::WINDOW_SIZE;

const ALICE: u64 = 1;
const LEADER: u64 = 42;

fn leader_blob(recycler: &mut BlobRecycler, i: u64, bob: u64, cur_hash: u64) -> Blob {
    let mut b = recycler.allocate();
    b.index = i;
    b.id = LEADER;
    b.entries = vec![
        Entry { id: cur_hash, num: i, events: vec![Event::Timestamp(1_000 + i)] },
        Entry {
            id: cur_hash + 1,
            num: i + 10,
            events: vec![Event::Transaction(Transaction {
                from: ALICE,
                to: bob,
                tokens: 501,
                last_id: cur_hash,
                sig: 9_000 + i,
            })],
        },
    ];
    b
}

/// Ten blobs of one timestamp and one transfer each, sent in reverse
/// order, still apply in index order and are all retransmitted.
#[test]
fn test_replicate() {
    let starting_balance: u64 = 10_000;
    let bob: u64 = 2;
    let num_blobs: u64 = 10;
    let transfer_amount: u64 = 501;

    let accountant = Accountant::new(ALICE, starting_balance);
    let mut stage = AccountingStage::new(accountant);
    let mut recycler = BlobRecycler::default();
    let mut blobs = Vec::new();
    for i in 0..num_blobs {
        // each transfer cites the timestamp entry's id of its own blob
        stage.register_entry_id(100 + i);
        blobs.push(leader_blob(&mut recycler, i, bob, 100 + i));
    }
    blobs.reverse();

    let mut unit = Tpu::new(stage);
    let mut window = Window::new();
    let mut retransmitted = 0;
    let mut alice_ref_balance = starting_balance;
    for b in blobs {
        let out = window.insert(b);
        assert!(out.rejected.is_none());
        if out.retransmit.is_some() {
            retransmitted += 1;
        }
        if !out.delivered.is_empty() {
            unit.replicate_state(out.delivered, &mut recycler);
        }
    }
    alice_ref_balance -= num_blobs * transfer_amount;

    assert_eq!(retransmitted, num_blobs);
    assert_eq!(unit.accounting_stage.get_balance(ALICE), Some(alice_ref_balance));
    assert_eq!(
        unit.accounting_stage.get_balance(bob),
        Some(starting_balance - alice_ref_balance)
    );
    // every allocated blob came back to the pool
    assert_eq!(recycler.outstanding_count(), 0);
}

#[test]
fn window_delivers_in_strictly_increasing_order() {
    let mut recycler = BlobRecycler::default();
    let mut window = Window::new();
    let order = [3u64, 0, 2, 5, 1, 4];
    let mut delivered: Vec<u64> = Vec::new();
    for i in order {
        let mut b = recycler.allocate();
        b.index = i;
        let out = window.insert(b);
        assert!(out.rejected.is_none());
        for d in &out.delivered {
            delivered.push(d.index);
        }
    }
    assert_eq!(delivered, vec![0, 1, 2, 3, 4, 5]);
}

#[test]
fn window_rejects_duplicates_and_far_indices() {
    let mut recycler = BlobRecycler::default();
    let mut window = Window::new();
    let mut b = recycler.allocate();
    b.index = 1;
    assert!(window.insert(b).rejected.is_none());

    // same index again: back for recycling
    let mut dup = recycler.allocate();
    dup.index = 1;
    let out = window.insert(dup);
    let rejected = out.rejected.expect("duplicate must come back");
    assert_eq!(rejected.index, 1);
    recycler.recycle(rejected);

    // already-delivered index: deliver 0 and 1 first
    let mut zero = recycler.allocate();
    zero.index = 0;
    let out = window.insert(zero);
    assert_eq!(out.delivered.len(), 2);
    let mut old = recycler.allocate();
    old.index = 0;
    let out = window.insert(old);
    assert!(out.rejected.is_some());
    recycler.recycle(out.rejected.unwrap());

    // outside the window
    let mut far = recycler.allocate();
    far.index = 2 + WINDOW_SIZE;
    let out = window.insert(far);
    assert!(out.rejected.is_some());
    assert!(out.retransmit.is_none());
    recycler.recycle(out.rejected.unwrap());
}

#[test]
fn window_stalls_on_gap_until_filled() {
    let mut recycler = BlobRecycler::default();
    let mut window = Window::new();
    for i in [1u64, 2, 3] {
        let mut b = recycler.allocate();
        b.index = i;
        let out = window.insert(b);
        assert!(out.rejected.is_none());
        assert!(out.delivered.is_empty());
    }
    let mut b = recycler.allocate();
    b.index = 0;
    let out = window.insert(b);
    let ids: Vec<u64> = out.delivered.iter().map(|d| d.index).collect();
    assert_eq!(ids, vec![0, 1, 2, 3]);
}

#[test]
fn sync_no_broadcast_registers_without_output() {
    let accountant = Accountant::new(ALICE, 50);
    let stage = AccountingStage::new(accountant);
    let mut unit = Tpu::new(stage);
    let entries = vec![Entry { id: 4, num: 0, events: vec![] }];
    let notices = unit.run_sync_no_broadcast(&entries);
    assert_eq!(notices.len(), 1);
    assert_eq!(notices[0].len(), 0);
    // the registered id is now a valid reference
    let r = unit.accounting_stage.accountant.process_transaction(&Transaction {
        from: ALICE,
        to: 9,
        tokens: 5,
        last_id: 4,
        sig: 77,
    });
    assert_eq!(r, Ok(()));
}
