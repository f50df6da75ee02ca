//! The serialized mutation stage: the one place transactions are applied,
//! in a single canonical order, and turned into entries of the log.

use vstd::prelude::*;
use crate::accountant::Accountant;
use crate::accountant::lemma_accepted_txs_snoc;
use crate::accountant::lemma_apply_txs_snoc;
use crate::accountant::spec_accepted_txs;
use crate::accountant::spec_apply_entries;
use crate::accountant::spec_apply_txs;
use crate::accountant::spec_lookup;
use crate::accountant::spec_register;
use crate::data::Entry;
use crate::data::Event;
use crate::data::Transaction;
use crate::data::entry_views;

verus! {

/// Transactions as events, in the same order.
pub open spec fn tx_events(txs: Seq<Transaction>) -> Seq<Event> {
    txs.map_values(|t: Transaction| Event::Transaction(t))
}

/// Owns the account state; every mutation of it goes through here, so the
/// stage imposes the canonical transaction order of the whole pipeline.
pub struct AccountingStage {
    pub accountant: Accountant,
}

impl AccountingStage {
    /// Wrap an account state.
    pub fn new(accountant: Accountant) -> (r: AccountingStage)
        ensures
            r.accountant == accountant,
    {
        AccountingStage { accountant }
    }

    /// Apply a batch of signature-verified transactions in order and fold
    /// the ones that applied cleanly into one entry of the log. The
    /// content hash `entry_id` comes from the hashing collaborator; the
    /// stage assigns it to the entry unchanged.
    pub fn process_transactions(&mut self, txs: &Vec<Transaction>, entry_id: u64, num: u64) -> (e: Entry)
        requires
            old(self).accountant.wf(),
        ensures
            final(self).accountant.wf(),
            final(self).accountant@ == spec_apply_txs(old(self).accountant@, txs@),
            e@.id == entry_id,
            e@.num == num,
            e@.events == tx_events(spec_accepted_txs(old(self).accountant@, txs@)),
    {
        let ghost orig = self.accountant@;
        let mut events: Vec<Event> = Vec::new();
        let mut i: usize = 0;
        while i < txs.len()
            invariant
                i <= txs.len(),
                self.accountant.wf(),
                self.accountant@ == spec_apply_txs(orig, txs@.take(i as int)),
                events@ == tx_events(spec_accepted_txs(orig, txs@.take(i as int))),
            decreases txs.len() - i,
        {
            let t = txs[i];
            proof {
                lemma_apply_txs_snoc(orig, txs@.take(i as int), t);
                lemma_accepted_txs_snoc(orig, txs@.take(i as int), t);
                assert(txs@.take(i + 1) =~= txs@.take(i as int).push(t));
            }
            let r = self.accountant.process_transaction(&t);
            if r.is_ok() {
                events.push(Event::Transaction(t));
                proof {
                    let acc = spec_accepted_txs(orig, txs@.take(i as int));
                    assert(tx_events(acc + seq![t]) =~= tx_events(acc).push(Event::Transaction(t)));
                }
            } else {
                proof {
                    let acc = spec_accepted_txs(orig, txs@.take(i as int));
                    assert(tx_events(acc + Seq::<Transaction>::empty()) =~= tx_events(acc));
                }
            }
            i = i + 1;
        }
        proof {
            assert(txs@.take(txs@.len() as int) =~= txs@);
        }
        Entry { id: entry_id, num, events }
    }

    /// Record an entry id as a valid reference for later transactions.
    pub fn register_entry_id(&mut self, id: u64)
        ensures
            final(self).accountant@.last_ids == spec_register(old(self).accountant@.last_ids, id),
            final(self).accountant@.balances == old(self).accountant@.balances,
            final(self).accountant@.sigs == old(self).accountant@.sigs,
            final(self).accountant.wf() == old(self).accountant.wf(),
    {
        self.accountant.register_entry_id(id);
    }

    /// Apply entries a leader already ordered.
    pub fn process_verified_entries(&mut self, entries: &Vec<Entry>)
        requires
            old(self).accountant.wf(),
        ensures
            final(self).accountant.wf(),
            final(self).accountant@ == spec_apply_entries(old(self).accountant@, entry_views(entries@)),
    {
        self.accountant.process_verified_entries(entries);
    }

    /// Balance of the given key, if an account exists for it.
    pub fn get_balance(&self, key: u64) -> (r: Option<u64>)
        ensures
            r == spec_lookup(self.accountant@.balances, key),
    {
        self.accountant.get_balance(key)
    }
}

} // verus!
