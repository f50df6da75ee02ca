//! The transaction processing unit's serialized core: draining the
//! accounting stage's entry output into the log, the subscribers and the
//! broadcast blobs on the leader side, and applying windowed blobs on
//! the validator side.

use vstd::prelude::*;
use crate::accountant::spec_apply_entries;
use crate::accountant::spec_register;
use crate::accounting_stage::AccountingStage;
use crate::data::Blob;
use crate::data::Entry;
use crate::data::EntryView;
use crate::data::Response;
use crate::data::blob_views;
use crate::data::concat_blob_entries;
use crate::data::entry_views;
use crate::encode::encode_entry;
use crate::encode::entry_record;
use crate::ledger::process_entry_list_into_blobs;
use crate::ledger::reconstruct_entries_from_blobs;
use crate::recycler::BlobRecycler;
use crate::request::ProcessOutput;
use crate::request::ThinClientService;
use crate::request::entry_notices;
use crate::data::Packet;

verus! {

/// The recent-id set after registering each entry's id, first to last.
pub open spec fn register_ids(ids: Seq<u64>, es: Seq<EntryView>) -> Seq<u64>
    decreases es.len(),
{
    if es.len() == 0 {
        ids
    } else {
        register_ids(spec_register(ids, es[0].id), es.drop_first())
    }
}

/// Registering one appended entry's id comes last.
pub proof fn lemma_register_ids_snoc(ids: Seq<u64>, es: Seq<EntryView>, e: EntryView)
    ensures
        register_ids(ids, es.push(e)) == spec_register(register_ids(ids, es), e.id),
    decreases es.len(),
{
    reveal_with_fuel(register_ids, 2);
    if es.len() == 0 {
        assert(es.push(e)[0] == e);
        assert(es.push(e).drop_first() =~= Seq::<EntryView>::empty());
    } else {
        assert(es.push(e)[0] == es[0]);
        assert(es.push(e).drop_first() =~= es.drop_first().push(e));
        lemma_register_ids_snoc(spec_register(ids, es[0].id), es.drop_first(), e);
    }
}

/// What one leader-side sync pass produced.
pub struct SyncOutput {
    /// One log line per drained entry, in entry order.
    pub records: Vec<Vec<u8>>,
    /// One batch of entry-info notices per drained entry.
    pub notices: Vec<Vec<(u64, Response)>>,
    /// The drained entries packed into indexed blobs for broadcast.
    pub blobs: Vec<Blob>,
}

/// The pipeline's serialized heart: the accounting stage it drains and
/// mutates, and the client service that answers queries and keeps the
/// subscriber list.
pub struct Tpu {
    pub accounting_stage: AccountingStage,
    pub thin_client_service: ThinClientService,
}

impl Tpu {
    /// Wrap an accounting stage together with a fresh client service.
    pub fn new(accounting_stage: AccountingStage) -> (r: Tpu)
        ensures
            r.accounting_stage == accounting_stage,
            r.thin_client_service.subscribers() == Seq::<u64>::empty(),
    {
        Tpu { accounting_stage, thin_client_service: ThinClientService::new() }
    }

    /// Write one drained entry: register its id with the account state,
    /// produce its canonical log line, and build the notices for every
    /// subscribed peer.
    pub fn write_entry(&mut self, entry: &Entry) -> (out: (Vec<u8>, Vec<(u64, Response)>))
        ensures
            final(self).accounting_stage.accountant@.last_ids
                == spec_register(old(self).accounting_stage.accountant@.last_ids, entry@.id),
            final(self).accounting_stage.accountant@.balances
                == old(self).accounting_stage.accountant@.balances,
            final(self).accounting_stage.accountant@.sigs
                == old(self).accounting_stage.accountant@.sigs,
            final(self).thin_client_service == old(self).thin_client_service,
            out.0@ == entry_record(entry@),
            out.1@ == entry_notices(old(self).thin_client_service.subscribers(),
                entry@.id, entry@.num, entry@.events.len() as u64),
    {
        self.accounting_stage.register_entry_id(entry.id);
        let record = encode_entry(entry);
        let notices = self.thin_client_service.notify_entry_info_subscribers(entry);
        (record, notices)
    }

    /// Write a whole drained batch in order: ids registered first to
    /// last, one log line and one notice batch per entry, balances and
    /// applied signatures untouched.
    pub fn write_entries(&mut self, entries: &Vec<Entry>) -> (out: (Vec<Vec<u8>>, Vec<Vec<(u64, Response)>>))
        ensures
            final(self).accounting_stage.accountant@.last_ids
                == register_ids(old(self).accounting_stage.accountant@.last_ids, entry_views(entries@)),
            final(self).accounting_stage.accountant@.balances
                == old(self).accounting_stage.accountant@.balances,
            final(self).accounting_stage.accountant@.sigs
                == old(self).accounting_stage.accountant@.sigs,
            final(self).thin_client_service == old(self).thin_client_service,
            out.0@.len() == entries@.len(),
            forall|i: int| 0 <= i < entries@.len()
                ==> (#[trigger] out.0@[i])@ == entry_record(entries@[i]@),
            out.1@.len() == entries@.len(),
            forall|i: int| 0 <= i < entries@.len()
                ==> (#[trigger] out.1@[i])@ == entry_notices(old(self).thin_client_service.subscribers(),
                    entries@[i]@.id, entries@[i]@.num, entries@[i]@.events.len() as u64),
    {
        let ghost orig_ids = self.accounting_stage.accountant@.last_ids;
        let ghost evs = entry_views(entries@);
        let mut records: Vec<Vec<u8>> = Vec::new();
        let mut notices: Vec<Vec<(u64, Response)>> = Vec::new();
        let mut i: usize = 0;
        proof {
            assert(evs.take(0) =~= Seq::<EntryView>::empty());
        }
        while i < entries.len()
            invariant
                i <= entries@.len(),
                evs == entry_views(entries@),
                self.accounting_stage.accountant@.last_ids == register_ids(orig_ids, evs.take(i as int)),
                self.accounting_stage.accountant@.balances == old(self).accounting_stage.accountant@.balances,
                self.accounting_stage.accountant@.sigs == old(self).accounting_stage.accountant@.sigs,
                self.thin_client_service == old(self).thin_client_service,
                records@.len() == i,
                forall|j: int| 0 <= j < i ==> (#[trigger] records@[j])@ == entry_record(entries@[j]@),
                notices@.len() == i,
                forall|j: int| 0 <= j < i
                    ==> (#[trigger] notices@[j])@ == entry_notices(old(self).thin_client_service.subscribers(),
                        entries@[j]@.id, entries@[j]@.num, entries@[j]@.events.len() as u64),
            decreases entries@.len() - i,
        {
            proof {
                lemma_register_ids_snoc(orig_ids, evs.take(i as int), evs[i as int]);
                assert(evs.take(i + 1) =~= evs.take(i as int).push(evs[i as int]));
                assert(evs[i as int] == entries@[i as int]@);
            }
            let (record, notice) = self.write_entry(&entries[i]);
            records.push(record);
            notices.push(notice);
            i = i + 1;
        }
        proof {
            assert(evs.take(evs.len() as int) =~= evs);
        }
        (records, notices)
    }

    /// One leader-side sync pass over a drained batch: write every entry,
    /// then pack the batch into blobs indexed from `start_index` for the
    /// broadcaster. The blobs carry exactly the drained entries, in
    /// order.
    pub fn run_sync(&mut self, entries: Vec<Entry>, start_index: u64, node_id: u64) -> (out: SyncOutput)
        requires
            start_index + entries@.len() <= u64::MAX,
        ensures
            final(self).accounting_stage.accountant@.last_ids
                == register_ids(old(self).accounting_stage.accountant@.last_ids, entry_views(entries@)),
            final(self).accounting_stage.accountant@.balances
                == old(self).accounting_stage.accountant@.balances,
            final(self).accounting_stage.accountant@.sigs
                == old(self).accounting_stage.accountant@.sigs,
            final(self).thin_client_service == old(self).thin_client_service,
            out.records@.len() == entries@.len(),
            forall|i: int| 0 <= i < entries@.len()
                ==> (#[trigger] out.records@[i])@ == entry_record(entries@[i]@),
            out.notices@.len() == entries@.len(),
            forall|i: int| 0 <= i < entries@.len()
                ==> (#[trigger] out.notices@[i])@ == entry_notices(old(self).thin_client_service.subscribers(),
                    entries@[i]@.id, entries@[i]@.num, entries@[i]@.events.len() as u64),
            concat_blob_entries(blob_views(out.blobs@)) == entry_views(entries@),
            forall|k: int| 0 <= k < out.blobs@.len()
                ==> (#[trigger] out.blobs@[k]).index == start_index + k,
            forall|k: int| 0 <= k < out.blobs@.len() ==> (#[trigger] out.blobs@[k]).id == node_id,
            forall|k: int| 0 <= k < out.blobs@.len()
                ==> 0 < (#[trigger] out.blobs@[k]).entries@.len() <= crate::ledger::MAX_ENTRIES_PER_BLOB,
            entries@.len() == 0 ==> out.blobs@.len() == 0,
    {
        let (records, notices) = self.write_entries(&entries);
        let blobs = process_entry_list_into_blobs(entries, start_index, node_id);
        SyncOutput { records, notices, blobs }
    }

    /// One validator-side sync pass: the same drain discipline, but the
    /// writer is a sink and nothing is broadcast — only the id
    /// registrations and the subscriber notices remain.
    pub fn run_sync_no_broadcast(&mut self, entries: &Vec<Entry>) -> (notices: Vec<Vec<(u64, Response)>>)
        ensures
            final(self).accounting_stage.accountant@.last_ids
                == register_ids(old(self).accounting_stage.accountant@.last_ids, entry_views(entries@)),
            final(self).accounting_stage.accountant@.balances
                == old(self).accounting_stage.accountant@.balances,
            final(self).accounting_stage.accountant@.sigs
                == old(self).accounting_stage.accountant@.sigs,
            final(self).thin_client_service == old(self).thin_client_service,
            notices@.len() == entries@.len(),
            forall|i: int| 0 <= i < entries@.len()
                ==> (#[trigger] notices@[i])@ == entry_notices(old(self).thin_client_service.subscribers(),
                    entries@[i]@.id, entries@[i]@.num, entries@[i]@.events.len() as u64),
    {
        let (_records, notices) = self.write_entries(entries);
        notices
    }

    /// Apply one windowed run of blobs: reconstruct their entries, apply
    /// them to the account state, and recycle every consumed blob — one
    /// recycle per blob, leaving none outstanding from this run.
    pub fn replicate_state(&mut self, blobs: Vec<Blob>, blob_recycler: &mut BlobRecycler)
        requires
            old(self).accounting_stage.accountant.wf(),
            old(blob_recycler).outstanding() >= blobs@.len(),
        ensures
            final(self).accounting_stage.accountant.wf(),
            final(self).accounting_stage.accountant@ == spec_apply_entries(
                old(self).accounting_stage.accountant@,
                concat_blob_entries(blob_views(blobs@))),
            final(self).thin_client_service == old(self).thin_client_service,
            final(blob_recycler).outstanding() == old(blob_recycler).outstanding() - blobs@.len(),
    {
        let entries = reconstruct_entries_from_blobs(&blobs);
        self.accounting_stage.process_verified_entries(&entries);
        let mut rest = blobs;
        while rest.len() > 0
            invariant
                blob_recycler.outstanding() >= rest@.len(),
                blob_recycler.outstanding() - rest@.len()
                    == old(blob_recycler).outstanding() - blobs@.len(),
            decreases rest@.len(),
        {
            let b = rest.pop().unwrap();
            blob_recycler.recycle(b);
        }
    }

    /// Drain one verified batch through the request processor, against
    /// this unit's account state.
    pub fn process_request_packets(&mut self, packets: &Vec<Packet>, flags: &Vec<u8>) -> (out: ProcessOutput)
        requires
            packets@.len() == flags@.len(),
        ensures
            out.txs@ == crate::request::accepted_transactions(packets@, flags@),
            out.responses@ == crate::request::query_responses(
                old(self).accounting_stage.accountant@.balances, packets@),
            final(self).thin_client_service.subscribers()
                == old(self).thin_client_service.subscribers() + crate::request::subscribe_addrs(packets@),
            final(self).accounting_stage == old(self).accounting_stage,
    {
        self.thin_client_service.process_request_packets(&self.accounting_stage.accountant, packets, flags)
    }
}

} // verus!
