//! Packing ordered entries into indexed blobs for broadcast, and
//! reconstructing the entry sequence from a run of blobs on the way back.

use vstd::prelude::*;
use crate::data::Blob;
use crate::data::BlobView;
use crate::data::Entry;
use crate::data::EntryView;
use crate::data::Event;
use crate::data::blob_views;
use crate::data::concat_blob_entries;
use crate::data::entry_ids;
use crate::data::entry_views;

verus! {

/// How many entries one blob carries at most.
pub const MAX_ENTRIES_PER_BLOB: usize = 4;

/// Pack entries into blobs, in order: each blob takes up to
/// [`MAX_ENTRIES_PER_BLOB`] entries, blob indices count up from
/// `start_index`, and the blobs concatenate back to exactly the input.
pub fn process_entry_list_into_blobs(list: Vec<Entry>, start_index: u64, node_id: u64) -> (q: Vec<Blob>)
    requires
        start_index + list@.len() <= u64::MAX,
    ensures
        concat_blob_entries(blob_views(q@)) == entry_views(list@),
        forall|k: int| 0 <= k < q@.len() ==> (#[trigger] q@[k]).index == start_index + k,
        forall|k: int| 0 <= k < q@.len() ==> (#[trigger] q@[k]).id == node_id,
        forall|k: int| 0 <= k < q@.len()
            ==> 0 < (#[trigger] q@[k]).entries@.len() <= MAX_ENTRIES_PER_BLOB,
        q@.len() <= list@.len(),
        list@.len() == 0 ==> q@.len() == 0,
    {
    let ghost orig = list@;
    let mut rest = list;
    let n = rest.len();
    let mut q: Vec<Blob> = Vec::new();
    let mut consumed: usize = 0;
    proof {
        assert(orig.len() == n);
        assert(blob_views(q@) =~= Seq::<BlobView>::empty());
        assert(entry_views(orig.take(0)) =~= Seq::<EntryView>::empty());
    }
    while rest.len() > 0
        invariant
            consumed + rest@.len() == orig.len(),
            orig.len() <= usize::MAX,
            rest@ == orig.skip(consumed as int),
            concat_blob_entries(blob_views(q@)) == entry_views(orig.take(consumed as int)),
            forall|k: int| 0 <= k < q@.len() ==> (#[trigger] q@[k]).index == start_index + k,
            forall|k: int| 0 <= k < q@.len() ==> (#[trigger] q@[k]).id == node_id,
            forall|k: int| 0 <= k < q@.len()
                ==> 0 < (#[trigger] q@[k]).entries@.len() <= MAX_ENTRIES_PER_BLOB,
            q@.len() <= consumed,
            start_index + orig.len() <= u64::MAX,
        decreases rest@.len(),
    {
        let ghost chunk_start = consumed;
        let mut chunk: Vec<Entry> = Vec::new();
        while chunk.len() < MAX_ENTRIES_PER_BLOB && rest.len() > 0
            invariant
                consumed + rest@.len() == orig.len(),
                orig.len() <= usize::MAX,
                rest@ == orig.skip(consumed as int),
                chunk_start <= consumed,
                chunk@.len() == consumed - chunk_start,
                chunk@.len() <= MAX_ENTRIES_PER_BLOB,
                chunk@ == orig.subrange(chunk_start as int, consumed as int),
            decreases rest@.len(),
        {
            let ghost pre_rest = rest@;
            let e = rest.remove(0);
            proof {
                assert(orig.skip(consumed as int)[0] == orig[consumed as int]);
                assert(e == orig[consumed as int]);
                assert(pre_rest.remove(0) =~= orig.skip(consumed + 1));
                assert(chunk@.push(e) =~= orig.subrange(chunk_start as int, consumed + 1));
            }
            chunk.push(e);
            consumed = consumed + 1;
        }
        let index = start_index + (q.len() as u64);
        let ghost pre_q = q@;
        q.push(Blob { index, id: node_id, entries: chunk });
        proof {
            lemma_concat_snoc(pre_q.map_values(|x: Blob| x@), q@[q@.len() - 1]@);
            assert(blob_views(q@) =~= blob_views(pre_q).push(q@[q@.len() - 1]@));
            assert(entry_views(orig.take(consumed as int)) =~=
                entry_views(orig.take(chunk_start as int))
                    + entry_views(orig.subrange(chunk_start as int, consumed as int)));
        }
    }
    proof {
        assert(orig.take(orig.len() as int) =~= orig);
    }
    q
}

/// Reconstruct the entry sequence a run of blobs carries, in blob order.
/// The blobs themselves stay with the caller, which recycles them.
pub fn reconstruct_entries_from_blobs(blobs: &Vec<Blob>) -> (r: Vec<Entry>)
    ensures
        entry_views(r@) == concat_blob_entries(blob_views(blobs@)),
{
    let mut r: Vec<Entry> = Vec::new();
    let mut i: usize = 0;
    proof {
        assert(entry_views(r@) =~= Seq::<EntryView>::empty());
        assert(concat_blob_entries(blob_views(blobs@.take(0))) =~= Seq::<EntryView>::empty());
    }
    while i < blobs.len()
        invariant
            i <= blobs.len(),
            entry_views(r@) == concat_blob_entries(blob_views(blobs@.take(i as int))),
        decreases blobs.len() - i,
    {
        let blob = &blobs[i];
        let ghost pre = r@;
        let mut k: usize = 0;
        while k < blob.entries.len()
            invariant
                k <= blob.entries@.len(),
                entry_views(r@) == entry_views(pre) + entry_views(blob.entries@.take(k as int)),
            decreases blob.entries@.len() - k,
        {
            let e = clone_entry(&blob.entries[k]);
            proof {
                assert(entry_views(r@.push(e)) =~= entry_views(r@).push(blob.entries@[k as int]@));
                assert(entry_views(blob.entries@.take(k + 1)) =~=
                    entry_views(blob.entries@.take(k as int)).push(blob.entries@[k as int]@));
                assert(entry_views(pre) + entry_views(blob.entries@.take(k + 1)) =~=
                    (entry_views(pre) + entry_views(blob.entries@.take(k as int))).push(blob.entries@[k as int]@));
            }
            r.push(e);
            k = k + 1;
        }
        proof {
            assert(blob.entries@.take(blob.entries@.len() as int) =~= blob.entries@);
            lemma_concat_snoc(blobs@.take(i as int).map_values(|x: Blob| x@), blobs@[i as int]@);
            assert(blob_views(blobs@.take(i + 1)) =~= blob_views(blobs@.take(i as int)).push(blobs@[i as int]@));
            assert(entry_views(r@) =~= concat_blob_entries(blob_views(blobs@.take(i + 1))));
        }
        i = i + 1;
    }
    proof {
        assert(blobs@.take(blobs@.len() as int) =~= blobs@);
    }
    r
}

/// A field-for-field copy of one entry.
pub fn clone_entry(e: &Entry) -> (r: Entry)
    ensures
        r@ == e@,
{
    let mut events: Vec<Event> = Vec::new();
    let mut i: usize = 0;
    while i < e.events.len()
        invariant
            i <= e.events@.len(),
            events@ == e.events@.take(i as int),
        decreases e.events@.len() - i,
    {
        events.push(e.events[i]);
        proof {
            assert(e.events@.take(i + 1) =~= e.events@.take(i as int).push(e.events@[i as int]));
        }
        i = i + 1;
    }
    proof {
        assert(e.events@.take(e.events@.len() as int) =~= e.events@);
    }
    Entry { id: e.id, num: e.num, events }
}

/// Concatenation over one appended blob puts its entries last.
proof fn lemma_concat_snoc(s: Seq<BlobView>, b: BlobView)
    ensures
        concat_blob_entries(s.push(b)) == concat_blob_entries(s) + b.entries,
    decreases s.len(),
{
    reveal_with_fuel(concat_blob_entries, 2);
    if s.len() == 0 {
        assert(s.push(b)[0] == b);
        assert(s.push(b).drop_first() =~= Seq::<BlobView>::empty());
        assert(concat_blob_entries(s.push(b)) =~= concat_blob_entries(s) + b.entries);
    } else {
        assert(s.push(b)[0] == s[0]);
        assert(s.push(b).drop_first() =~= s.drop_first().push(b));
        lemma_concat_snoc(s.drop_first(), b);
        assert(concat_blob_entries(s.push(b)) =~= concat_blob_entries(s) + b.entries);
    }
}

/// Entry order survives packing: the ids carried by a run of blobs that
/// concatenates to a prefix of what the accounting stage emitted are
/// exactly that prefix of the emitted ids — what the broadcaster sends
/// matches, as a prefix, what the accounting stage produced.
pub proof fn lemma_entry_order_preserved(emitted: Seq<EntryView>, k: int, blobs: Seq<BlobView>)
    requires
        0 <= k <= emitted.len(),
        concat_blob_entries(blobs) == emitted.take(k),
    ensures
        entry_ids(concat_blob_entries(blobs)) == entry_ids(emitted).take(k),
{
    assert(entry_ids(emitted.take(k)) =~= entry_ids(emitted).take(k));
}

} // verus!
