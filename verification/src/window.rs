//! The validator-side reordering and de-duplication buffer, keyed on blob
//! index: whatever order blobs arrive in, the primary output is the
//! contiguous run of indices starting at zero, each delivered once.

use vstd::prelude::*;
use vstd::multiset::Multiset;
use crate::data::Blob;

verus! {

/// How far past the delivery cursor a blob index may run and still be
/// buffered; anything further is refused as outside the window.
pub const WINDOW_SIZE: u64 = 2048;

/// What one offered blob produced.
pub struct WindowOutput {
    /// The contiguous run of blobs freed for the primary output, in
    /// strictly increasing index order.
    pub delivered: Vec<Blob>,
    /// Index queued for peer-to-peer retransmission: the offered blob's,
    /// when it was accepted.
    pub retransmit: Option<u64>,
    /// The offered blob handed back for recycling, when it was a
    /// duplicate or fell outside the window.
    pub rejected: Option<Blob>,
}

/// The sliding reorder buffer.
pub struct Window {
    next_index: u64,
    pending: Vec<Blob>,
    delivered_log: Ghost<Seq<u64>>,
}

impl Window {
    /// The cursor: every index below it has been delivered, none above.
    pub closed spec fn next(&self) -> u64 {
        self.next_index
    }

    /// Whether some buffered blob carries the given index.
    pub open spec fn holds_index(&self, index: u64) -> bool {
        has_index(self.pending_blobs(), index)
    }

    /// The blobs still buffered.
    pub closed spec fn pending_blobs(&self) -> Seq<Blob> {
        self.pending@
    }

    /// Every index the window has ever pushed to its primary output, in
    /// delivery order.
    pub closed spec fn delivered(&self) -> Seq<u64> {
        self.delivered_log@
    }

    /// Well-formedness: the delivery log is exactly the contiguous run of
    /// indices below the cursor, and the buffer holds each index at most
    /// once, none already delivered, and only indices the cursor can
    /// still step past.
    pub open spec fn wf(&self) -> bool {
        &&& self.delivered().len() == self.next()
        &&& forall|i: int| 0 <= i < self.delivered().len() ==> self.delivered()[i] == i as u64
        &&& forall|i: int| 0 <= i < self.pending_blobs().len()
            ==> (#[trigger] self.pending_blobs()[i]).index >= self.next()
        &&& forall|i: int| 0 <= i < self.pending_blobs().len()
            ==> (#[trigger] self.pending_blobs()[i]).index < u64::MAX
        &&& forall|i: int, j: int| 0 <= i < j < self.pending_blobs().len()
            ==> self.pending_blobs()[i].index != self.pending_blobs()[j].index
    }

    /// An empty window with the cursor at index zero.
    pub fn new() -> (w: Window)
        ensures
            w.wf(),
            w.next() == 0,
            w.delivered() == Seq::<u64>::empty(),
            w.pending_blobs() == Seq::<Blob>::empty(),
    {
        Window { next_index: 0, pending: Vec::new(), delivered_log: Ghost(Seq::empty()) }
    }

    /// Offer one inbound blob. A blob whose index was already delivered
    /// or buffered, or lies `WINDOW_SIZE` or more past the cursor, comes
    /// back in `rejected` untouched. An accepted blob is queued for
    /// retransmission, and the output carries the contiguous run of
    /// buffered blobs the cursor can now walk over, in strictly
    /// increasing index order.
    ///
    /// The final representable index is refused with the rest so the
    /// cursor can always step past what it delivers.
    pub fn insert(&mut self, b: Blob) -> (out: WindowOutput)
        requires
            old(self).wf(),
        ensures
            final(self).wf(),
            final(self).delivered() == old(self).delivered() + out.delivered@.map_values(|x: Blob| x.index),
            final(self).next() == old(self).next() + out.delivered@.len(),
            forall|k: int| 0 <= k < out.delivered@.len()
                ==> (#[trigger] out.delivered@[k]).index == old(self).next() + k,
            (out.rejected is None) == (b.index >= old(self).next()
                && b.index - old(self).next() < WINDOW_SIZE
                && b.index < u64::MAX
                && !old(self).holds_index(b.index)),
            out.rejected matches Some(r) ==> r == b && *final(self) == *old(self),
            out.retransmit == (if out.rejected is None { Some(b.index) } else { None::<u64> }),
            final(self).pending_blobs().len() + out.delivered@.len()
                + (if out.rejected is Some { 1int } else { 0int })
                == old(self).pending_blobs().len() + 1,
            forall|k: int| 0 <= k < out.delivered@.len()
                ==> #[trigger] out.delivered@[k] == b || old(self).pending_blobs().contains(out.delivered@[k]),
            // delivery is maximal: the cursor never rests on a buffered
            // index, so the whole contiguous run in hand goes out now
            out.rejected is None ==> !final(self).holds_index(final(self).next()),
            // nothing is invented or lost: the old buffer plus the offered
            // blob are exactly the delivered run plus the new buffer
            out.rejected is None ==> old(self).pending_blobs().push(b).to_multiset()
                == out.delivered@.to_multiset().add(final(self).pending_blobs().to_multiset()),
    {
        let in_window = b.index >= self.next_index
            && b.index - self.next_index < WINDOW_SIZE
            && b.index < u64::MAX;
        if !in_window || find_index(&self.pending, b.index).is_some() {
            return WindowOutput { delivered: Vec::new(), retransmit: None, rejected: Some(b) };
        }
        let ghost orig_log = self.delivered_log@;
        let ghost start = self.next_index;
        let b_index = b.index;
        self.pending.push(b);
        let ghost base = self.pending@;
        let mut delivered: Vec<Blob> = Vec::new();
        proof {
            broadcast use vstd::seq_lib::group_to_multiset_ensures;
            assert forall|i: int| 0 <= i < base.len() implies base.contains(#[trigger] base[i]) by {}
            assert(delivered@.to_multiset() =~= Multiset::<Blob>::empty()) by {
                assert forall|a: Blob| delivered@.to_multiset().count(a) == 0 by {
                    assert(!delivered@.contains(a));
                }
            }
            assert(base.to_multiset() =~= delivered@.to_multiset().add(self.pending@.to_multiset()));
        }
        loop
            invariant
                self.wf(),
                self.next_index == start + delivered@.len(),
                self.delivered_log@ == orig_log + delivered@.map_values(|x: Blob| x.index),
                orig_log.len() == start,
                forall|k: int| 0 <= k < delivered@.len()
                    ==> (#[trigger] delivered@[k]).index == start + k,
                self.pending@.len() + delivered@.len() == base.len(),
                forall|i: int| 0 <= i < self.pending@.len() ==> base.contains(#[trigger] self.pending@[i]),
                forall|k: int| 0 <= k < delivered@.len() ==> base.contains(#[trigger] delivered@[k]),
                base.to_multiset() == delivered@.to_multiset().add(self.pending@.to_multiset()),
            ensures
                !has_index(self.pending@, self.next_index),
            decreases self.pending@.len(),
        {
            let pos = match find_index(&self.pending, self.next_index) {
                Some(p) => p,
                None => break,
            };
            let ghost pre_pending = self.pending@;
            proof {
                assert(self.pending_blobs() == pre_pending);
                assert(forall|i: int| 0 <= i < pre_pending.len()
                    ==> (#[trigger] pre_pending[i]).index < u64::MAX);
                assert(forall|i: int, j: int| 0 <= i < j < pre_pending.len()
                    ==> pre_pending[i].index != pre_pending[j].index);
            }
            let blob = self.pending.remove(pos);
            proof {
                assert(blob == pre_pending[pos as int]);
                assert(blob.index == self.next_index);
                assert(blob.index < u64::MAX);
                assert forall|i: int| 0 <= i < self.pending@.len()
                    implies base.contains(#[trigger] self.pending@[i]) by {
                    if i < pos {
                        assert(self.pending@[i] == pre_pending[i]);
                    } else {
                        assert(self.pending@[i] == pre_pending[i + 1]);
                    }
                }
                assert forall|i: int| 0 <= i < self.pending@.len()
                    implies (#[trigger] self.pending@[i]).index != blob.index by {
                    if i < pos {
                        assert(self.pending@[i] == pre_pending[i]);
                        assert(pre_pending[i].index != pre_pending[pos as int].index);
                    } else {
                        assert(self.pending@[i] == pre_pending[i + 1]);
                        assert(pre_pending[pos as int].index != pre_pending[i + 1].index);
                    }
                }
            }
            let ghost pre_delivered = delivered@;
            delivered.push(blob);
            self.next_index = self.next_index + 1;
            self.delivered_log = Ghost(self.delivered_log@.push(blob.index));
            proof {
                broadcast use vstd::seq_lib::group_to_multiset_ensures;
                assert(delivered@.map_values(|x: Blob| x.index) =~=
                    delivered@.drop_last().map_values(|x: Blob| x.index).push(blob.index));
                assert(self.delivered_log@ =~= orig_log + delivered@.map_values(|x: Blob| x.index));
                assert(pre_pending.contains(blob));
                assert(pre_pending.to_multiset().count(blob) > 0);
                assert(self.pending@.to_multiset() =~= pre_pending.to_multiset().remove(blob));
                assert(delivered@.to_multiset() =~= pre_delivered.to_multiset().insert(blob));
                assert(base.to_multiset() =~= delivered@.to_multiset().add(self.pending@.to_multiset()));
            }
        }
        proof {
            assert forall|k: int| 0 <= k < delivered@.len()
                implies #[trigger] delivered@[k] == b || old(self).pending_blobs().contains(delivered@[k]) by {
                assert(base.contains(delivered@[k]));
                let i = choose|i: int| 0 <= i < base.len() && base[i] == delivered@[k];
                if i < base.len() - 1 {
                    assert(old(self).pending_blobs()[i] == delivered@[k]);
                } else {
                    assert(delivered@[k] == b);
                }
            }
        }
        WindowOutput { delivered, retransmit: Some(b_index), rejected: None }
    }
}

/// Position of the first buffered blob with the given index, if any.
fn find_index(v: &Vec<Blob>, index: u64) -> (r: Option<usize>)
    ensures
        r matches Some(i) ==> i < v@.len() && v@[i as int].index == index,
        r is Some ==> has_index(v@, index),
        r is None ==> !has_index(v@, index),
{
    let mut i: usize = 0;
    while i < v.len()
        invariant
            i <= v.len(),
            forall|j: int| 0 <= j < i ==> v@[j].index != index,
        decreases v.len() - i,
    {
        if v[i].index == index {
            return Some(i);
        }
        i = i + 1;
    }
    None
}

/// Whether some blob of the sequence carries the given index.
pub open spec fn has_index(s: Seq<Blob>, index: u64) -> bool {
    exists|j: int| 0 <= j < s.len() && (#[trigger] s[j]).index == index
}

/// A sequence of indices that climbs strictly.
pub open spec fn strictly_increasing(s: Seq<u64>) -> bool {
    forall|i: int, j: int| 0 <= i < j < s.len() ==> s[i] < s[j]
}

/// Window monotonicity: across any run, the indices the window has pushed
/// to its primary output climb strictly — they are the contiguous,
/// gap-free run from zero up to the cursor.
pub proof fn lemma_window_monotonic(w: &Window)
    requires
        w.wf(),
    ensures
        strictly_increasing(w.delivered()),
        w.delivered() == Seq::new(w.next() as nat, |i: int| i as u64),
{
    assert(w.delivered() =~= Seq::new(w.next() as nat, |i: int| i as u64));
}

} // verus!
