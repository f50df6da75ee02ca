//! Object pools for packets and blobs, modelled by what the pipeline is
//! answerable for: every buffer allocated comes back with one matching
//! recycle, so the count of outstanding buffers returns to zero at
//! quiescence.

use vstd::prelude::*;
use crate::data::Blob;
use crate::data::Packet;

verus! {

/// Pool of packet buffers.
pub struct PacketRecycler {
    outstanding: usize,
}

impl PacketRecycler {
    /// How many allocated packets have not been recycled yet.
    pub closed spec fn outstanding(&self) -> int {
        self.outstanding as int
    }

    /// How many buffers are outstanding, for the pool's owner to check
    /// at quiescence.
    pub fn outstanding_count(&self) -> (n: usize)
        ensures
            n as int == self.outstanding(),
    {
        self.outstanding
    }

    /// Take a blank packet from the pool.
    pub fn allocate(&mut self) -> (p: Packet)
        requires
            old(self).outstanding() < usize::MAX,
        ensures
            final(self).outstanding() == old(self).outstanding() + 1,
            p == (Packet { req: None, addr: 0 }),
    {
        self.outstanding = self.outstanding + 1;
        Packet { req: None, addr: 0 }
    }

    /// Return a packet to the pool. Only packets this pool handed out
    /// are ever returned, so at least one is outstanding.
    pub fn recycle(&mut self, p: Packet)
        requires
            old(self).outstanding() >= 1,
        ensures
            final(self).outstanding() == old(self).outstanding() - 1,
    {
        let _ = p;
        self.outstanding = self.outstanding - 1;
    }
}

impl Default for PacketRecycler {
    /// A fresh pool with nothing outstanding.
    fn default() -> (r: Self)
        ensures
            r.outstanding() == 0,
    {
        PacketRecycler { outstanding: 0 }
    }
}

/// Pool of blob buffers.
pub struct BlobRecycler {
    outstanding: usize,
}

impl BlobRecycler {
    /// How many allocated blobs have not been recycled yet.
    pub closed spec fn outstanding(&self) -> int {
        self.outstanding as int
    }

    /// How many buffers are outstanding, for the pool's owner to check
    /// at quiescence.
    pub fn outstanding_count(&self) -> (n: usize)
        ensures
            n as int == self.outstanding(),
    {
        self.outstanding
    }

    /// Take a blank blob from the pool.
    pub fn allocate(&mut self) -> (b: Blob)
        requires
            old(self).outstanding() < usize::MAX,
        ensures
            final(self).outstanding() == old(self).outstanding() + 1,
            b.index == 0,
            b.id == 0,
            b.entries@ == Seq::<crate::data::Entry>::empty(),
    {
        self.outstanding = self.outstanding + 1;
        Blob { index: 0, id: 0, entries: Vec::new() }
    }

    /// Return a blob to the pool. Only blobs this pool handed out are
    /// ever returned, so at least one is outstanding.
    pub fn recycle(&mut self, b: Blob)
        requires
            old(self).outstanding() >= 1,
        ensures
            final(self).outstanding() == old(self).outstanding() - 1,
    {
        let _ = b;
        self.outstanding = self.outstanding - 1;
    }
}

impl Default for BlobRecycler {
    /// A fresh pool with nothing outstanding.
    fn default() -> (r: Self)
        ensures
            r.outstanding() == 0,
    {
        BlobRecycler { outstanding: 0 }
    }
}

} // verus!
