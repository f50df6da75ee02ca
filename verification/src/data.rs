//! Plain-value data model of the pipeline: transactions, events, entries,
//! packets, blobs, and the views the contracts speak of.

use vstd::prelude::*;

verus! {

/// A signed transfer of tokens between two accounts.
///
/// The host verifies the wire signature before the pipeline sees the
/// transaction; here the signature is a plain identifier, used only to
/// recognise a transaction that has already been applied.
#[derive(Clone, Copy, PartialEq, Eq, Structural, Debug)]
pub struct Transaction {
    pub from: u64,
    pub to: u64,
    pub tokens: u64,
    pub last_id: u64,
    pub sig: u64,
}

/// One item of an entry: a signed transfer or a signed timestamp notice.
#[derive(Clone, Copy, PartialEq, Eq, Structural, Debug)]
pub enum Event {
    Transaction(Transaction),
    Timestamp(u64),
}

/// One record of the ordered log: a content-addressed id, a sequence
/// number, and the events the record carries.
#[derive(Debug)]
pub struct Entry {
    pub id: u64,
    pub num: u64,
    pub events: Vec<Event>,
}

/// Mathematical shape of an [`Entry`].
pub struct EntryView {
    pub id: u64,
    pub num: u64,
    pub events: Seq<Event>,
}

impl View for Entry {
    type V = EntryView;

    open spec fn view(&self) -> EntryView {
        EntryView { id: self.id, num: self.num, events: self.events@ }
    }
}

/// The views of a sequence of entries.
pub open spec fn entry_views(s: Seq<Entry>) -> Seq<EntryView> {
    s.map_values(|e: Entry| e@)
}

/// The id of each entry, in order.
pub open spec fn entry_ids(s: Seq<EntryView>) -> Seq<u64> {
    s.map_values(|e: EntryView| e.id)
}

/// A framed buffer carrying entries between nodes: a monotonically
/// assigned index, the originating node's id, and the payload.
#[derive(Debug)]
pub struct Blob {
    pub index: u64,
    pub id: u64,
    pub entries: Vec<Entry>,
}

/// Mathematical shape of a [`Blob`].
pub struct BlobView {
    pub index: u64,
    pub id: u64,
    pub entries: Seq<EntryView>,
}

impl View for Blob {
    type V = BlobView;

    open spec fn view(&self) -> BlobView {
        BlobView { index: self.index, id: self.id, entries: entry_views(self.entries@) }
    }
}

/// The views of a sequence of blobs.
pub open spec fn blob_views(s: Seq<Blob>) -> Seq<BlobView> {
    s.map_values(|b: Blob| b@)
}

/// The entries of a run of blobs, concatenated in blob order.
pub open spec fn concat_blob_entries(s: Seq<BlobView>) -> Seq<EntryView>
    decreases s.len(),
{
    if s.len() == 0 {
        Seq::empty()
    } else {
        s[0].entries + concat_blob_entries(s.drop_first())
    }
}

/// A request carried by one packet, already decoded by the host.
#[derive(Clone, Copy, PartialEq, Eq, Structural, Debug)]
pub enum Request {
    Transaction(Transaction),
    GetBalance { key: u64 },
    Subscribe { addr: u64 },
}

/// An answer produced for a query or pushed to an entry-info subscriber.
#[derive(Clone, Copy, PartialEq, Eq, Structural, Debug)]
pub enum Response {
    Balance { key: u64, val: Option<u64> },
    EntryInfo { id: u64, num: u64, event_count: u64 },
}

/// One ingress packet: the decoded request, or nothing when the payload
/// was malformed, plus the peer address the answer goes back to.
#[derive(Clone, Copy, PartialEq, Eq, Structural, Debug)]
pub struct Packet {
    pub req: Option<Request>,
    pub addr: u64,
}

/// One row of the account table.
#[derive(Clone, Copy, PartialEq, Eq, Structural, Debug)]
pub struct Account {
    pub key: u64,
    pub tokens: u64,
}

/// Why the account state refused a transfer.
#[derive(Clone, Copy, PartialEq, Eq, Structural, Debug)]
pub enum TransferError {
    /// The cited `last_id` was never registered as an entry id.
    UnknownLastId,
    /// A transfer with the same signature was already applied.
    DuplicateSignature,
    /// The sender has no account or fewer tokens than the transfer moves.
    InsufficientFunds,
    /// Crediting the receiver would overflow its balance.
    BalanceOverflow,
}

} // verus!
