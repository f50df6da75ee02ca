//! Verified core of a transaction processing unit: a staged pipeline that
//! takes signed transactions, gates them on signature flags, orders them
//! into an append-only entry log, applies them to an in-memory account
//! table, packs entries into indexed blobs for broadcast, and reorders
//! inbound blobs on the validator side.
//!
//! The surrounding process supplies what cannot be verified here: sockets,
//! threads, channels, cryptographic signature checks and content hashes.
//! Every function in this crate works on plain values handed in by that
//! host and states its effect in a contract.

pub mod accountant;
pub mod accounting_stage;
pub mod data;
pub mod encode;
pub mod recycler;
pub mod tpu;
pub mod ledger;
pub mod lifecycle;
pub mod request;
pub mod sigverify;
pub mod window;

pub use data::Account;
pub use data::Blob;
pub use data::BlobView;
pub use data::Entry;
pub use data::EntryView;
pub use data::Event;
pub use data::Packet;
pub use data::Request;
pub use data::Response;
pub use data::Transaction;
pub use data::TransferError;
