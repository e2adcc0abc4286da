//! A small, durable fan-out message log.
//!
//! Each named consumer receives its own delivery of every matching message.
//! Delivery is at least once: polling leases messages for a visibility timeout,
//! and an expired lease may be delivered again. Receipts are generation-bound,
//! so stale workers cannot acknowledge a newer delivery. Consumers can stop new
//! fan-out and drain existing deliveries, while exact snapshots and bounded
//! cleanup expose the durable operational state. Failed deliveries can be
//! archived per consumer for inspection or redrive.
//!
//! A [`LiteFan`] holds the log's rows. Its operations are transactions on them:
//! each takes the reading of the clock, and either changes the log as its
//! contract in terms of [`model::StoreView`] says, or reports an error and
//! leaves the log as it was. The one exception is a claim of a delivery whose
//! message is gone: it is reported, and the lease stands. Operations ask no more
//! of the rows than the constraints of their tables; a log that only they have
//! changed is also consistent, and some of the laws need that. Rows are read from
//! and written to a database outside of this crate; [`sync`] tells which rows
//! have to be written. What holds across operations is proved under [`laws`].
pub mod api;
pub mod archive;
pub mod claims;
pub mod consumer;
pub mod counting;
pub mod error;
pub mod invariants;
pub mod laws;
pub mod model;
pub mod names;
pub mod opening;
pub mod schema;
pub mod seqs;
pub mod signals;
pub mod storage;
pub mod store;
pub mod sync;
pub mod tables;
pub mod time;

pub use api::{
    ArchiveId, ArchivedDelivery, BatchResult, Config, ConsumerSnapshot, ConsumerState, DeleteMode,
    DeleteOutcome, Delivery, Filter, ListArchives, Message, MessageId, Poll, Prune, PruneOutcome,
    Publish, PublishOutcome, PurgeArchives, PurgeArchivesOutcome, Receipt, Retry, StoreSnapshot,
    Synchronous,
};
pub use consumer::{Claim, Consumer, ConsumerBuilder, PollStep};
pub use error::Error;
pub use signals::Wakeup;
pub use storage::LiteFan;
pub use tables::{ArchiveRow, ConsumerRow, DeliveryRow, LedgerRow, MessageRow, Stored};
