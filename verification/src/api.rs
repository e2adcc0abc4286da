//! The public data model and configuration.
use std::time::Duration;

use vstd::prelude::*;

use crate::model::StoreView;
use crate::tables::ConsumerView;

verus! {

/// The durability that SQLite is asked for when it commits.
#[derive(Clone, Copy, Debug, PartialEq, Eq)]
pub enum Synchronous {
    Off,
    Normal,
    Full,
    Extra,
}

/// Connection, batching, durability, idempotency, and long-poll settings.
#[derive(Debug)]
pub struct Config {
    /// Maximum number of SQLite connections. SQLite still permits one writer.
    pub max_connections: u32,
    /// Largest slice accepted by a batch operation.
    pub max_batch_size: usize,
    /// How long SQLite waits for a writer lock before returning `SQLITE_BUSY`.
    pub busy_timeout: Duration,
    /// WAL durability setting.
    pub synchronous: Synchronous,
    /// Ask SQLite to checkpoint after approximately this many WAL pages.
    pub wal_autocheckpoint_pages: u32,
    /// Poll cadence used to discover commits made by another process or handle.
    pub cross_process_poll_interval: Duration,
    /// How long a supplied idempotency key suppresses another publish.
    pub idempotency_window: Duration,
}

impl Clone for Config {
    fn clone(&self) -> (copy: Self)
        ensures
            copy == *self,
    {
        Config {
            max_connections: self.max_connections,
            max_batch_size: self.max_batch_size,
            busy_timeout: self.busy_timeout,
            synchronous: self.synchronous,
            wal_autocheckpoint_pages: self.wal_autocheckpoint_pages,
            cross_process_poll_interval: self.cross_process_poll_interval,
            idempotency_window: self.idempotency_window,
        }
    }
}

impl Default for Config {
    fn default() -> (config: Self)
        ensures
            config.max_connections == 4,
            config.max_batch_size == 500,
            crate::time::duration_nanos(config.busy_timeout) == 5_000_000_000,
            config.synchronous == Synchronous::Normal,
            config.wal_autocheckpoint_pages == 1_000,
            crate::time::duration_nanos(config.cross_process_poll_interval) == 250_000_000,
            crate::time::duration_nanos(config.idempotency_window) == 86_400_000_000_000,
    {
        Config {
            max_connections: 4,
            max_batch_size: 500,
            busy_timeout: Duration::from_secs(5),
            synchronous: Synchronous::Normal,
            wal_autocheckpoint_pages: 1_000,
            cross_process_poll_interval: Duration::from_millis(250),
            idempotency_window: Duration::from_secs(24 * 60 * 60),
        }
    }
}

impl Config {
    /// The number of connections to open. Separate connections to a database in
    /// memory are separate databases, so there is only one.
    pub fn connections(&self, in_memory: bool) -> (connections: u32)
        ensures
            connections == if in_memory {
                1
            } else {
                self.max_connections
            },
    {
        if in_memory {
            1
        } else {
            self.max_connections
        }
    }
}

/// An exact topic filter, or all published messages.
#[derive(Debug, Eq, PartialEq)]
pub enum Filter {
    All,
    Topic(String),
}

impl View for Filter {
    type V = Option<Seq<char>>;

    open spec fn view(&self) -> Option<Seq<char>> {
        match *self {
            Filter::All => None,
            Filter::Topic(topic) => Some(topic@),
        }
    }
}

impl Default for Filter {
    fn default() -> (filter: Self)
        ensures
            filter == Filter::All,
    {
        Filter::All
    }
}

impl Clone for Filter {
    fn clone(&self) -> (copy: Self)
        ensures
            copy == *self,
    {
        match self {
            Filter::All => Filter::All,
            Filter::Topic(topic) => Filter::Topic(topic.clone()),
        }
    }
}

/// `String::from` of a string slice keeps its characters.
pub assume_specification<'a>[ <String as From<&'a str>>::from ](text: &str) -> (string: String)
    ensures
        string@ == text@,
;

impl Filter {
    /// A filter for one exact topic.
    pub fn topic(topic: impl Into<String>) -> (filter: Self)
        ensures
            filter matches Filter::Topic(text) && call_ensures(
                <_ as Into<String>>::into,
                (topic,),
                text,
            ),
    {
        Filter::Topic(topic.into())
    }

    /// The topic that the filter is stored as: none for all messages.
    pub fn as_database_value(&self) -> (value: Option<&str>)
        ensures
            value matches Some(topic) ==> self@ == Some(topic@),
            value is None ==> self@ is None,
    {
        match self {
            Filter::All => None,
            Filter::Topic(topic) => Some(topic.as_str()),
        }
    }
}

/// A message to publish, with its texts read as sequences.
pub struct PublishView {
    pub topic: Option<Seq<char>>,
    pub body: Seq<u8>,
    pub idempotency_key: Option<Seq<u8>>,
}

/// A borrowed message to publish.
#[derive(Clone, Copy, Debug)]
pub struct Publish<'a> {
    pub topic: Option<&'a str>,
    pub body: &'a [u8],
    pub idempotency_key: Option<&'a [u8]>,
}

impl<'a> View for Publish<'a> {
    type V = PublishView;

    open spec fn view(&self) -> PublishView {
        PublishView {
            topic: match self.topic {
                Some(topic) => Some(topic@),
                None => None,
            },
            body: self.body@,
            idempotency_key: match self.idempotency_key {
                Some(key) => Some(key@),
                None => None,
            },
        }
    }
}

impl<'a> Publish<'a> {
    /// A message with neither topic nor idempotency key.
    pub fn new(body: &'a [u8]) -> (publish: Self)
        ensures
            publish == (Publish { topic: None, body, idempotency_key: None }),
    {
        Publish { topic: None, body, idempotency_key: None }
    }

    pub fn with_topic(self, topic: &'a str) -> (publish: Self)
        ensures
            publish == (Publish { topic: Some(topic), ..self }),
    {
        Publish { topic: Some(topic), ..self }
    }

    pub fn with_idempotency_key(self, key: &'a [u8]) -> (publish: Self)
        ensures
            publish == (Publish { idempotency_key: Some(key), ..self }),
    {
        Publish { idempotency_key: Some(key), ..self }
    }
}

/// The stable identifier assigned to a stored message.
#[derive(Clone, Copy, Debug, Eq, Hash, Ord, PartialEq, PartialOrd)]
pub struct MessageId(pub(crate) i64);

impl View for MessageId {
    type V = int;

    open(crate) spec fn view(&self) -> int {
        self.0 as int
    }
}

impl MessageId {
    pub fn get(self) -> (id: i64)
        ensures
            id == self@,
    {
        self.0
    }
}

/// An outcome of publishing, with the message identifier as a number.
#[allow(inconsistent_fields)]
pub enum PublishOutcomeView {
    Published { id: int },
    Duplicate { id: int },
}

impl PublishOutcomeView {
    /// The message that the outcome names.
    pub open spec fn message(self) -> int {
        match self {
            PublishOutcomeView::Published { id } => id,
            PublishOutcomeView::Duplicate { id } => id,
        }
    }
}

/// Whether publishing inserted a message or found an existing idempotency key.
#[derive(Clone, Copy, Debug, Eq, PartialEq)]
pub enum PublishOutcome {
    Published { id: MessageId },
    Duplicate { id: MessageId },
}

impl View for PublishOutcome {
    type V = PublishOutcomeView;

    open spec fn view(&self) -> PublishOutcomeView {
        match *self {
            PublishOutcome::Published { id } => PublishOutcomeView::Published { id: id@ },
            PublishOutcome::Duplicate { id } => PublishOutcomeView::Duplicate { id: id@ },
        }
    }
}

impl PublishOutcome {
    /// The message that the outcome names.
    pub open spec fn message(self) -> MessageId {
        match self {
            PublishOutcome::Published { id } => id,
            PublishOutcome::Duplicate { id } => id,
        }
    }

    pub fn id(self) -> (id: MessageId)
        ensures
            id == self.message(),
    {
        match self {
            PublishOutcome::Published { id } => id,
            PublishOutcome::Duplicate { id } => id,
        }
    }

    pub fn is_published(self) -> (published: bool)
        ensures
            published == self is Published,
    {
        match self {
            PublishOutcome::Published { .. } => true,
            PublishOutcome::Duplicate { .. } => false,
        }
    }
}

/// A stored message, with its texts read as sequences.
pub struct MessageView {
    pub id: int,
    pub topic: Option<Seq<char>>,
    pub body: Seq<u8>,
    pub published_at_ms: int,
}

/// A stored message body and its immutable metadata.
#[derive(Debug, Eq, PartialEq)]
pub struct Message {
    pub id: MessageId,
    pub topic: Option<String>,
    pub body: Vec<u8>,
    pub published_at_ms: i64,
}

impl View for Message {
    type V = MessageView;

    open spec fn view(&self) -> MessageView {
        MessageView {
            id: self.id@,
            topic: match self.topic {
                Some(topic) => Some(topic@),
                None => None,
            },
            body: self.body@,
            published_at_ms: self.published_at_ms as int,
        }
    }
}

impl Clone for Message {
    fn clone(&self) -> (copy: Self)
        ensures
            copy@ == self@,
    {
        let topic = match &self.topic {
            Some(topic) => Some(topic.clone()),
            None => None,
        };
        let body = self.body.clone();
        assert(body@ =~= self.body@);
        Message { id: self.id, topic, body, published_at_ms: self.published_at_ms }
    }
}

/// An opaque capability for acknowledging one particular lease generation.
#[derive(Clone, Copy, Debug, Eq, Hash, PartialEq)]
pub struct Receipt {
    pub(crate) consumer_id: i64,
    pub(crate) message_id: i64,
    pub(crate) generation: i64,
}

/// What a receipt names.
pub struct ReceiptView {
    pub consumer_id: int,
    pub message_id: int,
    pub generation: int,
}

impl View for Receipt {
    type V = ReceiptView;

    open(crate) spec fn view(&self) -> ReceiptView {
        ReceiptView {
            consumer_id: self.consumer_id as int,
            message_id: self.message_id as int,
            generation: self.generation as int,
        }
    }
}

/// A leased message, with its texts read as sequences.
pub struct DeliveryView {
    pub message: MessageView,
    pub delivery_count: int,
    pub receipt: ReceiptView,
}

/// A message leased to a consumer.
#[derive(Clone, Debug, Eq, PartialEq)]
pub struct Delivery {
    pub message: Message,
    /// Number of times this consumer has received the message.
    pub delivery_count: u64,
    pub(crate) receipt: Receipt,
}

impl View for Delivery {
    type V = DeliveryView;

    open(crate) spec fn view(&self) -> DeliveryView {
        DeliveryView {
            message: self.message@,
            delivery_count: self.delivery_count as int,
            receipt: self.receipt@,
        }
    }
}

impl Delivery {
    pub fn receipt(&self) -> (receipt: Receipt)
        ensures
            receipt@ == self@.receipt,
    {
        self.receipt
    }
}

/// Options for one short or long poll.
#[derive(Clone, Copy, Debug)]
pub struct Poll {
    pub max_messages: usize,
    pub visibility_timeout: Duration,
    pub wait: Duration,
}

impl Default for Poll {
    fn default() -> (poll: Self)
        ensures
            poll.max_messages == 100,
            crate::time::duration_nanos(poll.visibility_timeout) == 30_000_000_000,
            crate::time::duration_nanos(poll.wait) == 20_000_000_000,
    {
        Poll {
            max_messages: 100,
            visibility_timeout: Duration::from_secs(30),
            wait: Duration::from_secs(20),
        }
    }
}

/// When a nacked message should become eligible for another delivery.
#[derive(Clone, Copy, Debug, Eq, PartialEq)]
pub enum Retry {
    Immediately,
    After(Duration),
}

impl Retry {
    /// The length of the delay in nanoseconds.
    pub open spec fn delay_nanos(self) -> nat {
        match self {
            Retry::Immediately => 0,
            Retry::After(delay) => crate::time::duration_nanos(delay),
        }
    }

    /// How long the message stays hidden.
    pub fn delay(self) -> (delay: Duration)
        ensures
            crate::time::duration_nanos(delay) == self.delay_nanos(),
            self matches Retry::After(after) ==> delay == after,
    {
        match self {
            Retry::Immediately => Duration::from_secs(0),
            Retry::After(delay) => delay,
        }
    }
}

/// Result of a receipt mutation. Stale covers duplicate and wrong-consumer receipts.
#[derive(Clone, Copy, Debug, Eq, PartialEq)]
pub struct BatchResult {
    pub applied: usize,
    pub stale: usize,
}

impl Default for BatchResult {
    fn default() -> (result: Self)
        ensures
            result == (BatchResult { applied: 0, stale: 0 }),
    {
        BatchResult { applied: 0, stale: 0 }
    }
}

/// Whether a consumer still accepts newly published messages.
#[derive(Clone, Copy, Debug, Eq, PartialEq)]
pub enum ConsumerState {
    Active,
    Draining,
}

/// A point-in-time view of one durable consumer and its outstanding work.
#[derive(Clone, Debug, Eq, PartialEq)]
pub struct ConsumerSnapshot {
    pub name: String,
    pub filter: Filter,
    pub state: ConsumerState,
    pub created_at_ms: i64,
    pub draining_at_ms: Option<i64>,
    /// All unacknowledged deliveries, leased and delayed ones among them.
    pub outstanding: u64,
    /// Deliveries whose visibility time has arrived.
    pub ready: u64,
    /// Earliest future visibility time among outstanding deliveries.
    pub next_ready_at_ms: Option<i64>,
    /// Publish time of the oldest outstanding message.
    pub oldest_outstanding_at_ms: Option<i64>,
    /// Deliveries set aside in the archive.
    pub archived: u64,
}

impl ConsumerSnapshot {
    /// Whether this is what a consumer looks like at `now`.
    pub open spec fn describes(self, store: StoreView, consumer: ConsumerView, now: int) -> bool {
        &&& self.name@ == consumer.name
        &&& self.filter@ == consumer.filter
        &&& self.state is Draining <==> consumer.draining_at_ms is Some
        &&& self.created_at_ms == consumer.created_at_ms
        &&& crate::tables::widen(self.draining_at_ms) == consumer.draining_at_ms
        &&& self.outstanding == store.outstanding(consumer)
        &&& self.ready == store.ready(consumer, now)
        &&& crate::model::is_least(
            crate::tables::widen(self.next_ready_at_ms),
            store.hidden_times(consumer.id, now),
        )
        &&& crate::model::is_least(
            crate::tables::widen(self.oldest_outstanding_at_ms),
            store.outstanding_times(consumer),
        )
        &&& self.archived == store.archives.filter(
            crate::model::archived_by(consumer.id),
        ).len()
    }

    pub fn is_empty(&self) -> (empty: bool)
        ensures
            empty == (self.outstanding == 0),
    {
        self.outstanding == 0
    }

    pub fn is_drained(&self) -> (drained: bool)
        ensures
            drained == (self.state is Draining && self.outstanding == 0),
    {
        match self.state {
            ConsumerState::Draining => self.is_empty(),
            ConsumerState::Active => false,
        }
    }

    /// Outstanding deliveries that are still hidden.
    pub fn not_ready(&self) -> (hidden: u64)
        ensures
            hidden == if self.ready <= self.outstanding {
                self.outstanding - self.ready
            } else {
                0
            },
    {
        self.outstanding.saturating_sub(self.ready)
    }
}

/// A point-in-time view of the durable state owned by litefan.
#[derive(Clone, Debug, Eq, PartialEq)]
pub struct StoreSnapshot {
    pub retained_messages: u64,
    /// Stored ledger rows, expired rows awaiting the next keyed publish among them.
    pub idempotency_keys: u64,
    pub outstanding_deliveries: u64,
    pub archived_deliveries: u64,
    pub consumers: Vec<ConsumerSnapshot>,
}

impl StoreSnapshot {
    /// Whether this is what the log looks like at `now`: every consumer once, in
    /// the order of their names.
    pub open spec fn describes(self, store: StoreView, now: int) -> bool {
        &&& self.retained_messages == store.messages.len()
        &&& self.idempotency_keys == store.ledger.len()
        &&& self.outstanding_deliveries == store.total_outstanding(store.consumers.len() as int)
        &&& self.archived_deliveries == store.total_archived(store.consumers.len() as int)
        &&& self.consumers@.len() == store.consumers.len()
        &&& forall|i: int|
            0 <= i < self.consumers@.len() ==> {
                let snapshot = #[trigger] self.consumers@[i];
                &&& store.has_name(snapshot.name@)
                &&& snapshot.describes(store, store.named(snapshot.name@), now)
            }
        &&& forall|i: int, j: int|
            0 <= i < j < self.consumers@.len() ==> crate::model::name_before(
                (#[trigger] self.consumers@[i]).name@,
                (#[trigger] self.consumers@[j]).name@,
            )
    }
}

/// Safety policy for deleting a durable consumer identity.
#[derive(Clone, Copy, Debug, Eq, PartialEq)]
pub enum DeleteMode {
    /// Delete only after fan-out has stopped and every delivery is acknowledged.
    DrainedOnly,
    /// Delete immediately, discarding all outstanding deliveries.
    DiscardOutstanding,
    /// Delete immediately, discarding outstanding and archived deliveries.
    DiscardAll,
}

#[derive(Clone, Copy, Debug, Eq, PartialEq)]
pub struct DeleteOutcome {
    pub discarded_deliveries: u64,
    pub discarded_archives: u64,
}

/// Bounded message-retention cleanup options.
#[derive(Clone, Copy, Debug, Eq, PartialEq)]
pub struct Prune {
    /// Delete eligible messages published strictly before this Unix timestamp.
    pub before_ms: i64,
    /// Maximum messages to delete in one transaction.
    pub max_messages: usize,
}

#[derive(Clone, Copy, Debug, Eq, PartialEq)]
pub struct PruneOutcome {
    pub deleted_messages: usize,
}

impl Default for PruneOutcome {
    fn default() -> (outcome: Self)
        ensures
            outcome == (PruneOutcome { deleted_messages: 0 }),
    {
        PruneOutcome { deleted_messages: 0 }
    }
}

/// The stable identifier of one archived delivery.
#[derive(Clone, Copy, Debug, Eq, Hash, Ord, PartialEq, PartialOrd)]
pub struct ArchiveId(pub(crate) i64);

impl View for ArchiveId {
    type V = int;

    open(crate) spec fn view(&self) -> int {
        self.0 as int
    }
}

impl ArchiveId {
    pub fn get(self) -> (id: i64)
        ensures
            id == self@,
    {
        self.0
    }
}

/// An archived delivery, with its texts read as sequences.
pub struct ArchivedDeliveryView {
    pub id: int,
    pub message: MessageView,
    pub delivery_count: int,
    pub archived_at_ms: int,
    pub detail: Option<Seq<char>>,
}

/// A failed delivery that one consumer has set aside.
#[derive(Clone, Debug, Eq, PartialEq)]
pub struct ArchivedDelivery {
    pub id: ArchiveId,
    pub message: Message,
    /// Number of times the consumer had received the message.
    pub delivery_count: u64,
    pub archived_at_ms: i64,
    /// Why the delivery was set aside, where a reason was given.
    pub detail: Option<String>,
}

impl View for ArchivedDelivery {
    type V = ArchivedDeliveryView;

    open spec fn view(&self) -> ArchivedDeliveryView {
        ArchivedDeliveryView {
            id: self.id@,
            message: self.message@,
            delivery_count: self.delivery_count as int,
            archived_at_ms: self.archived_at_ms as int,
            detail: match self.detail {
                Some(detail) => Some(detail@),
                None => None,
            },
        }
    }
}

/// One page of a consumer's archive, in archive order.
#[derive(Clone, Copy, Debug)]
pub struct ListArchives {
    /// List only what follows this archived delivery.
    pub after: Option<ArchiveId>,
    pub max_archives: usize,
}

impl Default for ListArchives {
    fn default() -> (list: Self)
        ensures
            list.after is None,
            list.max_archives == 100,
    {
        ListArchives { after: None, max_archives: 100 }
    }
}

/// Bounded archive-retention cleanup options.
#[derive(Clone, Copy, Debug, Eq, PartialEq)]
pub struct PurgeArchives {
    /// Delete archives made strictly before this Unix timestamp.
    pub before_ms: i64,
    /// Maximum archives to delete in one transaction.
    pub max_archives: usize,
}

#[derive(Clone, Copy, Debug, Eq, PartialEq)]
pub struct PurgeArchivesOutcome {
    pub deleted_archives: usize,
}

impl Default for PurgeArchivesOutcome {
    fn default() -> (outcome: Self)
        ensures
            outcome == (PurgeArchivesOutcome { deleted_archives: 0 }),
    {
        PurgeArchivesOutcome { deleted_archives: 0 }
    }
}

} // verus!
