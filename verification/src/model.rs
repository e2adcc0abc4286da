//! The log as mathematics: its tables, what keeps them consistent, and what
//! each operation makes of them.
use vstd::prelude::*;

use crate::api::{
    ArchivedDeliveryView, DeleteMode, DeliveryView, MessageView, PublishOutcomeView, PublishView,
    ReceiptView,
};
use crate::error::ErrorView;
use crate::signals::WakeupView;
use crate::tables::{ArchiveView, ConsumerView, DeliveryRowView, LedgerView};

verus! {

/// Everything that a log holds. Each table is a sequence of rows in the order of
/// their insertion.
#[verifier::ext_equal]
pub struct StoreView {
    pub max_batch_size: nat,
    pub poll_interval_nanos: nat,
    pub idempotency_window_ms: int,
    pub messages: Seq<MessageView>,
    pub consumers: Seq<ConsumerView>,
    pub deliveries: Seq<DeliveryRowView>,
    pub ledger: Seq<LedgerView>,
    pub archives: Seq<ArchiveView>,
    /// The highest identifiers that were ever assigned: none is assigned twice.
    pub last_message_id: int,
    pub last_consumer_id: int,
    pub last_archive_id: int,
    /// The wakeups that have been raised and not yet taken.
    pub wakeups: Seq<WakeupView>,
}

/// Whether a filter lets a topic through. A message without a topic passes only
/// the filter for all messages.
pub open spec fn topic_matches(filter: Option<Seq<char>>, topic: Option<Seq<char>>) -> bool {
    filter is None || topic == filter
}

impl ConsumerView {
    /// Whether the message is still ahead of the consumer and meant for it.
    pub open spec fn wants(self, message: MessageView) -> bool {
        &&& self.scan_cursor < message.id
        &&& self.drain_cursor matches Some(limit) ==> message.id <= limit
        &&& topic_matches(self.filter, message.topic)
    }

    pub open spec fn wanted(self) -> spec_fn(MessageView) -> bool {
        |message: MessageView| self.wants(message)
    }
}

/// The least of some numbers, where there is any.
pub open spec fn is_least(least: Option<int>, numbers: Seq<int>) -> bool {
    match least {
        None => numbers.len() == 0,
        Some(number) => numbers.contains(number) && forall|i: int|
            0 <= i < numbers.len() ==> number <= #[trigger] numbers[i],
    }
}

/// Whether a byte string comes before another: at the first difference it has
/// the lower byte, or it has ended.
pub open spec fn bytes_before(left: Seq<u8>, right: Seq<u8>) -> bool {
    exists|k: int|
        {
            &&& 0 <= k <= left.len()
            &&& k < right.len()
            &&& #[trigger] left.take(k) == right.take(k)
            &&& k < left.len() ==> left[k] < right[k]
        }
}

/// The order of names: that of their UTF-8 bytes.
pub open spec fn name_before(left: Seq<char>, right: Seq<char>) -> bool {
    bytes_before(vstd::utf8::encode_utf8(left), vstd::utf8::encode_utf8(right))
}

/// The rows of one consumer.
pub open spec fn belongs_to(consumer_id: int) -> spec_fn(DeliveryRowView) -> bool {
    |row: DeliveryRowView| row.consumer_id == consumer_id
}

/// The rows of one consumer that a poll at `now` may lease.
pub open spec fn visible(consumer_id: int, now: int) -> spec_fn(DeliveryRowView) -> bool {
    |row: DeliveryRowView| row.consumer_id == consumer_id && row.visible_at_ms <= now
}

/// The rows of one consumer that are hidden at `now`.
pub open spec fn hidden(consumer_id: int, now: int) -> spec_fn(DeliveryRowView) -> bool {
    |row: DeliveryRowView| row.consumer_id == consumer_id && row.visible_at_ms > now
}

/// The rows that are retried before `row`: earlier visible, then lower identifier.
pub open spec fn ahead_of(row: DeliveryRowView) -> spec_fn(DeliveryRowView) -> bool {
    |other: DeliveryRowView|
        other.visible_at_ms < row.visible_at_ms || (other.visible_at_ms == row.visible_at_ms
            && other.message_id < row.message_id)
}

/// The rows of one consumer whose current receipt is among `receipts`.
pub open spec fn hit(consumer_id: int, receipts: Seq<ReceiptView>) -> spec_fn(
    DeliveryRowView,
) -> bool {
    |row: DeliveryRowView| row.consumer_id == consumer_id && receipts.contains(row.receipt())
}

/// The complement of a predicate.
pub open spec fn negate<A>(pred: spec_fn(A) -> bool) -> spec_fn(A) -> bool {
    |x: A| !pred(x)
}

/// The elements that are not among `others`.
pub open spec fn outside<A>(others: Seq<A>) -> spec_fn(A) -> bool {
    |x: A| !others.contains(x)
}

/// All consumers but one.
pub open spec fn other_than(consumer_id: int) -> spec_fn(ConsumerView) -> bool {
    |consumer: ConsumerView| consumer.id != consumer_id
}

/// The archives of one consumer that are among `ids`.
pub open spec fn chosen(consumer_id: int, ids: Seq<int>) -> spec_fn(ArchiveView) -> bool {
    |row: ArchiveView| row.consumer_id == consumer_id && ids.contains(row.id)
}

/// The archives of one consumer that follow the one with identifier `after`.
pub open spec fn listed(consumer_id: int, after: Option<int>) -> spec_fn(ArchiveView) -> bool {
    |row: ArchiveView|
        row.consumer_id == consumer_id && (after matches Some(after) ==> row.id > after)
}

/// The archives of one consumer that were made before `before_ms`.
pub open spec fn purgeable(consumer_id: int, before_ms: int) -> spec_fn(ArchiveView) -> bool {
    |row: ArchiveView| row.consumer_id == consumer_id && row.archived_at_ms < before_ms
}

/// The archives of one consumer.
pub open spec fn archived_by(consumer_id: int) -> spec_fn(ArchiveView) -> bool {
    |row: ArchiveView| row.consumer_id == consumer_id
}

/// The idempotency keys that still suppress a publish at `now`.
pub open spec fn unexpired(now: int) -> spec_fn(LedgerView) -> bool {
    |row: LedgerView| row.expires_at_ms > now
}

impl DeliveryRowView {
    /// The row under a new lease.
    pub open spec fn leased(self, deadline: int) -> DeliveryRowView {
        DeliveryRowView {
            visible_at_ms: deadline,
            generation: self.generation + 1,
            delivery_count: self.delivery_count + 1,
            ..self
        }
    }

    /// The row given back, for the next lease at `visible_at` or later.
    pub open spec fn released(self, visible_at: int) -> DeliveryRowView {
        DeliveryRowView { visible_at_ms: visible_at, generation: self.generation + 1, ..self }
    }

    /// The row under the same lease, hidden until `visible_at` at least.
    pub open spec fn extended(self, visible_at: int) -> DeliveryRowView {
        DeliveryRowView {
            visible_at_ms: if self.visible_at_ms < visible_at {
                visible_at
            } else {
                self.visible_at_ms
            },
            ..self
        }
    }
}

/// The topics of a batch, each once, in the order of their first occurrence.
pub open spec fn distinct_topics(topics: Seq<Option<Seq<char>>>) -> Seq<Seq<char>>
    decreases topics.len(),
{
    if topics.len() == 0 {
        Seq::empty()
    } else {
        let earlier = distinct_topics(topics.drop_last());
        match topics.last() {
            Some(topic) => if earlier.contains(topic) {
                earlier
            } else {
                earlier.push(topic)
            },
            None => earlier,
        }
    }
}

/// The wakeups of a publish: everyone who receives every message, and everyone
/// who receives one of the topics.
pub open spec fn publish_wakeups(topics: Seq<Option<Seq<char>>>) -> Seq<WakeupView> {
    seq![WakeupView::Publishes] + distinct_topics(topics).map_values(
        |topic: Seq<char>| WakeupView::Topic(topic),
    )
}

impl StoreView {
    // Lookups
    pub open spec fn has_consumer(self, id: int) -> bool {
        exists|i: int| 0 <= i < self.consumers.len() && #[trigger] self.consumers[i].id == id
    }

    pub open spec fn consumer_index(self, id: int) -> int {
        choose|i: int| 0 <= i < self.consumers.len() && #[trigger] self.consumers[i].id == id
    }

    /// The consumer with this identifier.
    pub open spec fn consumer(self, id: int) -> ConsumerView {
        self.consumers[self.consumer_index(id)]
    }

    pub open spec fn has_name(self, name: Seq<char>) -> bool {
        exists|i: int| 0 <= i < self.consumers.len() && #[trigger] self.consumers[i].name == name
    }

    /// The consumer with this name.
    pub open spec fn named(self, name: Seq<char>) -> ConsumerView {
        self.consumers[choose|i: int|
            0 <= i < self.consumers.len() && #[trigger] self.consumers[i].name == name]
    }

    pub open spec fn has_message(self, id: int) -> bool {
        exists|i: int| 0 <= i < self.messages.len() && #[trigger] self.messages[i].id == id
    }

    /// The message with this identifier.
    pub open spec fn message(self, id: int) -> MessageView {
        self.messages[choose|i: int|
            0 <= i < self.messages.len() && #[trigger] self.messages[i].id == id]
    }

    /// The highest identifier among the retained messages, or zero.
    pub open spec fn high_water(self) -> int {
        if self.messages.len() == 0 {
            0
        } else {
            self.messages.last().id
        }
    }

    /// How far a consumer may scan.
    pub open spec fn scan_limit(self, consumer: ConsumerView) -> int {
        match consumer.drain_cursor {
            Some(limit) => limit,
            None => self.high_water(),
        }
    }

    // What the tables demand
    /// The limits are valid, and every table holds what its keys, unique columns
    /// and checks allow.
    pub open spec fn wf(self) -> bool {
        &&& 0 < self.max_batch_size <= i64::MAX
        &&& 0 < self.poll_interval_nanos
        &&& 0 < self.idempotency_window_ms <= i64::MAX
        &&& self.messages_wf()
        &&& self.consumers_wf()
        &&& self.deliveries_wf()
        &&& self.ledger_wf()
        &&& self.archives_wf()
    }

    pub open spec fn messages_wf(self) -> bool {
        &&& self.last_message_id <= i64::MAX
        &&& forall|i: int|
            0 <= i < self.messages.len() ==> #[trigger] self.messages[i].id <= self.last_message_id
        &&& forall|i: int, j: int|
            0 <= i < j < self.messages.len() ==> #[trigger] self.messages[i].id
                < #[trigger] self.messages[j].id
    }

    /// A cursor is never negative, and never past the limit of draining.
    pub open spec fn consumer_wf(self, consumer: ConsumerView) -> bool {
        &&& consumer.id <= self.last_consumer_id
        &&& 0 <= consumer.scan_cursor
        &&& consumer.drain_cursor matches Some(limit) ==> consumer.scan_cursor <= limit
    }

    pub open spec fn consumers_wf(self) -> bool {
        &&& self.last_consumer_id <= i64::MAX
        &&& forall|i: int|
            0 <= i < self.consumers.len() ==> self.consumer_wf(#[trigger] self.consumers[i])
        &&& forall|i: int, j: int|
            0 <= i < j < self.consumers.len() ==> #[trigger] self.consumers[i].id
                < #[trigger] self.consumers[j].id
        &&& forall|i: int, j: int|
            0 <= i < j < self.consumers.len() ==> #[trigger] self.consumers[i].name
                != #[trigger] self.consumers[j].name
    }

    pub open spec fn deliveries_wf(self) -> bool {
        &&& forall|i: int|
            0 <= i < self.deliveries.len() ==> {
                let row = #[trigger] self.deliveries[i];
                &&& 0 <= row.generation
                &&& 0 <= row.delivery_count
            }
        &&& forall|i: int, j: int|
            0 <= i < j < self.deliveries.len() ==> {
                ||| #[trigger] self.deliveries[i].consumer_id
                    != #[trigger] self.deliveries[j].consumer_id
                ||| self.deliveries[i].message_id != self.deliveries[j].message_id
            }
    }

    pub open spec fn ledger_wf(self) -> bool {
        forall|i: int, j: int|
            0 <= i < j < self.ledger.len() ==> #[trigger] self.ledger[i].key
                != #[trigger] self.ledger[j].key
    }

    pub open spec fn archives_wf(self) -> bool {
        &&& self.last_archive_id <= i64::MAX
        &&& forall|i: int|
            0 <= i < self.archives.len() ==> {
                let row = #[trigger] self.archives[i];
                &&& row.id <= self.last_archive_id
                &&& 0 <= row.generation
                &&& 0 <= row.delivery_count
            }
        &&& forall|i: int, j: int|
            0 <= i < j < self.archives.len() ==> #[trigger] self.archives[i].id
                < #[trigger] self.archives[j].id
        &&& forall|i: int, j: int|
            0 <= i < j < self.archives.len() ==> {
                ||| #[trigger] self.archives[i].consumer_id
                    != #[trigger] self.archives[j].consumer_id
                ||| self.archives[i].message_id != self.archives[j].message_id
            }
    }

    // What the log keeps
    /// The rows agree with each other. A new log is consistent and every operation
    /// keeps it so, but the operations do not rely on it: rows that were put into
    /// the tables by other means may disagree.
    pub open spec fn consistent(self) -> bool {
        &&& self.wf()
        &&& self.messages_agree()
        &&& self.consumers_agree()
        &&& self.deliveries_agree()
        &&& self.ledger_agrees()
        &&& self.archives_agree()
    }

    /// Identifiers are counted from one.
    pub open spec fn messages_agree(self) -> bool {
        &&& 0 <= self.last_message_id
        &&& forall|i: int|
            0 <= i < self.messages.len() ==> 0 < #[trigger] self.messages[i].id
    }

    /// The cursors of a consumer stand inside the log, and draining has a limit.
    pub open spec fn consumer_agrees(self, consumer: ConsumerView) -> bool {
        &&& consumer.scan_cursor <= self.last_message_id
        &&& consumer.draining_at_ms is Some <==> consumer.drain_cursor is Some
        &&& consumer.drain_cursor matches Some(limit) ==> limit <= self.last_message_id
    }

    pub open spec fn consumers_agree(self) -> bool {
        forall|i: int|
            0 <= i < self.consumers.len() ==> self.consumer_agrees(#[trigger] self.consumers[i])
    }

    /// A copy belongs to a consumer that has scanned past its message and
    /// receives its topic.
    pub open spec fn is_copy(self, consumer_id: int, message_id: int) -> bool {
        &&& self.has_consumer(consumer_id)
        &&& self.has_message(message_id)
        &&& message_id <= self.consumer(consumer_id).scan_cursor
        &&& topic_matches(self.consumer(consumer_id).filter, self.message(message_id).topic)
    }

    pub open spec fn deliveries_agree(self) -> bool {
        forall|i: int|
            0 <= i < self.deliveries.len() ==> {
                let row = #[trigger] self.deliveries[i];
                self.is_copy(row.consumer_id, row.message_id)
            }
    }

    pub open spec fn ledger_agrees(self) -> bool {
        forall|i: int|
            0 <= i < self.ledger.len() ==> (#[trigger] self.ledger[i].message_id matches Some(id)
                ==> id <= self.last_message_id)
    }

    /// An archived copy is not among the deliveries.
    pub open spec fn archives_agree(self) -> bool {
        &&& forall|i: int|
            0 <= i < self.archives.len() ==> {
                let row = #[trigger] self.archives[i];
                self.is_copy(row.consumer_id, row.message_id)
            }
        &&& forall|i: int, j: int|
            0 <= i < self.archives.len() && 0 <= j < self.deliveries.len() ==> {
                ||| #[trigger] self.archives[i].consumer_id
                    != #[trigger] self.deliveries[j].consumer_id
                ||| self.archives[i].message_id != self.deliveries[j].message_id
            }
    }

    // Opening and draining
    /// The identifier that opening a consumer yields. A new one cannot start where
    /// its cursor would be negative.
    pub open spec fn open_outcome(
        self,
        name: Seq<char>,
        filter: Option<Seq<char>>,
        clock: Result<int, ErrorView>,
    ) -> Result<int, ErrorView> {
        if name.len() == 0 {
            Err(ErrorView::EmptyConsumerName)
        } else {
            match clock {
                Err(error) => Err(error),
                Ok(_) => if self.has_name(name) {
                    if self.named(name).filter == filter {
                        Ok(self.named(name).id)
                    } else {
                        Err(ErrorView::ConsumerConfigurationMismatch { name })
                    }
                } else if self.last_consumer_id == i64::MAX {
                    Err(ErrorView::CounterOutOfRange)
                } else if self.high_water() < 0 {
                    Err(ErrorView::StorageInvariant("a scan cursor cannot be negative"@))
                } else {
                    Ok(self.last_consumer_id + 1)
                },
            }
        }
    }

    /// The log with a consumer of this name. A new one starts after the
    /// retained messages.
    pub open spec fn opened(self, name: Seq<char>, filter: Option<Seq<char>>, now: int) -> Self {
        if self.has_name(name) {
            self
        } else {
            StoreView {
                consumers: self.consumers.push(
                    ConsumerView {
                        id: self.last_consumer_id + 1,
                        name,
                        filter,
                        created_at_ms: now,
                        draining_at_ms: None,
                        scan_cursor: self.high_water(),
                        drain_cursor: None,
                    },
                ),
                last_consumer_id: self.last_consumer_id + 1,
                ..self
            }
        }
    }

    /// Whether beginning to drain changes the consumer.
    pub open spec fn drain_outcome(
        self,
        id: int,
        name: Seq<char>,
        clock: Result<int, ErrorView>,
    ) -> Result<bool, ErrorView> {
        match clock {
            Err(error) => Err(error),
            Ok(_) => if self.has_consumer(id) {
                Ok(self.consumer(id).draining_at_ms is None)
            } else {
                Err(ErrorView::ConsumerDeleted { name })
            },
        }
    }

    /// The log once the active consumer has a final position.
    pub open spec fn drained(self, id: int, now: int) -> Self {
        let consumer = self.consumer(id);
        let limit = if consumer.scan_cursor < self.high_water() {
            self.high_water()
        } else {
            consumer.scan_cursor
        };
        StoreView {
            consumers: self.consumers.update(
                self.consumer_index(id),
                ConsumerView {
                    draining_at_ms: Some(now),
                    drain_cursor: Some(limit),
                    ..consumer
                },
            ),
            wakeups: self.wakeups.push(WakeupView::Consumer(id)),
            ..self
        }
    }

    // Receipts
    /// The deliveries that a receipt batch touches.
    pub open spec fn hits(self, id: int, receipts: Seq<ReceiptView>) -> Seq<DeliveryRowView> {
        self.deliveries.filter(hit(id, receipts))
    }

    /// Why a receipt batch is refused before anything is touched.
    pub open spec fn batch_error(self, requested: nat) -> Option<ErrorView> {
        if requested > self.max_batch_size {
            Some(ErrorView::BatchTooLarge { requested, maximum: self.max_batch_size })
        } else {
            None
        }
    }

    pub open spec fn acked(self, id: int, receipts: Seq<ReceiptView>) -> Self {
        StoreView { deliveries: self.deliveries.filter(negate(hit(id, receipts))), ..self }
    }

    /// When deliveries that are given back after a delay become visible. The rows
    /// have no part in this.
    pub open spec fn release_time(
        self,
        requested: nat,
        delay_nanos: nat,
        clock: Result<int, ErrorView>,
    ) -> Result<int, ErrorView> {
        match (self.batch_error(requested), clock) {
            (Some(error), _) => Err(error),
            (None, Err(error)) => Err(error),
            (None, Ok(now)) => crate::time::later(now, delay_nanos),
        }
    }

    /// When nacked deliveries become visible again.
    pub open spec fn nack_time(
        self,
        id: int,
        receipts: Seq<ReceiptView>,
        delay_nanos: nat,
        clock: Result<int, ErrorView>,
    ) -> Result<int, ErrorView> {
        match self.release_time(receipts.len(), delay_nanos, clock) {
            Err(error) => Err(error),
            Ok(visible_at) => if exists|i: int|
                0 <= i < self.hits(id, receipts).len() && #[trigger] self.hits(
                    id,
                    receipts,
                )[i].generation == i64::MAX {
                Err(ErrorView::CounterOutOfRange)
            } else {
                Ok(visible_at)
            },
        }
    }

    pub open spec fn nacked(self, id: int, receipts: Seq<ReceiptView>, visible_at: int) -> Self {
        StoreView {
            deliveries: self.deliveries.map_values(
                |row: DeliveryRowView|
                    if hit(id, receipts)(row) {
                        row.released(visible_at)
                    } else {
                        row
                    },
            ),
            wakeups: if self.hits(id, receipts).len() > 0 {
                self.wakeups.push(WakeupView::Consumer(id))
            } else {
                self.wakeups
            },
            ..self
        }
    }

    /// Until when extended deliveries stay hidden. The rows have no part in this.
    pub open spec fn extension_time(
        self,
        requested: nat,
        timeout_nanos: nat,
        clock: Result<int, ErrorView>,
    ) -> Result<int, ErrorView> {
        match self.batch_error(requested) {
            Some(error) => Err(error),
            None => if timeout_nanos / 1_000_000 > i64::MAX {
                Err(ErrorView::DurationOutOfRange)
            } else if timeout_nanos / 1_000_000 == 0 {
                Err(ErrorView::InvalidVisibilityTimeout)
            } else {
                match clock {
                    Err(error) => Err(error),
                    Ok(now) => crate::time::later(now, timeout_nanos),
                }
            },
        }
    }

    pub open spec fn extended(self, id: int, receipts: Seq<ReceiptView>, visible_at: int) -> Self {
        StoreView {
            deliveries: self.deliveries.map_values(
                |row: DeliveryRowView|
                    if hit(id, receipts)(row) {
                        row.extended(visible_at)
                    } else {
                        row
                    },
            ),
            ..self
        }
    }

    // Claiming
    /// The number of visible deliveries that are retried before `row`.
    pub open spec fn rank(self, id: int, now: int, row: DeliveryRowView) -> nat {
        self.deliveries.filter(visible(id, now)).filter(ahead_of(row)).len()
    }

    /// The visible deliveries that a claim of at most `max` messages leases again.
    pub open spec fn retried(self, id: int, now: int, max: nat) -> spec_fn(
        DeliveryRowView,
    ) -> bool {
        |row: DeliveryRowView| visible(id, now)(row) && self.rank(id, now, row) < max
    }

    pub open spec fn retries(self, id: int, now: int, max: nat) -> Seq<DeliveryRowView> {
        self.deliveries.filter(self.retried(id, now, max))
    }

    /// How many new messages a claim may materialize after its retries.
    pub open spec fn room(self, id: int, now: int, max: nat) -> nat {
        if self.retries(id, now, max).len() < max {
            (max - self.retries(id, now, max).len()) as nat
        } else {
            0
        }
    }

    /// The messages that a claim materializes: the first ones ahead of the
    /// consumer that are meant for it.
    pub open spec fn fresh(self, id: int, now: int, max: nat) -> Seq<MessageView> {
        first(self.messages.filter(self.consumer(id).wanted()), self.room(id, now, max))
    }

    /// Where the consumer stands after a claim: at the last message that it took,
    /// or at the end of what it may scan where nothing more is meant for it.
    pub open spec fn advanced_cursor(self, id: int, now: int, max: nat) -> int {
        let consumer = self.consumer(id);
        let room = self.room(id, now, max);
        let fresh = self.fresh(id, now, max);
        if room == 0 || consumer.scan_cursor >= self.scan_limit(consumer) {
            consumer.scan_cursor
        } else if fresh.len() < room {
            self.scan_limit(consumer)
        } else {
            fresh.last().id
        }
    }

    /// Why a poll for at least one message is refused before it looks for any.
    pub open spec fn poll_refusal(
        self,
        max: nat,
        timeout_nanos: nat,
        deadline_fits: bool,
    ) -> Option<ErrorView> {
        match self.batch_error(max) {
            Some(error) => Some(error),
            None => if timeout_nanos / 1_000_000 > i64::MAX {
                Some(ErrorView::DurationOutOfRange)
            } else if timeout_nanos / 1_000_000 == 0 {
                Some(ErrorView::InvalidVisibilityTimeout)
            } else if !deadline_fits {
                Some(ErrorView::InvalidPoll("wait is too large"@))
            } else {
                None
            },
        }
    }

    /// How long an empty-handed poll sleeps before it looks again: no longer than
    /// it may wait, than the poll interval, and than the next delivery is hidden.
    pub open spec fn sleep_nanos(
        self,
        next_visible_at: Option<int>,
        remaining_nanos: nat,
        now: int,
    ) -> nat {
        let short = if remaining_nanos < self.poll_interval_nanos {
            remaining_nanos
        } else {
            self.poll_interval_nanos
        };
        match next_visible_at {
            None => short,
            Some(time) => if time <= now {
                0
            } else if (time - now) * 1_000_000 < short {
                ((time - now) * 1_000_000) as nat
            } else {
                short
            },
        }
    }

    /// Whether a poll finds neither a visible delivery nor an unscanned message.
    pub open spec fn idle(self, id: int, now: int) -> bool {
        &&& self.deliveries.filter(visible(id, now)).len() == 0
        &&& self.consumer(id).scan_cursor >= self.scan_limit(self.consumer(id))
    }

    /// Whether a claim would materialize a message whose delivery is already there,
    /// which the key of the table does not allow.
    pub open spec fn collides(self, id: int, now: int, max: nat) -> bool {
        exists|k: int|
            0 <= k < self.fresh(id, now, max).len() && self.is_materialized(
                id,
                (#[trigger] self.fresh(id, now, max)[k]).id,
            )
    }

    /// Whether a claim leases a delivery again whose message is gone.
    pub open spec fn dangles(self, id: int, now: int, max: nat) -> bool {
        exists|i: int|
            0 <= i < self.retries(id, now, max).len() && !self.has_message(
                (#[trigger] self.retries(id, now, max)[i]).message_id,
            )
    }

    /// Why a claim fails and changes nothing.
    pub open spec fn claim_error(
        self,
        id: int,
        name: Seq<char>,
        max: nat,
        lease_ms: int,
        clock: Result<int, ErrorView>,
    ) -> Option<ErrorView> {
        match clock {
            Err(error) => Some(error),
            Ok(now) => if !self.has_consumer(id) {
                Some(ErrorView::ConsumerDeleted { name })
            } else if self.idle(id, now) {
                None
            } else if !(i64::MIN <= now + lease_ms <= i64::MAX) {
                Some(ErrorView::DurationOutOfRange)
            } else if max > i64::MAX {
                Some(ErrorView::InvalidPoll("max_messages is too large"@))
            } else if exists|i: int|
                0 <= i < self.retries(id, now, max).len() && {
                    let row = #[trigger] self.retries(id, now, max)[i];
                    row.generation == i64::MAX || row.delivery_count == i64::MAX
                } {
                Some(ErrorView::CounterOutOfRange)
            } else if self.collides(id, now, max) {
                Some(ErrorView::StorageInvariant("a new delivery already exists"@))
            } else {
                None
            },
        }
    }

    /// Why a claim reports no deliveries though it has leased them.
    pub open spec fn hand_out_error(self, id: int, now: int, max: nat) -> Option<ErrorView> {
        if self.dangles(id, now, max) {
            Some(ErrorView::StorageInvariant("a claimed delivery has no matching message"@))
        } else {
            None
        }
    }

    /// The leases of a claim: the retries, then the new deliveries.
    pub open spec fn leases(self, id: int, now: int, max: nat, deadline: int) -> Seq<
        DeliveryRowView,
    > {
        self.retries(id, now, max).map_values(|row: DeliveryRowView| row.leased(deadline))
            + self.fresh(id, now, max).map_values(
            |message: MessageView| first_delivery(id, message, deadline),
        )
    }

    /// The log after a claim.
    pub open spec fn claimed(self, id: int, now: int, max: nat, deadline: int) -> Self {
        StoreView {
            consumers: self.consumers.update(
                self.consumer_index(id),
                ConsumerView {
                    scan_cursor: self.advanced_cursor(id, now, max),
                    ..self.consumer(id)
                },
            ),
            deliveries: self.deliveries.map_values(
                |row: DeliveryRowView|
                    if self.retried(id, now, max)(row) {
                        row.leased(deadline)
                    } else {
                        row
                    },
            ) + self.fresh(id, now, max).map_values(
                |message: MessageView| first_delivery(id, message, deadline),
            ),
            ..self
        }
    }

    /// What a claim hands out: a delivery for every leased message, in the order
    /// of the messages.
    pub open spec fn claimed_deliveries(
        self,
        id: int,
        now: int,
        max: nat,
        deadline: int,
    ) -> Seq<DeliveryView> {
        let leases = self.leases(id, now, max, deadline);
        self.messages.filter(leased_in(leases)).map_values(
            |message: MessageView| handed_out(leases, message),
        )
    }

    // Snapshots
    /// The messages ahead of a consumer that are meant for it.
    pub open spec fn unscanned(self, consumer: ConsumerView) -> Seq<MessageView> {
        self.messages.filter(consumer.wanted())
    }

    /// The number of unacknowledged copies, materialized or not.
    pub open spec fn outstanding(self, consumer: ConsumerView) -> nat {
        self.deliveries.filter(belongs_to(consumer.id)).len() + self.unscanned(consumer).len()
    }

    /// Whether a message has an unacknowledged copy, materialized or not.
    pub open spec fn is_outstanding(self, consumer: ConsumerView, message: MessageView) -> bool {
        consumer.wants(message) || self.is_materialized(consumer.id, message.id)
    }

    pub open spec fn outstanding_for(self, consumer: ConsumerView) -> spec_fn(MessageView) -> bool {
        |message: MessageView| self.is_outstanding(consumer, message)
    }

    /// Whether a consumer has claimed the message and not yet let go of it.
    pub open spec fn is_materialized(self, consumer_id: int, message_id: int) -> bool {
        exists|i: int|
            0 <= i < self.deliveries.len() && #[trigger] self.deliveries[i].consumer_id
                == consumer_id && self.deliveries[i].message_id == message_id
    }

    /// The publish times of the messages with an unacknowledged copy.
    pub open spec fn outstanding_times(self, consumer: ConsumerView) -> Seq<int> {
        self.messages.filter(self.outstanding_for(consumer)).map_values(
            |message: MessageView| message.published_at_ms,
        )
    }

    /// When the hidden deliveries of a consumer become visible.
    pub open spec fn hidden_times(self, id: int, now: int) -> Seq<int> {
        self.deliveries.filter(hidden(id, now)).map_values(
            |row: DeliveryRowView| row.visible_at_ms,
        )
    }

    /// When the deliveries of a consumer are visible.
    pub open spec fn visible_times(self, id: int) -> Seq<int> {
        self.deliveries.filter(belongs_to(id)).map_values(
            |row: DeliveryRowView| row.visible_at_ms,
        )
    }

    /// The number of visible copies and of messages ahead.
    pub open spec fn ready(self, consumer: ConsumerView, now: int) -> nat {
        self.deliveries.filter(visible(consumer.id, now)).len() + self.unscanned(consumer).len()
    }

    /// Why a consumer cannot be inspected.
    pub open spec fn snapshot_error(
        self,
        id: int,
        name: Seq<char>,
        clock: Result<int, ErrorView>,
    ) -> Option<ErrorView> {
        match clock {
            Err(error) => Some(error),
            Ok(_) => if !self.has_consumer(id) {
                Some(ErrorView::ConsumerDeleted { name })
            } else if self.outstanding(self.consumer(id)) > u64::MAX {
                Some(ErrorView::CounterOutOfRange)
            } else {
                None
            },
        }
    }

    /// The outstanding copies of the first `n` consumers together.
    pub open spec fn total_outstanding(self, n: int) -> nat
        decreases n,
    {
        if n <= 0 {
            0
        } else {
            self.total_outstanding(n - 1) + self.outstanding(self.consumers[n - 1])
        }
    }

    /// The archives of the first `n` consumers together.
    pub open spec fn total_archived(self, n: int) -> nat
        decreases n,
    {
        if n <= 0 {
            0
        } else {
            self.total_archived(n - 1) + self.archives.filter(
                archived_by(self.consumers[n - 1].id),
            ).len()
        }
    }

    /// Why the log cannot be inspected.
    pub open spec fn store_snapshot_error(self, clock: Result<int, ErrorView>) -> Option<
        ErrorView,
    > {
        let n = self.consumers.len() as int;
        match clock {
            Err(error) => Some(error),
            Ok(_) => if self.total_outstanding(n) > u64::MAX || self.total_archived(n) > u64::MAX {
                Some(ErrorView::CounterOutOfRange)
            } else {
                None
            },
        }
    }

    // Publishing
    pub open spec fn has_key(self, key: Seq<u8>) -> bool {
        exists|i: int| 0 <= i < self.ledger.len() && #[trigger] self.ledger[i].key == key
    }

    pub open spec fn key_index(self, key: Seq<u8>) -> int {
        choose|i: int| 0 <= i < self.ledger.len() && #[trigger] self.ledger[i].key == key
    }

    /// The message that was published under a key.
    pub open spec fn message_of_key(self, key: Option<Seq<u8>>) -> Option<int> {
        match key {
            Some(key) => if self.has_key(key) {
                self.ledger[self.key_index(key)].message_id
            } else {
                None
            },
            None => None,
        }
    }

    /// The ledger with `key` standing for the message `id`. An entry that is
    /// already there keeps its expiry.
    pub open spec fn recorded(self, key: Option<Seq<u8>>, id: int, expires_at: int) -> Seq<
        LedgerView,
    > {
        match key {
            None => self.ledger,
            Some(key) => if self.has_key(key) {
                self.ledger.update(
                    self.key_index(key),
                    LedgerView { message_id: Some(id), ..self.ledger[self.key_index(key)] },
                )
            } else {
                self.ledger.push(
                    LedgerView { key, message_id: Some(id), expires_at_ms: expires_at },
                )
            },
        }
    }

    /// The outcome of publishing one message.
    pub open spec fn publish_one_outcome(self, publish: PublishView) -> PublishOutcomeView {
        match self.message_of_key(publish.idempotency_key) {
            Some(id) => PublishOutcomeView::Duplicate { id },
            None => PublishOutcomeView::Published { id: self.last_message_id + 1 },
        }
    }

    /// The log after publishing one message: unchanged where its key already
    /// stands for a message.
    pub open spec fn published_one(self, publish: PublishView, now: int, expires_at: int) -> Self {
        match self.message_of_key(publish.idempotency_key) {
            Some(_) => self,
            None => StoreView {
                messages: self.messages.push(
                    MessageView {
                        id: self.last_message_id + 1,
                        topic: publish.topic,
                        body: publish.body,
                        published_at_ms: now,
                    },
                ),
                ledger: self.recorded(
                    publish.idempotency_key,
                    self.last_message_id + 1,
                    expires_at,
                ),
                last_message_id: self.last_message_id + 1,
                ..self
            },
        }
    }

    /// The log after publishing the messages of a batch one after the other.
    pub open spec fn published_all(
        self,
        batch: Seq<PublishView>,
        now: int,
        expires_at: int,
    ) -> Self
        decreases batch.len(),
    {
        if batch.len() == 0 {
            self
        } else {
            self.published_all(batch.drop_last(), now, expires_at).published_one(
                batch.last(),
                now,
                expires_at,
            )
        }
    }

    /// The outcomes of publishing the messages of a batch one after the other.
    pub open spec fn publish_outcomes(
        self,
        batch: Seq<PublishView>,
        now: int,
        expires_at: int,
    ) -> Seq<PublishOutcomeView>
        decreases batch.len(),
    {
        if batch.len() == 0 {
            Seq::empty()
        } else {
            self.publish_outcomes(batch.drop_last(), now, expires_at).push(
                self.published_all(
                    batch.drop_last(),
                    now,
                    expires_at,
                ).publish_one_outcome(batch.last()),
            )
        }
    }

    /// The log without the idempotency keys that have expired.
    pub open spec fn without_expired(self, now: int) -> Self {
        StoreView { ledger: self.ledger.filter(unexpired(now)), ..self }
    }

    /// What a publish starts from: a batch with a key first drops expired keys.
    pub open spec fn publish_base(self, batch: Seq<PublishView>, now: int) -> Self {
        if has_keys(batch) {
            self.without_expired(now)
        } else {
            self
        }
    }

    /// When the idempotency keys of a batch expire.
    pub open spec fn expiry(self, now: int) -> int {
        now + self.idempotency_window_ms
    }

    /// The log after a batch, before anyone is woken.
    pub open spec fn published_tables(self, batch: Seq<PublishView>, now: int) -> Self {
        self.publish_base(batch, now).published_all(batch, now, self.expiry(now))
    }

    /// Why a nonempty batch is refused before anything is looked up.
    pub open spec fn publish_refusal(
        self,
        batch: Seq<PublishView>,
        clock: Result<int, ErrorView>,
    ) -> Option<ErrorView> {
        match (self.batch_error(batch.len()), clock) {
            (Some(error), _) => Some(error),
            (None, Err(error)) => Some(error),
            (None, Ok(now)) => if has_keys(batch) && self.expiry(now) > i64::MAX {
                Some(ErrorView::DurationOutOfRange)
            } else {
                None
            },
        }
    }

    /// Why a nonempty batch is not published.
    pub open spec fn publish_error(
        self,
        batch: Seq<PublishView>,
        clock: Result<int, ErrorView>,
    ) -> Option<ErrorView> {
        match self.publish_refusal(batch, clock) {
            Some(error) => Some(error),
            None => if self.published_tables(batch, clock->Ok_0).last_message_id > i64::MAX {
                Some(ErrorView::CounterOutOfRange)
            } else {
                None
            },
        }
    }

    /// The log after a batch.
    pub open spec fn published(self, batch: Seq<PublishView>, now: int) -> Self {
        let after = self.published_tables(batch, now);
        let inserted = after.messages.skip(self.messages.len() as int);
        StoreView {
            wakeups: if inserted.len() > 0 {
                self.wakeups + publish_wakeups(
                    inserted.map_values(|message: MessageView| message.topic),
                )
            } else {
                self.wakeups
            },
            ..after
        }
    }

    // Deletion and retention
    /// Why a consumer is not deleted.
    pub open spec fn delete_error(self, name: Seq<char>, mode: DeleteMode) -> Option<ErrorView> {
        if !self.has_name(name) {
            Some(ErrorView::ConsumerNotFound { name })
        } else {
            let consumer = self.named(name);
            let outstanding = self.outstanding(consumer);
            let archived = self.archives.filter(archived_by(consumer.id)).len();
            if outstanding > u64::MAX {
                Some(ErrorView::CounterOutOfRange)
            } else if mode is DrainedOnly && consumer.draining_at_ms is None {
                Some(ErrorView::ConsumerNotDraining { name })
            } else if mode is DrainedOnly && outstanding > 0 {
                Some(ErrorView::ConsumerNotEmpty { name, outstanding })
            } else if !(mode is DiscardAll) && archived > 0 {
                Some(ErrorView::ConsumerHasArchives { name, archived })
            } else {
                None
            }
        }
    }

    /// The log without a consumer and everything that belongs to it.
    pub open spec fn without_consumer(self, id: int) -> Self {
        StoreView {
            consumers: self.consumers.filter(other_than(id)),
            deliveries: self.deliveries.filter(negate(belongs_to(id))),
            archives: self.archives.filter(negate(archived_by(id))),
            wakeups: self.wakeups.push(WakeupView::Consumer(id)),
            ..self
        }
    }

    /// Whether any consumer still has a use for the message.
    pub open spec fn is_referenced(self, message: MessageView) -> bool {
        ||| exists|i: int|
            0 <= i < self.deliveries.len() && #[trigger] self.deliveries[i].message_id
                == message.id
        ||| exists|i: int|
            0 <= i < self.archives.len() && #[trigger] self.archives[i].message_id == message.id
        ||| exists|i: int|
            0 <= i < self.consumers.len() && #[trigger] self.consumers[i].wants(message)
    }

    /// The old messages that no consumer has a use for.
    pub open spec fn prunable(self, before_ms: int) -> spec_fn(MessageView) -> bool {
        |message: MessageView|
            message.published_at_ms < before_ms && !self.is_referenced(message)
    }

    /// The messages that pruning removes: the first `max` prunable ones.
    pub open spec fn doomed(self, before_ms: int, max: nat) -> Seq<MessageView> {
        first(self.messages.filter(self.prunable(before_ms)), max)
    }

    /// The log without the messages that pruning removes.
    pub open spec fn pruned(self, before_ms: int, max: nat) -> Self {
        StoreView {
            messages: self.messages.filter(outside(self.doomed(before_ms, max))),
            ..self
        }
    }

    // Archives
    /// The archive entries of a receipt batch.
    pub open spec fn new_archives(
        self,
        id: int,
        receipts: Seq<ReceiptView>,
        detail: Option<Seq<char>>,
        now: int,
    ) -> Seq<ArchiveView> {
        let hits = self.hits(id, receipts);
        Seq::new(
            hits.len(),
            |k: int|
                ArchiveView {
                    id: self.last_archive_id + 1 + k,
                    consumer_id: hits[k].consumer_id,
                    message_id: hits[k].message_id,
                    generation: hits[k].generation,
                    delivery_count: hits[k].delivery_count,
                    archived_at_ms: now,
                    detail,
                },
        )
    }

    /// Whether a consumer has set the message aside.
    pub open spec fn is_archived(self, consumer_id: int, message_id: int) -> bool {
        exists|i: int|
            0 <= i < self.archives.len() && #[trigger] self.archives[i].consumer_id == consumer_id
                && self.archives[i].message_id == message_id
    }

    /// Whether a receipt batch touches a delivery that is already archived, which
    /// the table does not allow.
    pub open spec fn rearchives(self, id: int, receipts: Seq<ReceiptView>) -> bool {
        exists|k: int|
            0 <= k < self.hits(id, receipts).len() && self.is_archived(
                id,
                (#[trigger] self.hits(id, receipts)[k]).message_id,
            )
    }

    /// Why a nonempty receipt batch is not archived.
    pub open spec fn archive_error(
        self,
        id: int,
        receipts: Seq<ReceiptView>,
        clock: Result<int, ErrorView>,
    ) -> Option<ErrorView> {
        match (self.batch_error(receipts.len()), clock) {
            (Some(error), _) => Some(error),
            (None, Err(error)) => Some(error),
            (None, Ok(_)) => if self.last_archive_id + self.hits(id, receipts).len() > i64::MAX {
                Some(ErrorView::CounterOutOfRange)
            } else if self.rearchives(id, receipts) {
                Some(ErrorView::StorageInvariant("a delivery is already archived"@))
            } else {
                None
            },
        }
    }

    /// The log with the touched deliveries set aside.
    pub open spec fn archived(
        self,
        id: int,
        receipts: Seq<ReceiptView>,
        detail: Option<Seq<char>>,
        now: int,
    ) -> Self {
        StoreView {
            deliveries: self.deliveries.filter(negate(hit(id, receipts))),
            archives: self.archives + self.new_archives(id, receipts, detail, now),
            last_archive_id: self.last_archive_id + self.hits(id, receipts).len(),
            ..self
        }
    }

    /// Why a page of a consumer's archive is not shown.
    pub open spec fn page_error(self, id: int, after: Option<int>, max: nat) -> Option<ErrorView> {
        let rows = first(self.archives.filter(listed(id, after)), max);
        match self.batch_error(max) {
            Some(error) => Some(error),
            None => if exists|k: int|
                0 <= k < rows.len() && !self.has_message((#[trigger] rows[k]).message_id) {
                Some(ErrorView::StorageInvariant("an archived delivery has no matching message"@))
            } else {
                None
            },
        }
    }

    /// One page of a consumer's archive.
    pub open spec fn archive_page(self, id: int, after: Option<int>, max: nat) -> Seq<
        ArchivedDeliveryView,
    > {
        first(self.archives.filter(listed(id, after)), max).map_values(
            |row: ArchiveView| self.archived_delivery(row),
        )
    }

    /// An archive entry with its message.
    pub open spec fn archived_delivery(self, row: ArchiveView) -> ArchivedDeliveryView {
        ArchivedDeliveryView {
            id: row.id,
            message: self.message(row.message_id),
            delivery_count: row.delivery_count,
            archived_at_ms: row.archived_at_ms,
            detail: row.detail,
        }
    }

    /// The archive entries that a redrive touches.
    pub open spec fn redriven_rows(self, id: int, ids: Seq<int>) -> Seq<ArchiveView> {
        self.archives.filter(chosen(id, ids))
    }

    /// Whether a redrive brings back a copy that is already among the deliveries,
    /// which the key of the table does not allow.
    pub open spec fn redelivers(self, id: int, ids: Seq<int>) -> bool {
        exists|k: int|
            0 <= k < self.redriven_rows(id, ids).len() && self.is_materialized(
                id,
                (#[trigger] self.redriven_rows(id, ids)[k]).message_id,
            )
    }

    /// When redriven deliveries become visible.
    pub open spec fn redrive_time(
        self,
        id: int,
        ids: Seq<int>,
        delay_nanos: nat,
        clock: Result<int, ErrorView>,
    ) -> Result<int, ErrorView> {
        match self.release_time(ids.len(), delay_nanos, clock) {
            Err(error) => Err(error),
            Ok(visible_at) => if exists|i: int|
                0 <= i < self.redriven_rows(id, ids).len() && #[trigger] self.redriven_rows(
                    id,
                    ids,
                )[i].generation == i64::MAX {
                Err(ErrorView::CounterOutOfRange)
            } else if self.redelivers(id, ids) {
                Err(ErrorView::StorageInvariant("an archived delivery is still outstanding"@))
            } else {
                Ok(visible_at)
            },
        }
    }

    /// The log with the chosen archive entries back among the deliveries. Their
    /// delivery count starts again; their generation goes on.
    pub open spec fn redriven(self, id: int, ids: Seq<int>, visible_at: int) -> Self {
        StoreView {
            deliveries: self.deliveries + self.redriven_rows(id, ids).map_values(
                |row: ArchiveView|
                    DeliveryRowView {
                        consumer_id: row.consumer_id,
                        message_id: row.message_id,
                        visible_at_ms: visible_at,
                        generation: row.generation + 1,
                        delivery_count: 0,
                    },
            ),
            archives: self.archives.filter(negate(chosen(id, ids))),
            wakeups: if self.redriven_rows(id, ids).len() > 0 {
                self.wakeups.push(WakeupView::Consumer(id))
            } else {
                self.wakeups
            },
            ..self
        }
    }

    /// The archive entries that a purge removes.
    pub open spec fn purged_rows(self, id: int, before_ms: int, max: nat) -> Seq<ArchiveView> {
        first(self.archives.filter(purgeable(id, before_ms)), max)
    }

    /// The log without the archive entries that a purge removes.
    pub open spec fn purged(self, id: int, before_ms: int, max: nat) -> Self {
        StoreView {
            archives: self.archives.filter(outside(self.purged_rows(id, before_ms, max))),
            ..self
        }
    }
}

/// The first `n` elements, or all where there are fewer.
pub open spec fn first<A>(s: Seq<A>, n: nat) -> Seq<A> {
    if s.len() <= n {
        s
    } else {
        s.take(n as int)
    }
}

/// Whether any message of a batch carries an idempotency key.
pub open spec fn has_keys(batch: Seq<PublishView>) -> bool {
    exists|i: int| 0 <= i < batch.len() && #[trigger] batch[i].idempotency_key is Some
}

/// The delivery that materializes a message.
pub open spec fn first_delivery(
    consumer_id: int,
    message: MessageView,
    deadline: int,
) -> DeliveryRowView {
    DeliveryRowView {
        consumer_id,
        message_id: message.id,
        visible_at_ms: deadline,
        generation: 1,
        delivery_count: 1,
    }
}

/// Whether a message is among the leases.
pub open spec fn is_leased(leases: Seq<DeliveryRowView>, message_id: int) -> bool {
    exists|i: int| 0 <= i < leases.len() && #[trigger] leases[i].message_id == message_id
}

pub open spec fn leased_in(leases: Seq<DeliveryRowView>) -> spec_fn(MessageView) -> bool {
    |message: MessageView| is_leased(leases, message.id)
}

/// The delivery of a leased message.
pub open spec fn handed_out(leases: Seq<DeliveryRowView>, message: MessageView) -> DeliveryView {
    let row = leases[choose|i: int|
        0 <= i < leases.len() && #[trigger] leases[i].message_id == message.id];
    DeliveryView { message, delivery_count: row.delivery_count, receipt: row.receipt() }
}

} // verus!
