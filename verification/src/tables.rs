//! The rows that the log is stored as.
use vstd::prelude::*;

use crate::api::{Filter, Message, MessageId, MessageView, Receipt, ReceiptView};

verus! {

/// A published message. Its body exists once, whatever number of consumers
/// receive it.
#[derive(Clone, Debug)]
pub struct MessageRow {
    pub id: i64,
    pub topic: Option<String>,
    pub body: Vec<u8>,
    pub published_at_ms: i64,
}

impl View for MessageRow {
    type V = MessageView;

    open spec fn view(&self) -> MessageView {
        MessageView {
            id: self.id as int,
            topic: match self.topic {
                Some(topic) => Some(topic@),
                None => None,
            },
            body: self.body@,
            published_at_ms: self.published_at_ms as int,
        }
    }
}

impl MessageRow {
    /// The message as it is handed to a consumer.
    pub fn to_message(&self) -> (message: Message)
        ensures
            message@ == self@,
    {
        let topic = match &self.topic {
            Some(topic) => Some(topic.clone()),
            None => None,
        };
        let body = self.body.clone();
        assert(body@ =~= self.body@);
        Message { id: MessageId(self.id), topic, body, published_at_ms: self.published_at_ms }
    }
}

/// A durable consumer, as numbers and sequences.
pub struct ConsumerView {
    pub id: int,
    pub name: Seq<char>,
    /// The one topic that it receives, or all of them.
    pub filter: Option<Seq<char>>,
    pub created_at_ms: int,
    pub draining_at_ms: Option<int>,
    /// Messages up to this identifier have been passed over or materialized.
    pub scan_cursor: int,
    /// Messages after this identifier are never received.
    pub drain_cursor: Option<int>,
}

/// A durable consumer with its position in the log.
#[derive(Clone, Debug)]
pub struct ConsumerRow {
    pub id: i64,
    pub name: String,
    pub filter: Filter,
    pub created_at_ms: i64,
    pub draining_at_ms: Option<i64>,
    pub scan_cursor: i64,
    pub drain_cursor: Option<i64>,
}

/// An optional number without its machine width.
pub open spec fn widen(value: Option<i64>) -> Option<int> {
    match value {
        Some(value) => Some(value as int),
        None => None,
    }
}

impl View for ConsumerRow {
    type V = ConsumerView;

    open spec fn view(&self) -> ConsumerView {
        ConsumerView {
            id: self.id as int,
            name: self.name@,
            filter: self.filter@,
            created_at_ms: self.created_at_ms as int,
            draining_at_ms: widen(self.draining_at_ms),
            scan_cursor: self.scan_cursor as int,
            drain_cursor: widen(self.drain_cursor),
        }
    }
}

/// A materialized delivery, as numbers.
pub struct DeliveryRowView {
    pub consumer_id: int,
    pub message_id: int,
    pub visible_at_ms: int,
    pub generation: int,
    pub delivery_count: int,
}

/// A claimed and not yet acknowledged copy of a message.
#[derive(Clone, Copy, Debug)]
pub struct DeliveryRow {
    pub consumer_id: i64,
    pub message_id: i64,
    /// The copy is hidden from polls until this time.
    pub visible_at_ms: i64,
    /// The receipt of the current lease carries this number.
    pub generation: i64,
    pub delivery_count: i64,
}

impl View for DeliveryRow {
    type V = DeliveryRowView;

    open spec fn view(&self) -> DeliveryRowView {
        DeliveryRowView {
            consumer_id: self.consumer_id as int,
            message_id: self.message_id as int,
            visible_at_ms: self.visible_at_ms as int,
            generation: self.generation as int,
            delivery_count: self.delivery_count as int,
        }
    }
}

impl DeliveryRowView {
    /// The receipt that currently stands for the row.
    pub open spec fn receipt(self) -> ReceiptView {
        ReceiptView {
            consumer_id: self.consumer_id,
            message_id: self.message_id,
            generation: self.generation,
        }
    }
}

impl DeliveryRow {
    /// The receipt that currently stands for the row.
    pub fn receipt(&self) -> (receipt: Receipt)
        ensures
            receipt@ == self@.receipt(),
    {
        Receipt {
            consumer_id: self.consumer_id,
            message_id: self.message_id,
            generation: self.generation,
        }
    }
}

/// An idempotency key, as numbers and sequences.
pub struct LedgerView {
    pub key: Seq<u8>,
    pub message_id: Option<int>,
    pub expires_at_ms: int,
}

/// An idempotency key that suppresses another publish until it expires.
#[derive(Clone, Debug)]
pub struct LedgerRow {
    pub key: Vec<u8>,
    /// The message that was published under the key.
    pub message_id: Option<i64>,
    pub expires_at_ms: i64,
}

impl View for LedgerRow {
    type V = LedgerView;

    open spec fn view(&self) -> LedgerView {
        LedgerView {
            key: self.key@,
            message_id: widen(self.message_id),
            expires_at_ms: self.expires_at_ms as int,
        }
    }
}

/// An archived delivery, as numbers and sequences.
pub struct ArchiveView {
    pub id: int,
    pub consumer_id: int,
    pub message_id: int,
    pub generation: int,
    pub delivery_count: int,
    pub archived_at_ms: int,
    pub detail: Option<Seq<char>>,
}

/// A delivery that its consumer has set aside. The generation is kept, so that
/// receipts from before stay stale after a redrive.
#[derive(Clone, Debug)]
pub struct ArchiveRow {
    pub id: i64,
    pub consumer_id: i64,
    pub message_id: i64,
    pub generation: i64,
    pub delivery_count: i64,
    pub archived_at_ms: i64,
    pub detail: Option<String>,
}

impl View for ArchiveRow {
    type V = ArchiveView;

    open spec fn view(&self) -> ArchiveView {
        ArchiveView {
            id: self.id as int,
            consumer_id: self.consumer_id as int,
            message_id: self.message_id as int,
            generation: self.generation as int,
            delivery_count: self.delivery_count as int,
            archived_at_ms: self.archived_at_ms as int,
            detail: match self.detail {
                Some(detail) => Some(detail@),
                None => None,
            },
        }
    }
}

/// Everything that a database holds: a new one carries version zero and no rows.
#[derive(Clone, Debug)]
pub struct Stored {
    pub schema_version: i64,
    /// In the order of their identifiers, as are consumers and archives.
    pub messages: Vec<MessageRow>,
    pub consumers: Vec<ConsumerRow>,
    pub deliveries: Vec<DeliveryRow>,
    pub ledger: Vec<LedgerRow>,
    pub archives: Vec<ArchiveRow>,
    /// The highest identifiers that are recorded as assigned.
    pub last_message_id: i64,
    pub last_consumer_id: i64,
    pub last_archive_id: i64,
}

impl Default for Stored {
    fn default() -> (stored: Self)
        ensures
            stored.schema_version == 0,
            stored.messages@.len() == 0,
            stored.consumers@.len() == 0,
            stored.deliveries@.len() == 0,
            stored.ledger@.len() == 0,
            stored.archives@.len() == 0,
            stored.last_message_id == 0,
            stored.last_consumer_id == 0,
            stored.last_archive_id == 0,
    {
        Stored {
            schema_version: 0,
            messages: Vec::new(),
            consumers: Vec::new(),
            deliveries: Vec::new(),
            ledger: Vec::new(),
            archives: Vec::new(),
            last_message_id: 0,
            last_consumer_id: 0,
            last_archive_id: 0,
        }
    }
}

} // verus!
