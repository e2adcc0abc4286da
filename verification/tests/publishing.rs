use std::time::Duration;

use litefan::{
    BatchResult, Consumer, Delivery, LiteFan, MessageId, Poll, PollStep, Publish, PublishOutcome,
    Receipt, Stored,
};

const DAY: i64 = 24 * 60 * 60 * 1_000;

const NOW: i64 = 1_700_000_000_000;

fn database() -> LiteFan {
    LiteFan::open(Stored::default()).unwrap()
}

fn immediate_poll(max_messages: usize) -> Poll {
    Poll {
        max_messages,
        visibility_timeout: Duration::from_secs(30),
        wait: Duration::ZERO,
    }
}

fn returned(step: PollStep) -> Vec<Delivery> {
    match step {
        PollStep::Return(deliveries) => deliveries,
        PollStep::Wait { .. } => Vec::new(),
    }
}

fn poll_at(consumer: &Consumer, fan: &mut LiteFan, max_messages: usize, now: i64) -> Vec<Delivery> {
    returned(consumer.poll(fan, immediate_poll(max_messages), true, Ok(now)).unwrap())
}

fn keyed(body: &'static [u8], key: &'static [u8]) -> Publish<'static> {
    Publish {
        topic: None,
        body,
        idempotency_key: Some(key),
    }
}

fn expiry_of(fan: &LiteFan, key: &[u8]) -> i64 {
    fan.ledger()
        .iter()
        .find(|row| row.key == key)
        .unwrap()
        .expires_at_ms
}

#[test]
fn idempotency_within_the_window_and_batch_order_are_preserved() {
    let mut fan = database();
    let consumer = fan.consumer("worker").open(&mut fan, Ok(NOW)).unwrap();

    let outcomes = fan
        .publish_batch(
            &[
                keyed(b"first", b"key-1"),
                keyed(b"ignored", b"key-1"),
                keyed(b"second", b"key-2"),
            ],
            Ok(NOW),
        )
        .unwrap();
    assert!(outcomes[0].is_published());
    assert_eq!(
        outcomes[1],
        PublishOutcome::Duplicate {
            id: outcomes[0].id()
        }
    );
    assert!(outcomes[2].is_published());

    let deliveries = poll_at(&consumer, &mut fan, 10, NOW);
    assert_eq!(deliveries.len(), 2);
    assert_eq!(deliveries[0].message.body, b"first");
    assert_eq!(deliveries[1].message.body, b"second");
}

#[test]
fn idempotency_window_is_fixed_and_expired_entries_are_cleaned_up() {
    let mut fan = database();

    let first = fan.publish(keyed(b"first", b"key-1"), Ok(NOW)).unwrap();
    fan.publish(keyed(b"other", b"key-2"), Ok(NOW)).unwrap();
    let original_expiry = expiry_of(&fan, b"key-1");
    assert_eq!(original_expiry, NOW + DAY);

    let duplicate = fan
        .publish(keyed(b"ignored", b"key-1"), Ok(NOW + DAY - 1))
        .unwrap();
    let duplicate_expiry = expiry_of(&fan, b"key-1");
    assert_eq!(duplicate, PublishOutcome::Duplicate { id: first.id() });
    assert_eq!(duplicate_expiry, original_expiry);

    let after_expiry = fan
        .publish(keyed(b"new", b"key-3"), Ok(NOW + DAY))
        .unwrap();
    assert!(after_expiry.is_published());
    assert_eq!(fan.ledger().len(), 1);
}

#[test]
fn an_expired_key_can_publish_again() {
    let mut fan = database();
    let first = fan.publish(keyed(b"first", b"same-key"), Ok(NOW)).unwrap();

    let second = fan
        .publish(keyed(b"second", b"same-key"), Ok(NOW + DAY))
        .unwrap();
    assert!(second.is_published());
    assert_ne!(second.id(), first.id());
}

#[test]
fn concurrent_idempotent_publishers_create_one_message() {
    let mut fan = database();
    let consumer = fan.consumer("worker").open(&mut fan, Ok(NOW)).unwrap();
    let first = fan.publish(keyed(b"first", b"same-key"), Ok(NOW)).unwrap();
    let second = fan.publish(keyed(b"second", b"same-key"), Ok(NOW)).unwrap();

    assert_eq!(first.id(), second.id());
    assert_ne!(first.is_published(), second.is_published());
    assert_eq!(poll_at(&consumer, &mut fan, 10, NOW).len(), 1);
}

#[test]
fn maximum_keyed_batch_crosses_sql_variable_chunks_safely() {
    let mut fan = database();
    let consumer = fan.consumer("worker").open(&mut fan, Ok(NOW)).unwrap();
    let bodies: Vec<[u8; 4]> = (0_u32..500).map(u32::to_be_bytes).collect();
    let keys: Vec<Vec<u8>> = (0_u32..500).map(u32::to_le_bytes).map(Vec::from).collect();
    let publishes: Vec<Publish<'_>> = bodies
        .iter()
        .zip(&keys)
        .map(|(body, key)| Publish::new(body).with_idempotency_key(key))
        .collect();

    let published = fan.publish_batch(&publishes, Ok(NOW)).unwrap();
    assert_eq!(published.len(), 500);
    assert!(published.iter().all(|outcome| outcome.is_published()));
    assert!(published.windows(2).all(|pair| pair[0].id() < pair[1].id()));

    let duplicates = fan.publish_batch(&publishes, Ok(NOW)).unwrap();
    assert_eq!(
        duplicates
            .iter()
            .map(|outcome| outcome.id())
            .collect::<Vec<MessageId>>(),
        published
            .iter()
            .map(|outcome| outcome.id())
            .collect::<Vec<MessageId>>()
    );
    assert!(duplicates.iter().all(|outcome| !outcome.is_published()));

    let deliveries = poll_at(&consumer, &mut fan, 500, NOW);
    assert_eq!(deliveries.len(), 500);
    let receipts: Vec<Receipt> = deliveries.iter().map(Delivery::receipt).collect();
    assert_eq!(
        consumer.ack_batch(&mut fan, &receipts).unwrap(),
        BatchResult {
            applied: 500,
            stale: 0,
        }
    );
    assert!(consumer.snapshot(&fan, Ok(NOW)).unwrap().is_empty());
}

#[test]
fn unkeyed_publishes_leave_expired_keys_in_place() {
    let mut fan = database();
    fan.publish(keyed(b"first", b"key"), Ok(NOW)).unwrap();
    let outcome = fan.publish(Publish::new(b"plain"), Ok(NOW + 2 * DAY)).unwrap();
    assert_eq!(outcome.id().get(), 2);
    assert_eq!(fan.ledger().len(), 1);
    assert_eq!(fan.messages()[1].published_at_ms, NOW + 2 * DAY);
}

#[test]
fn identifiers_are_not_reused_after_pruning() {
    let mut fan = database();
    let first = fan.publish(Publish::new(b"old"), Ok(NOW)).unwrap();
    let prune = litefan::Prune {
        before_ms: i64::MAX,
        max_messages: 1,
    };
    assert_eq!(fan.prune_messages(prune).unwrap().deleted_messages, 1);
    let second = fan.publish(Publish::new(b"new"), Ok(NOW)).unwrap();
    assert!(first.id() < second.id());
}
