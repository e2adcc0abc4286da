use std::time::Duration;

use litefan::{
    Consumer, ConsumerState, DeleteMode, Delivery, Error, Filter, LiteFan, Poll, PollStep, Prune,
    Publish, PublishOutcome, Receipt, Retry, Stored,
};

const NOW: i64 = 1_700_000_000_000;

fn database() -> LiteFan {
    LiteFan::open(Stored::default()).unwrap()
}

fn immediate_poll(max_messages: usize) -> Poll {
    Poll {
        max_messages,
        visibility_timeout: Duration::from_secs(30),
        wait: Duration::ZERO,
    }
}

fn returned(step: PollStep) -> Vec<Delivery> {
    match step {
        PollStep::Return(deliveries) => deliveries,
        PollStep::Wait { .. } => Vec::new(),
    }
}

fn poll_at(consumer: &Consumer, fan: &mut LiteFan, max_messages: usize, now: i64) -> Vec<Delivery> {
    returned(consumer.poll(fan, immediate_poll(max_messages), true, Ok(now)).unwrap())
}

#[test]
fn draining_stops_new_fanout_and_finishes_existing_work() {
    let mut fan = database();
    let consumer = fan.consumer("worker").open(&mut fan, Ok(NOW)).unwrap();
    fan.publish(Publish::new(b"before"), Ok(NOW)).unwrap();

    assert!(consumer.begin_draining(&mut fan, Ok(NOW)).unwrap());
    assert!(!consumer.begin_draining(&mut fan, Ok(NOW)).unwrap());
    fan.publish(Publish::new(b"after-unkeyed"), Ok(NOW)).unwrap();
    fan.publish(
        Publish::new(b"after-keyed").with_idempotency_key(b"key"),
        Ok(NOW),
    )
    .unwrap();

    let deliveries = poll_at(&consumer, &mut fan, 10, NOW);
    assert_eq!(deliveries.len(), 1);
    assert_eq!(deliveries[0].message.body, b"before");
    let draining = consumer.snapshot(&fan, Ok(NOW)).unwrap();
    assert_eq!(draining.state, ConsumerState::Draining);
    assert_eq!(draining.outstanding, 1);
    assert!(!draining.is_drained());

    assert!(consumer.ack(&mut fan, deliveries[0].receipt()).unwrap());
    assert!(consumer.snapshot(&fan, Ok(NOW)).unwrap().is_drained());
    // A drained consumer does not long-poll.
    let step = consumer
        .poll(
            &mut fan,
            Poll {
                wait: Duration::from_secs(1),
                ..Poll::default()
            },
            true,
            Ok(NOW),
        )
        .unwrap();
    assert!(matches!(step, PollStep::Return(deliveries) if deliveries.is_empty()));
}

#[test]
fn draining_long_poll_waits_for_delayed_outstanding_work() {
    let mut fan = database();
    let consumer = fan.consumer("worker").open(&mut fan, Ok(NOW)).unwrap();
    fan.publish(Publish::new(b"retry"), Ok(NOW)).unwrap();
    let delivery = poll_at(&consumer, &mut fan, 1, NOW).remove(0);
    consumer.begin_draining(&mut fan, Ok(NOW)).unwrap();
    consumer
        .nack(
            &mut fan,
            delivery.receipt(),
            Retry::After(Duration::from_millis(20)),
            Ok(NOW),
        )
        .unwrap();

    let poll = Poll {
        max_messages: 1,
        visibility_timeout: Duration::from_secs(30),
        wait: Duration::from_millis(200),
    };
    assert!(matches!(
        consumer.poll(&mut fan, poll, true, Ok(NOW)).unwrap(),
        PollStep::Wait { next_visible_at: Some(time) } if time == NOW + 20
    ));
    let retried = returned(consumer.poll(&mut fan, poll, true, Ok(NOW + 20)).unwrap()).remove(0);
    assert_eq!(retried.message.body, b"retry");
    assert_eq!(retried.delivery_count, 2);
    assert!(consumer.ack(&mut fan, retried.receipt()).unwrap());
    assert!(consumer.snapshot(&fan, Ok(NOW + 20)).unwrap().is_drained());
}

#[test]
fn snapshots_report_ready_deferred_and_store_counts() {
    let mut fan = database();
    let consumer = fan
        .consumer("worker")
        .filter(Filter::topic("jobs"))
        .open(&mut fan, Ok(NOW))
        .unwrap();
    fan.publish_batch(
        &[
            Publish::new(b"a").with_topic("jobs"),
            Publish::new(b"b")
                .with_topic("jobs")
                .with_idempotency_key(b"key"),
        ],
        Ok(NOW),
    )
    .unwrap();
    let leased = poll_at(&consumer, &mut fan, 1, NOW).remove(0);

    let snapshot = consumer.snapshot(&fan, Ok(NOW)).unwrap();
    assert_eq!(snapshot.filter, Filter::topic("jobs"));
    assert_eq!(snapshot.state, ConsumerState::Active);
    assert_eq!(snapshot.outstanding, 2);
    assert_eq!(snapshot.ready, 1);
    assert_eq!(snapshot.not_ready(), 1);
    assert_eq!(snapshot.next_ready_at_ms, Some(NOW + 30_000));
    assert_eq!(snapshot.oldest_outstanding_at_ms, Some(NOW));

    let store = fan.snapshot(Ok(NOW)).unwrap();
    assert_eq!(store.retained_messages, 2);
    assert_eq!(store.idempotency_keys, 1);
    assert_eq!(store.outstanding_deliveries, 2);
    assert_eq!(store.consumers, [snapshot]);
    assert!(consumer.ack(&mut fan, leased.receipt()).unwrap());
}

#[test]
fn safe_deletion_requires_a_drained_consumer_and_old_handles_stay_deleted() {
    let mut fan = database();
    let consumer = fan.consumer("worker").open(&mut fan, Ok(NOW)).unwrap();
    fan.publish(Publish::new(b"work"), Ok(NOW)).unwrap();

    let error = fan
        .delete_consumer("worker", DeleteMode::DrainedOnly)
        .unwrap_err();
    assert!(matches!(error, Error::ConsumerNotDraining { .. }));
    consumer.begin_draining(&mut fan, Ok(NOW)).unwrap();
    let error = fan
        .delete_consumer("worker", DeleteMode::DrainedOnly)
        .unwrap_err();
    assert!(matches!(
        error,
        Error::ConsumerNotEmpty { outstanding: 1, .. }
    ));

    let delivery = poll_at(&consumer, &mut fan, 1, NOW).remove(0);
    consumer.ack(&mut fan, delivery.receipt()).unwrap();
    let deleted = fan
        .delete_consumer("worker", DeleteMode::DrainedOnly)
        .unwrap();
    assert_eq!(deleted.discarded_deliveries, 0);
    assert_eq!(deleted.discarded_archives, 0);

    let replacement = fan.consumer("worker").open(&mut fan, Ok(NOW)).unwrap();
    fan.publish(Publish::new(b"new identity"), Ok(NOW)).unwrap();
    assert!(matches!(
        consumer.poll(&mut fan, immediate_poll(1), true, Ok(NOW)),
        Err(Error::ConsumerDeleted { .. })
    ));
    assert!(matches!(
        consumer.snapshot(&fan, Ok(NOW)),
        Err(Error::ConsumerDeleted { name }) if name == "worker"
    ));
    assert!(matches!(
        consumer.begin_draining(&mut fan, Ok(NOW)),
        Err(Error::ConsumerDeleted { .. })
    ));
    assert_eq!(
        poll_at(&replacement, &mut fan, 1, NOW)[0].message.body,
        b"new identity"
    );
}

#[test]
fn forced_deletion_reports_discarded_deliveries() {
    let mut fan = database();
    fan.consumer("worker").open(&mut fan, Ok(NOW)).unwrap();
    fan.publish_batch(&[Publish::new(b"a"), Publish::new(b"b")], Ok(NOW))
        .unwrap();

    let deleted = fan
        .delete_consumer("worker", DeleteMode::DiscardOutstanding)
        .unwrap();
    assert_eq!(deleted.discarded_deliveries, 2);
    assert_eq!(deleted.discarded_archives, 0);
    assert_eq!(fan.snapshot(Ok(NOW)).unwrap().outstanding_deliveries, 0);
}

#[test]
fn pruning_is_bounded_preserves_live_deliveries_and_keeps_idempotency() {
    let mut fan = database();
    let consumer = fan.consumer("worker").open(&mut fan, Ok(NOW)).unwrap();
    let keyed = Publish::new(b"keyed").with_idempotency_key(b"key");
    let keyed_id = fan.publish(keyed, Ok(NOW)).unwrap().id();
    fan.publish_batch(&[Publish::new(b"a"), Publish::new(b"b")], Ok(NOW))
        .unwrap();

    let prune = Prune {
        before_ms: i64::MAX,
        max_messages: 2,
    };
    assert_eq!(fan.prune_messages(prune).unwrap().deleted_messages, 0);
    let deliveries = poll_at(&consumer, &mut fan, 10, NOW);
    let receipts: Vec<Receipt> = deliveries.iter().map(Delivery::receipt).collect();
    consumer.ack_batch(&mut fan, &receipts).unwrap();

    assert_eq!(fan.prune_messages(prune).unwrap().deleted_messages, 2);
    assert_eq!(fan.snapshot(Ok(NOW)).unwrap().retained_messages, 1);
    assert_eq!(
        fan.publish(keyed, Ok(NOW)).unwrap(),
        PublishOutcome::Duplicate { id: keyed_id }
    );
    assert!(poll_at(&consumer, &mut fan, 1, NOW).is_empty());
    assert_eq!(fan.prune_messages(prune).unwrap().deleted_messages, 1);
    assert_eq!(fan.snapshot(Ok(NOW)).unwrap().idempotency_keys, 1);
}

#[test]
fn inactive_backlogs_are_logical_until_claimed() {
    let mut fan = database();
    let mut consumers = Vec::new();
    for index in 0..100 {
        consumers.push(
            fan.consumer(format!("worker-{index}"))
                .open(&mut fan, Ok(NOW))
                .unwrap(),
        );
    }
    let publishes = vec![Publish::new(b"work"); 100];
    fan.publish_batch(&publishes, Ok(NOW)).unwrap();

    assert_eq!(fan.deliveries().len(), 0);
    assert_eq!(
        fan.snapshot(Ok(NOW)).unwrap().outstanding_deliveries,
        10_000
    );

    let claimed = poll_at(&consumers[0], &mut fan, 10, NOW);
    assert_eq!(claimed.len(), 10);
    assert_eq!(fan.deliveries().len(), 10);
}

#[test]
fn topic_scans_skip_irrelevant_log_ranges_permanently() {
    let mut fan = database();
    let consumer = fan
        .consumer("jobs")
        .filter(Filter::topic("jobs"))
        .open(&mut fan, Ok(NOW))
        .unwrap();
    let irrelevant = vec![Publish::new(b"noise").with_topic("metrics"); 100];
    fan.publish_batch(&irrelevant, Ok(NOW)).unwrap();
    fan.publish(Publish::new(b"work").with_topic("jobs"), Ok(NOW))
        .unwrap();

    let delivery = poll_at(&consumer, &mut fan, 10, NOW).remove(0);
    assert_eq!(delivery.message.body, b"work");
    consumer.ack(&mut fan, delivery.receipt()).unwrap();
    assert!(poll_at(&consumer, &mut fan, 10, NOW).is_empty());

    let cursor = fan.consumers()[0].scan_cursor;
    let high_water = fan.messages().last().unwrap().id;
    assert_eq!(cursor, high_water);
}

#[test]
fn draining_after_pruning_ahead_of_the_log_is_valid() {
    let mut fan = database();
    fan.publish(Publish::new(b"history"), Ok(NOW)).unwrap();
    let consumer = fan.consumer("worker").open(&mut fan, Ok(NOW)).unwrap();
    assert_eq!(
        fan.prune_messages(Prune {
            before_ms: i64::MAX,
            max_messages: 1,
        })
        .unwrap()
        .deleted_messages,
        1
    );
    assert!(consumer.begin_draining(&mut fan, Ok(NOW)).unwrap());
    assert!(consumer.snapshot(&fan, Ok(NOW)).unwrap().is_drained());
}

#[test]
fn store_snapshots_list_consumers_by_the_bytes_of_their_names() {
    let mut fan = database();
    let names = ["b", "ab", "\u{e9}", "a", "Z", "\u{10000}", "\u{ffff}"];
    for name in names {
        fan.consumer(name).open(&mut fan, Ok(NOW)).unwrap();
    }
    let listed: Vec<String> = fan
        .snapshot(Ok(NOW))
        .unwrap()
        .consumers
        .into_iter()
        .map(|consumer| consumer.name)
        .collect();
    assert_eq!(
        listed,
        ["Z", "a", "ab", "b", "\u{e9}", "\u{ffff}", "\u{10000}"]
    );
}

#[test]
fn reopening_resumes_the_inbox_of_the_name() {
    let mut fan = database();
    let worker = fan.consumer("worker").open(&mut fan, Ok(NOW)).unwrap();
    fan.publish(Publish::new(b"kept"), Ok(NOW)).unwrap();
    let again = fan.consumer("worker").open(&mut fan, Ok(NOW + 1)).unwrap();
    assert_eq!(fan.consumers().len(), 1);
    let delivery = poll_at(&again, &mut fan, 1, NOW + 1).remove(0);
    assert_eq!(delivery.message.body, b"kept");
    assert!(worker.ack(&mut fan, delivery.receipt()).unwrap());
}
