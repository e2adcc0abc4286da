use std::time::Duration;

use litefan::{
    Consumer, DeleteMode, Delivery, DeliveryRow, Error, Filter, ListArchives, LiteFan, Poll,
    PollStep, Prune, Publish, Retry, Stored,
};

const NOW: i64 = 1_700_000_000_000;

fn log_with(names: &[&str], messages: &[(&str, &[u8])]) -> (LiteFan, Vec<Consumer>) {
    let mut fan = LiteFan::open(Stored::default()).unwrap();
    let consumers = names
        .iter()
        .map(|name| fan.consumer(*name).open(&mut fan, Ok(NOW)).unwrap())
        .collect();
    for (topic, body) in messages {
        fan.publish(Publish::new(body).with_topic(topic), Ok(NOW)).unwrap();
    }
    (fan, consumers)
}

fn poll_at(consumer: &Consumer, fan: &mut LiteFan, max_messages: usize, now: i64) -> Vec<Delivery> {
    let poll = Poll {
        max_messages,
        visibility_timeout: Duration::from_secs(30),
        wait: Duration::ZERO,
    };
    match consumer.poll(fan, poll, true, Ok(now)).unwrap() {
        PollStep::Return(deliveries) => deliveries,
        PollStep::Wait { .. } => Vec::new(),
    }
}

fn outstanding(consumer: &Consumer, fan: &LiteFan) -> u64 {
    consumer.snapshot(fan, Ok(NOW)).unwrap().outstanding
}

fn fields(rows: &[DeliveryRow]) -> Vec<(i64, i64, i64, i64, i64)> {
    rows.iter()
        .map(|row| {
            (
                row.consumer_id,
                row.message_id,
                row.visible_at_ms,
                row.generation,
                row.delivery_count,
            )
        })
        .collect()
}

const THREE: [(&str, &[u8]); 3] = [("x", b"a"), ("y", b"b"), ("x", b"c")];

#[test]
fn a_claim_loses_nothing_and_takes_what_is_ready() {
    let (mut fan, consumers) = log_with(&["one", "two"], &THREE);
    let ready = consumers[0].snapshot(&fan, Ok(NOW)).unwrap().ready;
    assert_eq!(ready, 3);
    let first = poll_at(&consumers[0], &mut fan, 2, NOW);
    assert_eq!(first.len(), 2);
    assert!(first[0].message.id < first[1].message.id);
    assert_eq!(outstanding(&consumers[0], &fan), 3);
    assert_eq!(outstanding(&consumers[1], &fan), 3);
    let second = poll_at(&consumers[0], &mut fan, 2, NOW + 29_999);
    assert_eq!(second.len(), 1);
    assert_eq!(second[0].message.body, b"c");
    let third = poll_at(&consumers[0], &mut fan, 10, NOW + 30_000);
    assert_eq!(third.len(), 2);
    assert_eq!(third[0].message.id, first[0].message.id);
    assert_eq!(outstanding(&consumers[0], &fan), 3);
}

#[test]
fn stale_receipts_change_no_row() {
    let (mut fan, consumers) = log_with(&["one", "two"], &THREE);
    let worker = &consumers[0];
    let delivery = poll_at(worker, &mut fan, 1, NOW).remove(0);
    worker.ack(&mut fan, delivery.receipt()).unwrap();
    poll_at(worker, &mut fan, 1, NOW);
    fan.take_wakeups();
    let before = fields(fan.deliveries());
    let stale = [delivery.receipt(), delivery.receipt()];
    assert_eq!(worker.ack_batch(&mut fan, &stale).unwrap().stale, 2);
    let retry = Retry::Immediately;
    assert_eq!(worker.nack_batch(&mut fan, &stale, retry, Ok(NOW)).unwrap().stale, 2);
    let timeout = Duration::from_secs(60);
    let extended = worker.extend_visibility_batch(&mut fan, &stale, timeout, Ok(NOW)).unwrap();
    assert_eq!((extended.applied, extended.stale), (0, 2));
    assert_eq!(worker.archive_batch(&mut fan, &stale, Ok(NOW)).unwrap().stale, 2);
    assert_eq!(fields(fan.deliveries()), before);
    assert!(fan.archive_rows().is_empty());
    assert!(fan.take_wakeups().is_empty());
}

#[test]
fn releasing_and_extending_keep_the_inbox() {
    let (mut fan, consumers) = log_with(&["one"], &THREE);
    let worker = &consumers[0];
    let leased = poll_at(worker, &mut fan, 3, NOW);
    let delay = Retry::After(Duration::from_secs(7));
    assert!(worker.nack(&mut fan, leased[0].receipt(), delay, Ok(NOW)).unwrap());
    let timeout = Duration::from_secs(90);
    assert!(worker.extend_visibility(&mut fan, leased[1].receipt(), timeout, Ok(NOW)).unwrap());
    assert_eq!(outstanding(worker, &fan), 3);
    assert_eq!(
        fields(fan.deliveries()),
        [
            (1, 1, NOW + 7_000, 2, 1),
            (1, 2, NOW + 90_000, 1, 1),
            (1, 3, NOW + 30_000, 1, 1)
        ]
    );
    let snapshot = worker.snapshot(&fan, Ok(NOW + 7_000)).unwrap();
    assert_eq!((snapshot.ready, snapshot.not_ready()), (1, 2));
    assert_eq!(snapshot.next_ready_at_ms, Some(NOW + 30_000));
}

#[test]
fn published_messages_keep_their_topic_and_body() {
    let (mut fan, _) = log_with(&[], &THREE);
    let key: &[u8] = b"key";
    let batch = [
        Publish::new(b"d"),
        Publish::new(b"e").with_topic("z").with_idempotency_key(key),
        Publish::new(b"f").with_idempotency_key(key),
    ];
    let outcomes = fan.publish_batch(&batch, Ok(NOW + 1)).unwrap();
    let ids: Vec<i64> = outcomes.iter().map(|outcome| outcome.id().get()).collect();
    assert_eq!(ids, [4, 5, 5]);
    let last = &fan.messages()[4];
    assert_eq!((last.id, last.topic.as_deref(), last.published_at_ms), (5, Some("z"), NOW + 1));
    assert_eq!(last.body, b"e");
    assert_eq!(fan.messages()[0].body, b"a");
    assert_eq!(fan.messages().len(), 5);
}

#[test]
fn deletion_spares_other_consumers() {
    let (mut fan, consumers) = log_with(&["one", "two"], &THREE);
    poll_at(&consumers[0], &mut fan, 2, NOW);
    let kept = poll_at(&consumers[1], &mut fan, 1, NOW).remove(0);
    let deleted = fan.delete_consumer("one", DeleteMode::DiscardOutstanding).unwrap();
    assert_eq!(deleted.discarded_deliveries, 3);
    assert_eq!(fan.messages().len(), 3);
    assert_eq!(outstanding(&consumers[1], &fan), 3);
    assert!(consumers[1].ack(&mut fan, kept.receipt()).unwrap());
    assert_eq!(outstanding(&consumers[1], &fan), 2);
}

#[test]
fn pruning_below_its_limit_is_complete() {
    let (mut fan, _) = log_with(&[], &THREE);
    let worker = fan
        .consumer("y")
        .filter(Filter::topic("y"))
        .open(&mut fan, Ok(NOW))
        .unwrap();
    fan.publish(Publish::new(b"d").with_topic("x"), Ok(NOW + 5)).unwrap();
    fan.publish(Publish::new(b"e").with_topic("y"), Ok(NOW + 5)).unwrap();
    let prune = |before_ms| Prune {
        before_ms,
        max_messages: 10,
    };
    assert_eq!(fan.prune_messages(prune(NOW)).unwrap().deleted_messages, 0);
    assert_eq!(fan.prune_messages(prune(NOW + 1)).unwrap().deleted_messages, 3);
    // The message for the topic of the consumer stays until it is received.
    assert_eq!(fan.prune_messages(prune(i64::MAX)).unwrap().deleted_messages, 1);
    assert_eq!(fan.prune_messages(prune(i64::MAX)).unwrap().deleted_messages, 0);
    assert_eq!(outstanding(&worker, &fan), 1);
}

#[test]
fn archiving_and_redriving_restore_the_inbox() {
    let (mut fan, consumers) = log_with(&["one", "two"], &THREE);
    let worker = &consumers[0];
    let delivery = poll_at(worker, &mut fan, 1, NOW).remove(0);
    assert!(worker.archive(&mut fan, delivery.receipt(), Ok(NOW)).unwrap());
    assert_eq!(outstanding(worker, &fan), 2);
    assert_eq!(outstanding(&consumers[1], &fan), 3);
    let id = worker.archives(&fan, ListArchives::default()).unwrap()[0].id;
    assert!(worker.redrive(&mut fan, id, Retry::Immediately, Ok(NOW)).unwrap());
    assert_eq!(outstanding(worker, &fan), 3);
    assert_eq!(outstanding(&consumers[1], &fan), 3);
    assert_eq!(fan.messages().len(), 3);
    assert_eq!(fields(fan.deliveries()), [(1, 1, NOW, 2, 0)]);
}

const DAY: i64 = 24 * 60 * 60 * 1_000;

#[test]
fn the_window_is_fixed_whatever_happens_in_between() {
    let (mut fan, consumers) = log_with(&["one"], &THREE);
    let keyed = |body: &'static [u8]| Publish::new(body).with_idempotency_key(b"key");
    let batch = [Publish::new(b"plain"), keyed(b"first"), keyed(b"same batch")];
    let first = fan.publish_batch(&batch, Ok(NOW)).unwrap()[1];
    assert!(first.is_published());

    // Receiving, pruning, another key and a duplicate in between.
    let deliveries = poll_at(&consumers[0], &mut fan, 10, NOW);
    for delivery in deliveries {
        consumers[0].ack(&mut fan, delivery.receipt()).unwrap();
    }
    let prune = Prune {
        before_ms: i64::MAX,
        max_messages: 10,
    };
    assert_eq!(fan.prune_messages(prune).unwrap().deleted_messages, 5);
    fan.publish(Publish::new(b"x").with_idempotency_key(b"other"), Ok(NOW + DAY / 2))
        .unwrap();
    let again = fan.publish(keyed(b"again"), Ok(NOW + DAY / 2)).unwrap();
    assert_eq!((again.id(), again.is_published()), (first.id(), false));

    let late = [Publish::new(b"y"), keyed(b"late")];
    let inside = fan.publish_batch(&late, Ok(NOW + DAY - 1)).unwrap()[1];
    assert_eq!((inside.id(), inside.is_published()), (first.id(), false));
    let outside = fan.publish_batch(&late, Ok(NOW + DAY)).unwrap()[1];
    assert!(outside.is_published());
    assert!(outside.id() > first.id());
    // The expired entry is gone, and the new one lives for its own window.
    let mut expiries: Vec<i64> = fan.ledger().iter().map(|row| row.expires_at_ms).collect();
    expiries.sort_unstable();
    assert_eq!(expiries, [NOW + DAY + DAY / 2, NOW + 2 * DAY]);
}

#[test]
fn workers_do_not_share_with_other_calls_in_between() {
    let (mut fan, consumers) = log_with(&["one", "two"], &THREE);
    let worker = &consumers[0];
    let mut seen: Vec<i64> = Vec::new();
    for round in 0..4 {
        for delivery in poll_at(worker, &mut fan, 2, NOW + round) {
            let id = delivery.message.id.get();
            assert!(!seen.contains(&id));
            seen.push(id);
            if id % 2 == 0 {
                assert!(worker.ack(&mut fan, delivery.receipt()).unwrap());
            }
        }
        fan.publish(Publish::new(b"more"), Ok(NOW + round)).unwrap();
        poll_at(&consumers[1], &mut fan, 1, NOW + round);
        fan.prune_messages(Prune {
            before_ms: i64::MAX,
            max_messages: 10,
        })
        .unwrap();
    }
    assert_eq!(seen, [1, 2, 3, 4, 5, 6]);
}

#[test]
fn polling_and_acknowledging_until_empty_receives_everything_once() {
    let (mut fan, consumers) = log_with(&["other"], &THREE);
    let worker = fan
        .consumer("x")
        .filter(Filter::topic("x"))
        .open(&mut fan, Ok(NOW))
        .unwrap();
    for number in 0..7u8 {
        let topic = if number % 3 == 1 { "y" } else { "x" };
        fan.publish(Publish::new(&[number]).with_topic(topic), Ok(NOW)).unwrap();
    }
    let mut bodies: Vec<Vec<u8>> = Vec::new();
    loop {
        let deliveries = poll_at(&worker, &mut fan, 2, NOW);
        if deliveries.is_empty() {
            break;
        }
        assert!(deliveries.len() <= 2);
        for delivery in deliveries {
            assert_eq!(delivery.delivery_count, 1);
            assert!(worker.ack(&mut fan, delivery.receipt()).unwrap());
            bodies.push(delivery.message.body);
        }
        poll_at(&consumers[0], &mut fan, 1, NOW);
    }
    assert_eq!(bodies, [vec![0], vec![2], vec![3], vec![5], vec![6]]);
}

#[test]
fn rows_that_were_written_open_again() {
    let (mut fan, consumers) = log_with(&["one", "two"], &THREE);
    let delivery = poll_at(&consumers[0], &mut fan, 2, NOW).remove(0);
    consumers[0].archive(&mut fan, delivery.receipt(), Ok(NOW)).unwrap();
    consumers[1].begin_draining(&mut fan, Ok(NOW)).unwrap();
    let mut deliveries = fan.deliveries().clone();
    deliveries.reverse();
    let again = LiteFan::open(Stored {
        schema_version: 2,
        messages: fan.messages().clone(),
        consumers: fan.consumers().clone(),
        deliveries,
        ledger: fan.ledger().clone(),
        archives: fan.archive_rows().clone(),
        last_message_id: 3,
        last_consumer_id: 2,
        last_archive_id: 1,
    })
    .unwrap();
    assert_eq!(again.snapshot(Ok(NOW)).unwrap(), fan.snapshot(Ok(NOW)).unwrap());
}

#[test]
fn draining_lasts_whatever_happens() {
    let (mut fan, consumers) = log_with(&["one", "two"], &THREE);
    let worker = &consumers[0];
    assert!(worker.begin_draining(&mut fan, Ok(NOW)).unwrap());
    let first = (fan.consumers()[0].draining_at_ms, fan.consumers()[0].drain_cursor);
    assert_eq!(first, (Some(NOW), Some(3)));
    for round in 1..4 {
        fan.publish(Publish::new(b"more"), Ok(NOW + round)).unwrap();
        assert!(!worker.begin_draining(&mut fan, Ok(NOW + round)).unwrap());
        for delivery in poll_at(worker, &mut fan, 1, NOW + round) {
            assert!(worker.ack(&mut fan, delivery.receipt()).unwrap());
        }
        let reopened = fan.consumer("one").open(&mut fan, Ok(NOW + round)).unwrap();
        assert_eq!(reopened.id(), worker.id());
        let row = &fan.consumers()[0];
        assert_eq!((row.draining_at_ms, row.drain_cursor), first);
    }
    fan.delete_consumer("two", DeleteMode::DiscardAll).unwrap();
    assert_eq!(outstanding(worker, &fan), 0);
    assert!(worker.snapshot(&fan, Ok(NOW)).unwrap().is_drained());
}

#[test]
fn requests_are_refused_without_any_rows() {
    let limits = LiteFan::open(Stored::default()).unwrap();
    let after = Retry::After(Duration::from_millis(1_500));
    let span = limits.release_span(500, after, Ok(NOW)).unwrap();
    assert_eq!((span.now, span.until), (NOW, NOW + 1_500));
    assert!(matches!(
        limits.release_span(501, after, Err(Error::ClockBeforeUnixEpoch)),
        Err(Error::BatchTooLarge { requested: 501, maximum: 500 })
    ));
    assert!(matches!(
        limits.release_span(1, after, Err(Error::ClockBeforeUnixEpoch)),
        Err(Error::ClockBeforeUnixEpoch)
    ));
    assert!(matches!(
        limits.release_span(1, after, Ok(i64::MAX)),
        Err(Error::DurationOutOfRange)
    ));

    let span = limits.extension_span(1, Duration::from_micros(2_999), Ok(NOW)).unwrap();
    assert_eq!((span.now, span.until), (NOW, NOW + 2));
    let clock = Err(Error::ClockBeforeUnixEpoch);
    assert!(matches!(
        limits.extension_span(1, Duration::from_micros(999), clock),
        Err(Error::InvalidVisibilityTimeout)
    ));
    assert!(matches!(
        limits.extension_span(1, Duration::MAX, Ok(NOW)),
        Err(Error::DurationOutOfRange)
    ));

    assert_eq!(limits.lease_ms(Poll::default(), true).unwrap(), 30_000);
    assert!(matches!(
        limits.lease_ms(Poll::default(), false),
        Err(Error::InvalidPoll("wait is too large"))
    ));

    let plain = Publish::new(b"a");
    let span = limits.publish_span(&[plain], Ok(i64::MAX)).unwrap();
    assert_eq!((span.now, span.until), (i64::MAX, i64::MAX));
    let keyed = plain.with_idempotency_key(b"k");
    let span = limits.publish_span(&[plain, keyed], Ok(NOW)).unwrap();
    assert_eq!((span.now, span.until), (NOW, NOW + DAY));
    assert!(matches!(
        limits.publish_span(&[keyed], Ok(i64::MAX - DAY + 1)),
        Err(Error::DurationOutOfRange)
    ));
}

#[test]
fn the_rows_of_a_consumer_are_enough_for_its_receipts() {
    let (mut fan, consumers) = log_with(&["one", "two"], &THREE);
    let worker = &consumers[1];
    poll_at(&consumers[0], &mut fan, 3, NOW);
    let leased = poll_at(worker, &mut fan, 3, NOW);
    worker.archive(&mut fan, leased[0].receipt(), Ok(NOW)).unwrap();
    let own: Vec<DeliveryRow> =
        fan.deliveries().iter().filter(|row| row.consumer_id == worker.id()).copied().collect();
    let mut part = LiteFan::open(Stored {
        deliveries: own,
        archives: fan.archive_rows().clone(),
        last_archive_id: 1,
        ..Stored::default()
    })
    .unwrap();
    for log in [&mut fan, &mut part] {
        let delay = Retry::After(Duration::from_secs(7));
        assert!(worker.nack(log, leased[1].receipt(), delay, Ok(NOW)).unwrap());
        assert!(worker.archive(log, leased[2].receipt(), Ok(NOW + 1)).unwrap());
        let id = leased[0].receipt();
        assert!(!worker.ack(log, id).unwrap());
        let first = log.archive_rows()[0].id;
        assert_eq!((first, log.archive_rows().len()), (1, 2));
    }
    let changed = [(2, 2, NOW + 7_000, 2, 1)];
    assert_eq!(fields(part.deliveries()), changed);
    assert_eq!(fields(fan.deliveries())[3..], changed);
    assert_eq!(part.archive_rows()[1].message_id, fan.archive_rows()[1].message_id);
}
