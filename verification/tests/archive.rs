use std::time::Duration;

use litefan::{
    BatchResult, Consumer, DeleteMode, Delivery, Error, ListArchives, LiteFan, Poll, PollStep,
    Prune, Publish, PurgeArchives, PurgeArchivesOutcome, Receipt, Retry, Stored,
};

const NOW: i64 = 1_700_000_000_000;

fn database() -> LiteFan {
    LiteFan::open(Stored::default()).unwrap()
}

fn immediate_poll(max_messages: usize) -> Poll {
    Poll {
        max_messages,
        visibility_timeout: Duration::from_secs(30),
        wait: Duration::ZERO,
    }
}

fn returned(step: PollStep) -> Vec<Delivery> {
    match step {
        PollStep::Return(deliveries) => deliveries,
        PollStep::Wait { .. } => Vec::new(),
    }
}

fn poll_at(consumer: &Consumer, fan: &mut LiteFan, max_messages: usize, now: i64) -> Vec<Delivery> {
    returned(consumer.poll(fan, immediate_poll(max_messages), true, Ok(now)).unwrap())
}

#[test]
fn manual_archive_is_per_consumer_and_preserves_diagnostics() {
    let mut fan = database();
    let first = fan.consumer("first").open(&mut fan, Ok(NOW)).unwrap();
    let second = fan.consumer("second").open(&mut fan, Ok(NOW)).unwrap();
    fan.publish(Publish::new(b"poison").with_topic("jobs"), Ok(NOW))
        .unwrap();

    let delivery = poll_at(&first, &mut fan, 1, NOW).remove(0);
    assert!(first
        .archive_with_detail(&mut fan, delivery.receipt(), "invalid payload", Ok(NOW))
        .unwrap());
    assert!(!first.archive(&mut fan, delivery.receipt(), Ok(NOW)).unwrap());
    assert!(!first.ack(&mut fan, delivery.receipt()).unwrap());
    assert!(poll_at(&first, &mut fan, 1, NOW).is_empty());

    let archives = first.archives(&fan, ListArchives::default()).unwrap();
    assert_eq!(archives.len(), 1);
    assert_eq!(archives[0].message.body, b"poison");
    assert_eq!(archives[0].message.topic.as_deref(), Some("jobs"));
    assert_eq!(archives[0].delivery_count, 1);
    assert_eq!(archives[0].detail.as_deref(), Some("invalid payload"));

    let other = poll_at(&second, &mut fan, 1, NOW).remove(0);
    assert_eq!(other.message.id, archives[0].message.id);
    assert!(second.ack(&mut fan, other.receipt()).unwrap());

    let snapshot = first.snapshot(&fan, Ok(NOW)).unwrap();
    assert_eq!(snapshot.outstanding, 0);
    assert_eq!(snapshot.archived, 1);
    let store = fan.snapshot(Ok(NOW)).unwrap();
    assert_eq!(store.outstanding_deliveries, 0);
    assert_eq!(store.archived_deliveries, 1);
}

#[test]
fn stale_receipt_cannot_archive_a_newer_attempt() {
    let mut fan = database();
    let consumer = fan.consumer("worker").open(&mut fan, Ok(NOW)).unwrap();
    fan.publish(Publish::new(b"retry"), Ok(NOW)).unwrap();

    let first = poll_at(&consumer, &mut fan, 1, NOW).remove(0);
    assert!(consumer
        .nack(&mut fan, first.receipt(), Retry::Immediately, Ok(NOW))
        .unwrap());
    let second = poll_at(&consumer, &mut fan, 1, NOW).remove(0);
    assert!(!consumer.archive(&mut fan, first.receipt(), Ok(NOW)).unwrap());
    assert!(consumer.archive(&mut fan, second.receipt(), Ok(NOW)).unwrap());
    assert_eq!(
        consumer.archives(&fan, ListArchives::default()).unwrap()[0].delivery_count,
        2
    );
}

#[test]
fn archives_are_paginated_redriven_and_purged_without_republishing() {
    let mut fan = database();
    let consumer = fan.consumer("worker").open(&mut fan, Ok(NOW)).unwrap();
    let observer = fan.consumer("observer").open(&mut fan, Ok(NOW)).unwrap();
    fan.publish_batch(&[Publish::new(b"a"), Publish::new(b"b")], Ok(NOW))
        .unwrap();
    let deliveries = poll_at(&consumer, &mut fan, 2, NOW);
    let receipts: Vec<Receipt> = deliveries.iter().map(Delivery::receipt).collect();
    assert_eq!(
        consumer.archive_batch(&mut fan, &receipts, Ok(NOW)).unwrap(),
        BatchResult {
            applied: 2,
            stale: 0,
        }
    );

    let first_page = consumer
        .archives(
            &fan,
            ListArchives {
                after: None,
                max_archives: 1,
            },
        )
        .unwrap();
    let second_page = consumer
        .archives(
            &fan,
            ListArchives {
                after: Some(first_page[0].id),
                max_archives: 1,
            },
        )
        .unwrap();
    assert_eq!(first_page[0].message.body, b"a");
    assert_eq!(second_page[0].message.body, b"b");

    assert!(consumer
        .redrive(&mut fan, first_page[0].id, Retry::Immediately, Ok(NOW))
        .unwrap());
    assert!(!consumer
        .redrive(&mut fan, first_page[0].id, Retry::Immediately, Ok(NOW))
        .unwrap());
    let redriven = poll_at(&consumer, &mut fan, 1, NOW).remove(0);
    assert_eq!(redriven.message.body, b"a");
    assert_eq!(redriven.delivery_count, 1);
    assert!(consumer.ack(&mut fan, redriven.receipt()).unwrap());

    // Redrive restores only this consumer's copy; it does not publish again.
    assert_eq!(poll_at(&observer, &mut fan, 10, NOW).len(), 2);
    assert!(poll_at(&observer, &mut fan, 1, NOW).is_empty());

    assert_eq!(
        consumer
            .purge_archives(
                &mut fan,
                PurgeArchives {
                    before_ms: i64::MAX,
                    max_archives: 1,
                }
            )
            .unwrap(),
        PurgeArchivesOutcome {
            deleted_archives: 1,
        }
    );
    assert!(consumer
        .archives(&fan, ListArchives::default())
        .unwrap()
        .is_empty());
}

#[test]
fn archives_retain_messages_until_the_archive_is_purged() {
    let mut fan = database();
    let consumer = fan.consumer("worker").open(&mut fan, Ok(NOW)).unwrap();
    fan.publish(Publish::new(b"retained"), Ok(NOW)).unwrap();
    let delivery = poll_at(&consumer, &mut fan, 1, NOW).remove(0);
    consumer.archive(&mut fan, delivery.receipt(), Ok(NOW)).unwrap();

    let prune = Prune {
        before_ms: i64::MAX,
        max_messages: 1,
    };
    assert_eq!(fan.prune_messages(prune).unwrap().deleted_messages, 0);
    consumer
        .purge_archives(
            &mut fan,
            PurgeArchives {
                before_ms: i64::MAX,
                max_archives: 1,
            },
        )
        .unwrap();
    assert_eq!(fan.prune_messages(prune).unwrap().deleted_messages, 1);
}

#[test]
fn consumer_deletion_requires_explicit_archive_discard() {
    let mut fan = database();
    let consumer = fan.consumer("worker").open(&mut fan, Ok(NOW)).unwrap();
    fan.publish(Publish::new(b"archive"), Ok(NOW)).unwrap();
    let delivery = poll_at(&consumer, &mut fan, 1, NOW).remove(0);
    consumer.archive(&mut fan, delivery.receipt(), Ok(NOW)).unwrap();
    consumer.begin_draining(&mut fan, Ok(NOW)).unwrap();
    assert!(consumer.snapshot(&fan, Ok(NOW)).unwrap().is_drained());

    assert!(matches!(
        fan.delete_consumer("worker", DeleteMode::DrainedOnly),
        Err(Error::ConsumerHasArchives { archived: 1, .. })
    ));
    let deleted = fan
        .delete_consumer("worker", DeleteMode::DiscardAll)
        .unwrap();
    assert_eq!(deleted.discarded_deliveries, 0);
    assert_eq!(deleted.discarded_archives, 1);
}

#[test]
fn receipts_from_before_an_archive_stay_stale_after_a_redrive() {
    let mut fan = database();
    let consumer = fan.consumer("worker").open(&mut fan, Ok(NOW)).unwrap();
    fan.publish(Publish::new(b"again"), Ok(NOW)).unwrap();
    let old = poll_at(&consumer, &mut fan, 1, NOW).remove(0);
    consumer.archive(&mut fan, old.receipt(), Ok(NOW)).unwrap();
    let id = consumer.archives(&fan, ListArchives::default()).unwrap()[0].id;
    assert_eq!(id.get(), 1);

    let later = Retry::After(Duration::from_secs(5));
    assert_eq!(
        consumer.redrive_batch(&mut fan, &[id, id], later, Ok(NOW)).unwrap(),
        BatchResult {
            applied: 1,
            stale: 1
        }
    );
    assert!(!consumer.ack(&mut fan, old.receipt()).unwrap());
    assert!(poll_at(&consumer, &mut fan, 1, NOW + 4_999).is_empty());
    let new = poll_at(&consumer, &mut fan, 1, NOW + 5_000).remove(0);
    assert_eq!(new.delivery_count, 1);
    assert!(!consumer.ack(&mut fan, old.receipt()).unwrap());
    assert!(consumer.ack(&mut fan, new.receipt()).unwrap());
}

#[test]
fn archives_of_another_consumer_are_out_of_reach() {
    let mut fan = database();
    let first = fan.consumer("first").open(&mut fan, Ok(NOW)).unwrap();
    let second = fan.consumer("second").open(&mut fan, Ok(NOW)).unwrap();
    fan.publish(Publish::new(b"mine"), Ok(NOW)).unwrap();
    let delivery = poll_at(&first, &mut fan, 1, NOW).remove(0);
    first.archive(&mut fan, delivery.receipt(), Ok(NOW)).unwrap();
    let id = first.archives(&fan, ListArchives::default()).unwrap()[0].id;

    assert!(second.archives(&fan, ListArchives::default()).unwrap().is_empty());
    assert!(!second.redrive(&mut fan, id, Retry::Immediately, Ok(NOW)).unwrap());
    let purge = PurgeArchives {
        before_ms: i64::MAX,
        max_archives: 10,
    };
    assert_eq!(second.purge_archives(&mut fan, purge).unwrap().deleted_archives, 0);
    // The bound on the time is exclusive.
    let exact = PurgeArchives {
        before_ms: NOW,
        max_archives: 10,
    };
    assert_eq!(first.purge_archives(&mut fan, exact).unwrap().deleted_archives, 0);
    assert_eq!(first.purge_archives(&mut fan, purge).unwrap().deleted_archives, 1);
}
