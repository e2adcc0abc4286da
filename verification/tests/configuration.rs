use std::time::Duration;

use litefan::{
    BatchResult, Config, Consumer, DeleteMode, Delivery, Error, ListArchives, LiteFan, Poll,
    PollStep, Prune, PruneOutcome, Publish, PurgeArchives, PurgeArchivesOutcome, Retry, Stored,
};

const NOW: i64 = 1_700_000_000_000;

fn database() -> LiteFan {
    LiteFan::open(Stored::default()).unwrap()
}

fn immediate_poll(max_messages: usize) -> Poll {
    Poll {
        max_messages,
        visibility_timeout: Duration::from_secs(30),
        wait: Duration::ZERO,
    }
}

fn returned(step: PollStep) -> Vec<Delivery> {
    match step {
        PollStep::Return(deliveries) => deliveries,
        PollStep::Wait { .. } => Vec::new(),
    }
}

fn poll_at(consumer: &Consumer, fan: &mut LiteFan, max_messages: usize, now: i64) -> Vec<Delivery> {
    returned(consumer.poll(fan, immediate_poll(max_messages), true, Ok(now)).unwrap())
}

#[test]
fn in_memory_database_uses_one_coherent_connection() {
    let mut fan = LiteFan::open_with_config(
        Stored::default(),
        Config {
            max_connections: 8,
            ..Config::default()
        },
    )
    .unwrap();
    let consumer = fan.consumer("worker").open(&mut fan, Ok(NOW)).unwrap();
    fan.publish(Publish::new(b"work"), Ok(NOW)).unwrap();
    let delivery = poll_at(&consumer, &mut fan, 1, NOW).remove(0);
    assert_eq!(delivery.message.body, b"work");
    assert!(consumer.ack(&mut fan, delivery.receipt()).unwrap());
}

#[test]
fn sub_millisecond_durable_timeouts_are_rejected() {
    let error = LiteFan::open_with_config(
        Stored::default(),
        Config {
            idempotency_window: Duration::from_nanos(1),
            ..Config::default()
        },
    )
    .unwrap_err();
    assert!(matches!(error, Error::InvalidConfig(_)));

    let mut fan = database();
    let consumer = fan.consumer("worker").open(&mut fan, Ok(NOW)).unwrap();
    let error = consumer
        .poll(
            &mut fan,
            Poll {
                visibility_timeout: Duration::from_nanos(1),
                ..immediate_poll(1)
            },
            true,
            Ok(NOW),
        )
        .unwrap_err();
    assert!(matches!(error, Error::InvalidVisibilityTimeout));
}

#[test]
fn an_unrepresentable_poll_deadline_is_rejected() {
    let mut fan = database();
    let consumer = fan.consumer("worker").open(&mut fan, Ok(NOW)).unwrap();
    let error = consumer
        .poll(
            &mut fan,
            Poll {
                wait: Duration::MAX,
                ..Poll::default()
            },
            false,
            Ok(NOW),
        )
        .unwrap_err();
    assert!(matches!(error, Error::InvalidPoll("wait is too large")));
}

#[test]
fn zero_idempotency_window_is_rejected() {
    let error = LiteFan::open_with_config(
        Stored::default(),
        Config {
            idempotency_window: Duration::ZERO,
            ..Config::default()
        },
    )
    .unwrap_err();
    assert!(matches!(error, Error::InvalidConfig(_)));
}

#[test]
fn configured_batch_limit_is_enforced_consistently() {
    let mut fan = LiteFan::open_with_config(
        Stored::default(),
        Config {
            max_batch_size: 2,
            ..Config::default()
        },
    )
    .unwrap();
    assert_eq!(fan.max_batch_size(), 2);
    let consumer = fan.consumer("worker").open(&mut fan, Ok(NOW)).unwrap();
    let too_many = [Publish::new(b"a"), Publish::new(b"b"), Publish::new(b"c")];

    let publish_error = fan.publish_batch(&too_many, Ok(NOW)).unwrap_err();
    assert!(matches!(
        publish_error,
        Error::BatchTooLarge {
            requested: 3,
            maximum: 2,
        }
    ));

    fan.publish_batch(&too_many[..2], Ok(NOW)).unwrap();
    let poll_error = consumer
        .poll(&mut fan, immediate_poll(3), true, Ok(NOW))
        .unwrap_err();
    assert!(matches!(poll_error, Error::BatchTooLarge { .. }));
    let deliveries = poll_at(&consumer, &mut fan, 2, NOW);
    let receipt = deliveries[0].receipt();
    let receipt_error = consumer
        .ack_batch(&mut fan, &[receipt, receipt, receipt])
        .unwrap_err();
    assert!(matches!(receipt_error, Error::BatchTooLarge { .. }));
    let archive_error = consumer
        .archive_batch(&mut fan, &[receipt, receipt, receipt], Ok(NOW))
        .unwrap_err();
    assert!(matches!(archive_error, Error::BatchTooLarge { .. }));
    let list_error = consumer
        .archives(
            &fan,
            ListArchives {
                after: None,
                max_archives: 3,
            },
        )
        .unwrap_err();
    assert!(matches!(list_error, Error::BatchTooLarge { .. }));

    let prune_error = fan
        .prune_messages(Prune {
            before_ms: i64::MAX,
            max_messages: 3,
        })
        .unwrap_err();
    assert!(matches!(prune_error, Error::BatchTooLarge { .. }));
}

#[test]
fn empty_operations_are_explicit_no_ops() {
    let mut fan = database();
    let consumer = fan.consumer("worker").open(&mut fan, Ok(NOW)).unwrap();

    assert!(fan.publish_batch(&[], Ok(NOW)).unwrap().is_empty());
    assert_eq!(
        consumer.ack_batch(&mut fan, &[]).unwrap(),
        BatchResult::default()
    );
    assert_eq!(
        consumer
            .nack_batch(&mut fan, &[], Retry::Immediately, Ok(NOW))
            .unwrap(),
        BatchResult::default()
    );
    assert_eq!(
        consumer.archive_batch(&mut fan, &[], Ok(NOW)).unwrap(),
        BatchResult::default()
    );
    assert_eq!(
        consumer
            .redrive_batch(&mut fan, &[], Retry::Immediately, Ok(NOW))
            .unwrap(),
        BatchResult::default()
    );
    assert!(consumer
        .archives(
            &fan,
            ListArchives {
                after: None,
                max_archives: 0,
            }
        )
        .unwrap()
        .is_empty());
    assert_eq!(
        consumer
            .purge_archives(
                &mut fan,
                PurgeArchives {
                    before_ms: i64::MAX,
                    max_archives: 0,
                }
            )
            .unwrap(),
        PurgeArchivesOutcome::default()
    );
    assert_eq!(
        consumer
            .extend_visibility_batch(&mut fan, &[], Duration::ZERO, Ok(NOW))
            .unwrap(),
        BatchResult::default()
    );
    assert!(returned(
        consumer
            .poll(
                &mut fan,
                Poll {
                    max_messages: 0,
                    visibility_timeout: Duration::ZERO,
                    wait: Duration::MAX,
                },
                false,
                Ok(NOW)
            )
            .unwrap()
    )
    .is_empty());
    assert_eq!(
        fan.prune_messages(Prune {
            before_ms: i64::MAX,
            max_messages: 0,
        })
        .unwrap(),
        PruneOutcome::default()
    );
}

#[test]
fn invalid_consumer_and_schema_errors_preserve_context() {
    let mut fan = database();

    assert!(matches!(
        fan.consumer("").open(&mut fan, Ok(NOW)),
        Err(Error::EmptyConsumerName)
    ));
    assert!(matches!(
        fan.delete_consumer("missing", DeleteMode::DrainedOnly),
        Err(Error::ConsumerNotFound { name }) if name == "missing"
    ));

    assert!(matches!(
        LiteFan::open(Stored {
            schema_version: 3,
            ..Stored::default()
        }),
        Err(Error::UnsupportedSchemaVersion {
            found: 3,
            maximum: 2,
        })
    ));
}

#[test]
fn a_clock_error_is_reported_and_changes_nothing() {
    let mut fan = database();
    let consumer = fan.consumer("worker").open(&mut fan, Ok(NOW)).unwrap();
    fan.publish(Publish::new(b"work"), Ok(NOW)).unwrap();
    let early = Error::ClockBeforeUnixEpoch;
    assert!(matches!(
        fan.publish(Publish::new(b"lost"), Err(early)),
        Err(Error::ClockBeforeUnixEpoch)
    ));
    assert!(matches!(
        consumer.poll(&mut fan, immediate_poll(1), true, Err(Error::DurationOutOfRange)),
        Err(Error::DurationOutOfRange)
    ));
    assert_eq!(fan.messages().len(), 1);
    assert_eq!(fan.deliveries().len(), 0);
}

#[test]
fn leases_and_keys_beyond_the_end_of_time_are_rejected() {
    let mut fan = database();
    let consumer = fan.consumer("worker").open(&mut fan, Ok(NOW)).unwrap();
    fan.publish(Publish::new(b"work"), Ok(NOW)).unwrap();
    assert!(matches!(
        consumer.poll(&mut fan, immediate_poll(1), true, Ok(i64::MAX)),
        Err(Error::DurationOutOfRange)
    ));
    assert!(matches!(
        fan.publish(Publish::new(b"work").with_idempotency_key(b"key"), Ok(i64::MAX)),
        Err(Error::DurationOutOfRange)
    ));
    let delivery = poll_at(&consumer, &mut fan, 1, NOW).remove(0);
    assert!(matches!(
        consumer.nack(
            &mut fan,
            delivery.receipt(),
            Retry::After(Duration::MAX),
            Ok(NOW)
        ),
        Err(Error::DurationOutOfRange)
    ));
    assert!(matches!(
        consumer.extend_visibility(&mut fan, delivery.receipt(), Duration::MAX, Ok(NOW)),
        Err(Error::DurationOutOfRange)
    ));
    assert!(matches!(
        consumer.extend_visibility(&mut fan, delivery.receipt(), Duration::from_nanos(1), Ok(NOW)),
        Err(Error::InvalidVisibilityTimeout)
    ));
}
