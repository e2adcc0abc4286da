use std::time::Duration;

use litefan::api::Synchronous;
use litefan::error::{consumer_text, remaining_text, sqlite_text, Error};
use litefan::schema::check_version;
use litefan::time::{add_duration, duration_ms, duration_until_ms, now_ms, unix_ms, validate_config};
use litefan::{Config, ConsumerSnapshot, ConsumerState, Filter, Poll, Publish, Retry};

#[test]
fn publish_builder_preserves_optional_metadata() {
    let publish = Publish::new(b"body")
        .with_topic("jobs")
        .with_idempotency_key(b"key");

    assert_eq!(publish.body, b"body");
    assert_eq!(publish.topic, Some("jobs"));
    assert_eq!(publish.idempotency_key, Some(b"key".as_slice()));
}

#[test]
fn snapshot_helpers_describe_consumer_progress() {
    let mut snapshot = ConsumerSnapshot {
        name: "worker".into(),
        filter: Filter::All,
        state: ConsumerState::Active,
        created_at_ms: 0,
        draining_at_ms: None,
        outstanding: 2,
        ready: 1,
        next_ready_at_ms: Some(1),
        oldest_outstanding_at_ms: Some(0),
        archived: 0,
    };

    assert!(!snapshot.is_empty());
    assert!(!snapshot.is_drained());
    assert_eq!(snapshot.not_ready(), 1);

    snapshot.state = ConsumerState::Draining;
    snapshot.outstanding = 0;
    snapshot.ready = 1;
    assert!(snapshot.is_empty());
    assert!(snapshot.is_drained());
    assert_eq!(snapshot.not_ready(), 0);
}

#[test]
fn errors_have_actionable_messages() {
    assert_eq!(
        Error::BatchTooLarge {
            requested: 10,
            maximum: 5,
        }
        .to_string(),
        "batch contains 10 items; maximum is 5"
    );
    assert_eq!(
        Error::ConsumerNotEmpty {
            name: "worker".into(),
            outstanding: 2,
        }
        .to_string(),
        "consumer \"worker\" still has 2 outstanding deliveries"
    );
}

#[test]
fn every_error_describes_itself() {
    let name = || "a\"b".to_string();
    let cases = [
        (Error::ConsumerConfigurationMismatch { name: name() },
            "consumer \"a\\\"b\" already exists with a different filter"),
        (Error::EmptyConsumerName, "consumer name cannot be empty"),
        (Error::InvalidConfig("x"), "invalid configuration: x"),
        (Error::InvalidPoll("y"), "invalid poll: y"),
        (Error::InvalidVisibilityTimeout, "visibility timeout must be at least one millisecond"),
        (Error::IncompatibleSchema,
            "database contains an incompatible unversioned litefan schema"),
        (Error::UnsupportedSchemaVersion { found: -10, maximum: 2 },
            "database schema version -10 is newer than supported version 2"),
        (Error::IncompleteIdempotencyEntry, "idempotency ledger contains an incomplete entry"),
        (Error::ConsumerDeleted { name: name() }, "consumer \"a\\\"b\" has been deleted"),
        (Error::ConsumerNotFound { name: name() }, "consumer \"a\\\"b\" does not exist"),
        (Error::ConsumerNotDraining { name: name() }, "consumer \"a\\\"b\" is still active"),
        (Error::ConsumerHasArchives { name: "w".into(), archived: 1_203 },
            "consumer \"w\" still has 1203 archived deliveries"),
        (Error::ClockBeforeUnixEpoch, "system clock is before the Unix epoch"),
        (Error::DurationOutOfRange, "duration does not fit in SQLite milliseconds"),
        (Error::CounterOutOfRange, "SQLite counter does not fit in the Rust type"),
        (Error::StorageInvariant("z"), "storage invariant violated: z"),
    ];
    for (error, text) in cases {
        assert_eq!(error.to_string(), text);
        assert!(error.source().is_none());
    }
    assert_eq!(sqlite_text("locked"), "SQLite error: locked");
    assert_eq!(consumer_text("<w>", " is gone"), "consumer <w> is gone");
    assert_eq!(remaining_text("<w>", 120, " parcels"), "consumer <w> still has 120 parcels");
    let outer = Error::from(sqlx::Error::RowNotFound);
    assert_eq!(
        outer.to_string(),
        format!("SQLite error: {}", sqlx::Error::RowNotFound)
    );
    assert!(matches!(outer.source(), Some(sqlx::Error::RowNotFound)));
}

#[test]
fn duration_conversion_truncates_sub_millisecond_precision() {
    assert_eq!(duration_ms(Duration::from_micros(1_999)).unwrap(), 1);
}

#[test]
fn timestamp_addition_checks_overflow() {
    assert_eq!(add_duration(10, Duration::from_millis(5)).unwrap(), 15);
    assert!(matches!(
        add_duration(i64::MAX, Duration::from_millis(1)),
        Err(Error::DurationOutOfRange)
    ));
}

#[test]
fn config_validation_covers_independent_limits() {
    let invalid = [
        Config {
            max_connections: 0,
            ..Config::default()
        },
        Config {
            max_batch_size: 0,
            ..Config::default()
        },
        Config {
            cross_process_poll_interval: Duration::ZERO,
            ..Config::default()
        },
        Config {
            idempotency_window: Duration::ZERO,
            ..Config::default()
        },
    ];

    for config in invalid {
        assert!(matches!(
            validate_config(&config),
            Err(Error::InvalidConfig(_))
        ));
    }
    assert!(validate_config(&Config::default()).is_ok());
}

#[test]
fn config_validation_rejects_what_cannot_be_stored() {
    assert!(matches!(
        validate_config(&Config {
            idempotency_window: Duration::MAX,
            ..Config::default()
        }),
        Err(Error::InvalidConfig("idempotency_window must fit in SQLite milliseconds"))
    ));
    assert!(matches!(
        validate_config(&Config {
            max_batch_size: usize::MAX,
            ..Config::default()
        }),
        Err(Error::InvalidConfig("max_batch_size must fit in SQLite"))
    ));
}

#[test]
fn defaults_are_documented_values() {
    let config = Config::default().clone();
    assert_eq!(config.max_connections, 4);
    assert_eq!(config.max_batch_size, 500);
    assert_eq!(config.busy_timeout, Duration::from_secs(5));
    assert_eq!(config.synchronous, Synchronous::Normal);
    assert_eq!(config.wal_autocheckpoint_pages, 1_000);
    assert_eq!(config.cross_process_poll_interval, Duration::from_millis(250));
    assert_eq!(config.idempotency_window, Duration::from_secs(86_400));
    assert_eq!(config.connections(false), 4);
    assert_eq!(config.connections(true), 1);
    let poll = Poll::default();
    assert_eq!(poll.max_messages, 100);
    assert_eq!(poll.visibility_timeout, Duration::from_secs(30));
    assert_eq!(poll.wait, Duration::from_secs(20));
    assert_eq!(Filter::default(), Filter::All);
    assert_eq!(Filter::All.as_database_value(), None);
    assert_eq!(Filter::topic("jobs").as_database_value(), Some("jobs"));
    assert_eq!(Retry::Immediately.delay(), Duration::ZERO);
    assert_eq!(Retry::After(Duration::from_secs(3)).delay(), Duration::from_secs(3));
}

#[test]
fn the_clock_is_read_in_milliseconds() {
    assert_eq!(unix_ms(Some(Duration::from_micros(2_500))).unwrap(), 2);
    assert!(matches!(unix_ms(None), Err(Error::ClockBeforeUnixEpoch)));
    assert!(matches!(unix_ms(Some(Duration::MAX)), Err(Error::DurationOutOfRange)));
    // The first of January 2020.
    assert!(now_ms().unwrap() > 1_577_836_800_000);
    assert_eq!(duration_until_ms(25, 10), Duration::from_millis(15));
    assert_eq!(duration_until_ms(10, 25), Duration::ZERO);
}

#[test]
fn schema_versions_are_accepted_up_to_the_current_one() {
    assert!(check_version(0).unwrap());
    assert!(check_version(1).unwrap());
    assert!(!check_version(2).unwrap());
    assert!(matches!(
        check_version(3),
        Err(Error::UnsupportedSchemaVersion { found: 3, maximum: 2 })
    ));
}
