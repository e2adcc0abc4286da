use litefan::sync::{removed, written};
use litefan::{
    ArchiveRow, Config, ConsumerRow, DeliveryRow, Error, Filter, LedgerRow, LiteFan, MessageRow,
    Publish, Stored,
};

const NOW: i64 = 1_700_000_000_000;

fn message(id: i64, body: &[u8]) -> MessageRow {
    MessageRow {
        id,
        topic: None,
        body: body.to_vec(),
        published_at_ms: NOW,
    }
}

fn consumer(id: i64, name: &str, scan_cursor: i64) -> ConsumerRow {
    ConsumerRow {
        id,
        name: name.to_string(),
        filter: Filter::All,
        created_at_ms: NOW,
        draining_at_ms: None,
        scan_cursor,
        drain_cursor: None,
    }
}

fn delivery(consumer_id: i64, message_id: i64) -> DeliveryRow {
    DeliveryRow {
        consumer_id,
        message_id,
        visible_at_ms: NOW,
        generation: 1,
        delivery_count: 1,
    }
}

fn archive(id: i64, consumer_id: i64, message_id: i64) -> ArchiveRow {
    ArchiveRow {
        id,
        consumer_id,
        message_id,
        generation: 1,
        delivery_count: 1,
        archived_at_ms: NOW,
        detail: None,
    }
}

fn key(key: &[u8], message_id: Option<i64>) -> LedgerRow {
    LedgerRow {
        key: key.to_vec(),
        message_id,
        expires_at_ms: NOW + 1,
    }
}

fn stored() -> Stored {
    Stored {
        schema_version: 2,
        messages: vec![message(3, b"c"), message(5, b"e")],
        consumers: vec![consumer(1, "one", 5), consumer(4, "four", 3)],
        deliveries: vec![delivery(1, 3)],
        ledger: vec![key(b"k", Some(2))],
        archives: vec![archive(7, 1, 5)],
        last_message_id: 6,
        last_consumer_id: 4,
        last_archive_id: 9,
    }
}

fn refused(stored: Stored) -> bool {
    matches!(LiteFan::open(stored), Err(Error::StorageInvariant(_)))
}

#[test]
fn stored_rows_are_resumed() {
    let mut fan = LiteFan::open(stored()).unwrap();
    assert_eq!(fan.messages().len(), 2);
    assert_eq!(fan.archive_rows().len(), 1);
    let outcome = fan.publish(Publish::new(b"next"), Ok(NOW)).unwrap();
    assert_eq!(outcome.id().get(), 7);
    let four = fan.consumer("four").open(&mut fan, Ok(NOW)).unwrap();
    assert_eq!(four.snapshot(&fan, Ok(NOW)).unwrap().outstanding, 2);
    let one = fan.consumer("one").open(&mut fan, Ok(NOW)).unwrap();
    let snapshot = one.snapshot(&fan, Ok(NOW)).unwrap();
    assert_eq!(snapshot.outstanding, 2);
    assert_eq!(snapshot.archived, 1);
}

#[test]
fn rows_that_break_a_constraint_are_refused() {
    assert!(refused(Stored { messages: vec![message(5, b"e"), message(3, b"c")], ..stored() }));
    assert!(refused(Stored { messages: vec![message(5, b"e"), message(5, b"c")], ..stored() }));
    assert!(refused(Stored {
        consumers: vec![consumer(1, "one", 5), consumer(4, "one", 3)],
        ..stored()
    }));
    assert!(refused(Stored { consumers: vec![consumer(1, "one", -1)], ..stored() }));
    assert!(refused(Stored { deliveries: vec![delivery(1, 3), delivery(1, 3)], ..stored() }));
    assert!(refused(Stored { ledger: vec![key(b"k", None), key(b"k", None)], ..stored() }));
    assert!(refused(Stored { archives: vec![archive(7, 1, 5), archive(8, 1, 5)], ..stored() }));
    let mut limited = stored();
    limited.consumers[0].drain_cursor = Some(4);
    assert!(refused(limited));
    let mut counted = stored();
    counted.deliveries[0].delivery_count = -1;
    assert!(refused(counted));
    let mut generation = stored();
    generation.archives[0].generation = -1;
    assert!(refused(generation));
}

#[test]
fn identifiers_go_on_after_rows_that_were_put_in() {
    let mut fan = LiteFan::open(Stored {
        last_message_id: 4,
        last_consumer_id: 0,
        ..stored()
    })
    .unwrap();
    assert_eq!(fan.publish(Publish::new(b"f"), Ok(NOW)).unwrap().id().get(), 6);
    let new = fan.consumer("new").open(&mut fan, Ok(NOW)).unwrap();
    assert_eq!(new.id(), 5);
    // A key may stand for any identifier.
    let mut fan = LiteFan::open(Stored { ledger: vec![key(b"k", Some(70))], ..stored() }).unwrap();
    let publish = Publish::new(b"g").with_idempotency_key(b"k");
    let outcome = fan.publish(publish, Ok(NOW)).unwrap();
    assert_eq!((outcome.id().get(), outcome.is_published()), (70, false));
}

#[test]
fn a_cursor_beyond_the_log_skips_what_comes() {
    let mut fan =
        LiteFan::open(Stored { consumers: vec![consumer(1, "one", 7)], ..stored() }).unwrap();
    let one = fan.consumer("one").open(&mut fan, Ok(NOW)).unwrap();
    fan.publish_batch(&[Publish::new(b"7"), Publish::new(b"8")], Ok(NOW)).unwrap();
    let snapshot = one.snapshot(&fan, Ok(NOW)).unwrap();
    assert_eq!(snapshot.outstanding, 2);
    let claim = one.claim(&mut fan, 5, 10, Ok(NOW)).unwrap();
    let ids: Vec<i64> = claim.deliveries.iter().map(|d| d.message.id.get()).collect();
    assert_eq!(ids, [3, 8]);
}

#[test]
fn a_delivery_without_its_message_is_reported_and_leased() {
    let mut fan =
        LiteFan::open(Stored { deliveries: vec![delivery(1, 4)], ..stored() }).unwrap();
    let one = fan.consumer("one").open(&mut fan, Ok(NOW)).unwrap();
    assert!(matches!(
        one.claim(&mut fan, 5, 10, Ok(NOW)),
        Err(Error::StorageInvariant("a claimed delivery has no matching message"))
    ));
    let row = fan.deliveries()[0];
    assert_eq!((row.visible_at_ms, row.generation, row.delivery_count), (NOW + 10, 2, 2));
    // While the lease runs the other work goes on.
    fan.publish(Publish::new(b"f"), Ok(NOW)).unwrap();
    let claim = one.claim(&mut fan, 5, 10, Ok(NOW)).unwrap();
    assert_eq!(claim.deliveries[0].message.body, b"f");
}

#[test]
fn a_delivery_ahead_of_the_cursor_is_not_made_twice() {
    let mut fan =
        LiteFan::open(Stored { deliveries: vec![delivery(4, 5)], ..stored() }).unwrap();
    let four = fan.consumer("four").open(&mut fan, Ok(NOW)).unwrap();
    assert!(matches!(
        four.claim(&mut fan, 2, 10, Ok(NOW)),
        Err(Error::StorageInvariant("a new delivery already exists"))
    ));
    assert_eq!(fan.deliveries()[0].generation, 1);
    assert_eq!(fan.consumers()[1].scan_cursor, 3);
    // A claim that has no room for new messages does not come across it.
    let claim = four.claim(&mut fan, 1, 10, Ok(NOW)).unwrap();
    assert_eq!(claim.deliveries[0].message.body, b"e");
    assert_eq!(claim.deliveries[0].delivery_count, 2);
}

#[test]
fn a_copy_among_deliveries_and_archives_is_reported() {
    let mut fan =
        LiteFan::open(Stored { deliveries: vec![delivery(1, 5)], ..stored() }).unwrap();
    let one = fan.consumer("one").open(&mut fan, Ok(NOW)).unwrap();
    let receipt = fan.deliveries()[0].receipt();
    assert!(matches!(
        one.archive(&mut fan, receipt, Ok(NOW)),
        Err(Error::StorageInvariant("a delivery is already archived"))
    ));
    let id = one.archives(&fan, litefan::ListArchives::default()).unwrap()[0].id;
    assert!(matches!(
        one.redrive(&mut fan, id, litefan::Retry::Immediately, Ok(NOW)),
        Err(Error::StorageInvariant("an archived delivery is still outstanding"))
    ));
    assert_eq!((fan.deliveries().len(), fan.archive_rows().len()), (1, 1));
    assert!(one.ack(&mut fan, receipt).unwrap());
    assert!(one.redrive(&mut fan, id, litefan::Retry::Immediately, Ok(NOW)).unwrap());
}

#[test]
fn an_archived_delivery_without_its_message_is_reported() {
    let fan = LiteFan::open(Stored {
        archives: vec![archive(7, 1, 5), archive(8, 1, 4)],
        ..stored()
    })
    .unwrap();
    let mut fan = fan;
    let one = fan.consumer("one").open(&mut fan, Ok(NOW)).unwrap();
    let list = |max_archives| litefan::ListArchives { after: None, max_archives };
    assert_eq!(one.archives(&fan, list(1)).unwrap().len(), 1);
    assert!(matches!(
        one.archives(&fan, list(2)),
        Err(Error::StorageInvariant("an archived delivery has no matching message"))
    ));
}

#[test]
fn draining_without_a_limit_goes_on_receiving() {
    let mut rows = stored();
    rows.consumers[0].draining_at_ms = Some(NOW);
    rows.consumers[1].filter = Filter::topic("jobs");
    rows.deliveries.push(delivery(4, 3));
    let mut fan = LiteFan::open(rows).unwrap();
    fan.publish(Publish::new(b"f"), Ok(NOW)).unwrap();
    let one = fan.consumer("one").open(&mut fan, Ok(NOW)).unwrap();
    let claim = one.claim(&mut fan, 5, 10, Ok(NOW)).unwrap();
    assert!(claim.draining);
    assert_eq!(claim.deliveries.len(), 2);
    // A delivery that the filter would not let through is handed out all the same.
    let four = fan
        .consumer("four")
        .filter(Filter::topic("jobs"))
        .open(&mut fan, Ok(NOW))
        .unwrap();
    let claim = four.claim(&mut fan, 5, 10, Ok(NOW)).unwrap();
    assert_eq!(claim.deliveries[0].message.body, b"c");
    assert_eq!(claim.deliveries.len(), 1);
}

#[test]
fn a_cursor_cannot_start_below_zero() {
    let mut fan = LiteFan::open(Stored {
        messages: vec![message(-5, b"a")],
        consumers: vec![consumer(1, "one", 0)],
        last_message_id: -10,
        deliveries: Vec::new(),
        archives: Vec::new(),
        ..stored()
    })
    .unwrap();
    assert!(matches!(
        fan.consumer("new").open(&mut fan, Ok(NOW)),
        Err(Error::StorageInvariant("a scan cursor cannot be negative"))
    ));
    assert!(fan.consumer("one").open(&mut fan, Ok(NOW)).is_ok());
    assert_eq!(fan.publish(Publish::new(b"b"), Ok(NOW)).unwrap().id().get(), -4);
}

#[test]
fn a_key_without_a_message_can_still_publish() {
    let mut fan = LiteFan::open(Stored { ledger: vec![key(b"k", None)], ..stored() }).unwrap();
    let publish = Publish::new(b"late").with_idempotency_key(b"k");
    assert!(fan.publish(publish, Ok(NOW)).unwrap().is_published());
    assert_eq!(fan.ledger()[0].message_id, Some(7));
    assert_eq!(fan.ledger()[0].expires_at_ms, NOW + 1);
    assert!(!fan.publish(publish, Ok(NOW)).unwrap().is_published());
}

#[test]
fn exhausted_identifiers_are_reported() {
    let mut fan = LiteFan::open(Stored {
        last_message_id: i64::MAX - 1,
        last_consumer_id: i64::MAX,
        last_archive_id: i64::MAX,
        ..stored()
    })
    .unwrap();
    let batch = [Publish::new(b"last"), Publish::new(b"too many")];
    assert!(matches!(
        fan.publish_batch(&batch, Ok(NOW)),
        Err(Error::CounterOutOfRange)
    ));
    assert_eq!(fan.messages().len(), 2);
    assert_eq!(fan.publish(batch[0], Ok(NOW)).unwrap().id().get(), i64::MAX);
    assert!(matches!(
        fan.consumer("new").open(&mut fan, Ok(NOW)),
        Err(Error::CounterOutOfRange)
    ));
    let one = fan.consumer("one").open(&mut fan, Ok(NOW)).unwrap();
    let claim = one.claim(&mut fan, 1, 10, Ok(NOW)).unwrap();
    assert!(matches!(
        one.archive(&mut fan, claim.deliveries[0].receipt(), Ok(NOW)),
        Err(Error::CounterOutOfRange)
    ));
}

#[test]
fn exhausted_generations_are_reported() {
    let mut rows = stored();
    rows.deliveries[0].generation = i64::MAX;
    rows.archives[0].generation = i64::MAX;
    let mut fan = LiteFan::open_with_config(rows, Config::default()).unwrap();
    let one = fan.consumer("one").open(&mut fan, Ok(NOW)).unwrap();
    assert!(matches!(
        one.claim(&mut fan, 1, 10, Ok(NOW)),
        Err(Error::CounterOutOfRange)
    ));
    let id = one.archives(&fan, litefan::ListArchives::default()).unwrap()[0].id;
    assert!(matches!(
        one.redrive(&mut fan, id, litefan::Retry::Immediately, Ok(NOW)),
        Err(Error::CounterOutOfRange)
    ));
}

#[test]
fn only_changed_rows_are_written_back() {
    let before = stored();
    let mut fan = LiteFan::open(stored()).unwrap();
    let four = fan.consumer("four").open(&mut fan, Ok(NOW)).unwrap();
    let claim = four.claim(&mut fan, 1, 10, Ok(NOW)).unwrap();
    assert_eq!(claim.deliveries[0].message.body, b"e");
    assert!(removed(&before.deliveries, fan.deliveries()).is_empty());
    assert_eq!(written(&before.deliveries, fan.deliveries()), [1]);
    assert_eq!(written(&before.consumers, fan.consumers()), [1]);
    assert!(written(&before.messages, fan.messages()).is_empty());
    assert!(written(&before.ledger, fan.ledger()).is_empty());
    assert!(written(&before.archives, fan.archive_rows()).is_empty());

    let one = fan.consumer("one").open(&mut fan, Ok(NOW)).unwrap();
    let claim = one.claim(&mut fan, 1, 10, Ok(NOW)).unwrap();
    one.ack(&mut fan, claim.deliveries[0].receipt()).unwrap();
    assert_eq!(removed(&before.deliveries, fan.deliveries()), [0]);
}
