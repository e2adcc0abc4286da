use std::time::Duration;

use std::collections::HashSet;

use litefan::{
    BatchResult, Consumer, Delivery, Error, Filter, LiteFan, Poll, PollStep, Publish, Retry, Stored,
    Wakeup,
};

const NOW: i64 = 1_700_000_000_000;

fn database() -> LiteFan {
    LiteFan::open(Stored::default()).unwrap()
}

fn immediate_poll(max_messages: usize) -> Poll {
    Poll {
        max_messages,
        visibility_timeout: Duration::from_secs(30),
        wait: Duration::ZERO,
    }
}

fn returned(step: PollStep) -> Vec<Delivery> {
    match step {
        PollStep::Return(deliveries) => deliveries,
        PollStep::Wait { .. } => Vec::new(),
    }
}

fn poll_at(consumer: &Consumer, fan: &mut LiteFan, max_messages: usize, now: i64) -> Vec<Delivery> {
    returned(consumer.poll(fan, immediate_poll(max_messages), true, Ok(now)).unwrap())
}

#[test]
fn fans_out_to_durable_consumers() {
    let mut fan = database();
    let first = fan.consumer("first").open(&mut fan, Ok(NOW)).unwrap();
    let second = fan.consumer("second").open(&mut fan, Ok(NOW)).unwrap();

    let published = fan.publish(Publish::new(b"hello"), Ok(NOW)).unwrap();
    let first_delivery = poll_at(&first, &mut fan, 1, NOW).remove(0);
    let second_delivery = poll_at(&second, &mut fan, 1, NOW).remove(0);

    assert_eq!(first_delivery.message.id, published.id());
    assert_eq!(second_delivery.message.id, published.id());
    assert_eq!(first_delivery.message.body, b"hello");
    assert!(first.ack(&mut fan, first_delivery.receipt()).unwrap());
    assert!(second.ack(&mut fan, second_delivery.receipt()).unwrap());
}

#[test]
fn a_receipt_cannot_mutate_another_consumers_copy() {
    let mut fan = database();
    let first = fan.consumer("first").open(&mut fan, Ok(NOW)).unwrap();
    let second = fan.consumer("second").open(&mut fan, Ok(NOW)).unwrap();
    fan.publish(Publish::new(b"hello"), Ok(NOW)).unwrap();

    let first_delivery = poll_at(&first, &mut fan, 1, NOW).remove(0);
    assert!(!second.ack(&mut fan, first_delivery.receipt()).unwrap());
    assert_eq!(
        poll_at(&second, &mut fan, 1, NOW)[0].message.body,
        b"hello"
    );
}

#[test]
fn consumers_start_at_now_and_filter_exact_topics() {
    let mut fan = database();
    fan.publish(Publish::new(b"before"), Ok(NOW)).unwrap();
    let all = fan.consumer("all").open(&mut fan, Ok(NOW)).unwrap();
    let email = fan
        .consumer("email")
        .filter(Filter::topic("email"))
        .open(&mut fan, Ok(NOW))
        .unwrap();
    assert_eq!(email.name(), "email");
    assert_eq!(email.filter(), &Filter::Topic("email".to_string()));

    fan.publish_batch(
        &[
            Publish {
                topic: Some("email"),
                body: b"matching",
                idempotency_key: None,
            },
            Publish {
                topic: Some("audit"),
                body: b"other",
                idempotency_key: None,
            },
        ],
        Ok(NOW),
    )
    .unwrap();

    let all_bodies: Vec<Vec<u8>> = poll_at(&all, &mut fan, 10, NOW)
        .into_iter()
        .map(|delivery| delivery.message.body)
        .collect();
    let email_bodies: Vec<Vec<u8>> = poll_at(&email, &mut fan, 10, NOW)
        .into_iter()
        .map(|delivery| delivery.message.body)
        .collect();
    assert_eq!(all_bodies, [b"matching".to_vec(), b"other".to_vec()]);
    assert_eq!(email_bodies, [b"matching".to_vec()]);
}

#[test]
fn ack_and_nack_batches_reject_stale_receipts() {
    let mut fan = database();
    let consumer = fan.consumer("worker").open(&mut fan, Ok(NOW)).unwrap();
    fan.publish_batch(&[Publish::new(b"a"), Publish::new(b"b")], Ok(NOW))
        .unwrap();
    let deliveries = poll_at(&consumer, &mut fan, 10, NOW);
    let first_receipt = deliveries[0].receipt();
    let second_receipt = deliveries[1].receipt();

    assert!(consumer
        .nack(&mut fan, first_receipt, Retry::Immediately, Ok(NOW))
        .unwrap());
    assert!(!consumer.ack(&mut fan, first_receipt).unwrap());
    let retried = poll_at(&consumer, &mut fan, 1, NOW).remove(0);
    assert_eq!(retried.message.body, b"a");
    assert_eq!(retried.delivery_count, 2);

    let result = consumer
        .ack_batch(&mut fan, &[retried.receipt(), second_receipt, second_receipt])
        .unwrap();
    assert_eq!(
        result,
        BatchResult {
            applied: 2,
            stale: 1
        }
    );
    assert!(poll_at(&consumer, &mut fan, 10, NOW).is_empty());
}

#[test]
fn expired_leases_are_redelivered_and_old_receipts_are_stale() {
    let mut fan = database();
    let consumer = fan.consumer("worker").open(&mut fan, Ok(NOW)).unwrap();
    fan.publish(Publish::new(b"work"), Ok(NOW)).unwrap();

    let short_poll = Poll {
        max_messages: 1,
        visibility_timeout: Duration::from_millis(10),
        wait: Duration::ZERO,
    };
    let first = returned(consumer.poll(&mut fan, short_poll, true, Ok(NOW)).unwrap()).remove(0);
    assert!(returned(consumer.poll(&mut fan, short_poll, true, Ok(NOW + 9)).unwrap()).is_empty());
    let second =
        returned(consumer.poll(&mut fan, short_poll, true, Ok(NOW + 15)).unwrap()).remove(0);

    assert_eq!(second.delivery_count, 2);
    assert!(!consumer.ack(&mut fan, first.receipt()).unwrap());
    assert!(consumer.ack(&mut fan, second.receipt()).unwrap());
}

#[test]
fn long_poll_wakes_after_publish() {
    let mut fan = database();
    let consumer = fan.consumer("worker").open(&mut fan, Ok(NOW)).unwrap();
    let poll = Poll {
        max_messages: 1,
        visibility_timeout: Duration::from_secs(30),
        wait: Duration::from_secs(2),
    };
    assert!(matches!(
        consumer.poll(&mut fan, poll, true, Ok(NOW)).unwrap(),
        PollStep::Wait {
            next_visible_at: None
        }
    ));

    fan.publish(Publish::new(b"wake up"), Ok(NOW + 20)).unwrap();
    assert_eq!(fan.take_wakeups(), [Wakeup::Publishes]);
    assert!(fan.take_wakeups().is_empty());
    let deliveries = returned(consumer.poll(&mut fan, poll, true, Ok(NOW + 20)).unwrap());
    assert_eq!(deliveries[0].message.body, b"wake up");
}

#[test]
fn independent_handles_discover_publishes_by_fallback_polling() {
    let mut fan = database();
    let consumer = fan.consumer("worker").open(&mut fan, Ok(NOW)).unwrap();
    let poll = Poll {
        max_messages: 1,
        visibility_timeout: Duration::from_secs(30),
        wait: Duration::from_secs(2),
    };
    let next_visible_at = match consumer.poll(&mut fan, poll, true, Ok(NOW)).unwrap() {
        PollStep::Wait { next_visible_at } => next_visible_at,
        PollStep::Return(_) => panic!("nothing was published yet"),
    };
    // Nobody wakes the poll: it looks again after the interval.
    assert_eq!(
        fan.wait(next_visible_at, poll.wait, Ok(NOW)).unwrap(),
        Some(Duration::from_millis(250))
    );
    fan.publish(Publish::new(b"external"), Ok(NOW + 20)).unwrap();

    let deliveries = returned(consumer.poll(&mut fan, poll, true, Ok(NOW + 250)).unwrap());
    assert_eq!(deliveries[0].message.body, b"external");
}

#[test]
fn competing_workers_do_not_claim_the_same_delivery() {
    let mut fan = database();
    let consumer = fan.consumer("worker").open(&mut fan, Ok(NOW)).unwrap();
    let messages: Vec<Vec<u8>> = (0_u32..100).map(u32::to_be_bytes).map(Vec::from).collect();
    let publishes: Vec<Publish<'_>> = messages.iter().map(|body| Publish::new(body)).collect();
    fan.publish_batch(&publishes, Ok(NOW)).unwrap();

    let mut ids = HashSet::new();
    for worker in 0..4 {
        let handle = consumer.clone();
        for delivery in poll_at(&handle, &mut fan, if worker == 0 { 40 } else { 100 }, NOW) {
            assert!(ids.insert(delivery.message.id));
        }
    }
    assert_eq!(ids.len(), 100);
}

#[test]
fn reopening_a_consumer_validates_its_filter() {
    let mut fan = database();
    fan.consumer("worker")
        .filter(Filter::topic("one"))
        .open(&mut fan, Ok(NOW))
        .unwrap();

    let error = fan
        .consumer("worker")
        .filter(Filter::topic("two"))
        .open(&mut fan, Ok(NOW))
        .unwrap_err();
    assert!(matches!(error, Error::ConsumerConfigurationMismatch { .. }));
}

#[test]
fn visibility_can_be_extended_without_replacing_the_receipt() {
    let mut fan = database();
    let consumer = fan.consumer("worker").open(&mut fan, Ok(NOW)).unwrap();
    fan.publish(Publish::new(b"work"), Ok(NOW)).unwrap();
    let short_poll = Poll {
        max_messages: 1,
        visibility_timeout: Duration::from_millis(10),
        wait: Duration::ZERO,
    };
    let delivery = returned(consumer.poll(&mut fan, short_poll, true, Ok(NOW)).unwrap()).remove(0);

    assert!(consumer
        .extend_visibility(&mut fan, delivery.receipt(), Duration::from_millis(200), Ok(NOW))
        .unwrap());
    assert!(poll_at(&consumer, &mut fan, 1, NOW + 30).is_empty());
    // A shorter extension does not bring the delivery back sooner.
    assert!(consumer
        .extend_visibility(&mut fan, delivery.receipt(), Duration::from_millis(1), Ok(NOW + 30))
        .unwrap());
    assert!(poll_at(&consumer, &mut fan, 1, NOW + 199).is_empty());
    assert!(consumer.ack(&mut fan, delivery.receipt()).unwrap());
    assert!(!consumer
        .extend_visibility(&mut fan, delivery.receipt(), Duration::from_secs(1), Ok(NOW + 199))
        .unwrap());
}

#[test]
fn publishes_wake_all_and_matching_topic_subscribers() {
    let woken = litefan::signals::notify_publishes(&vec![Some("jobs"), Some("jobs"), None]);
    assert_eq!(
        woken,
        [Wakeup::Publishes, Wakeup::Topic("jobs".to_string())]
    );
    assert!(!woken.contains(&Wakeup::Topic("metrics".to_string())));
}

#[test]
fn nacks_draining_and_deletion_wake_the_workers_of_one_consumer() {
    let mut fan = database();
    let consumer = fan.consumer("worker").open(&mut fan, Ok(NOW)).unwrap();
    fan.publish(Publish::new(b"work").with_topic("jobs"), Ok(NOW)).unwrap();
    fan.take_wakeups();
    let delivery = poll_at(&consumer, &mut fan, 1, NOW).remove(0);
    assert!(fan.take_wakeups().is_empty());
    consumer
        .nack(&mut fan, delivery.receipt(), Retry::Immediately, Ok(NOW))
        .unwrap();
    assert_eq!(fan.take_wakeups(), [Wakeup::Consumer(1)]);
    consumer
        .nack(&mut fan, delivery.receipt(), Retry::Immediately, Ok(NOW))
        .unwrap();
    assert!(fan.take_wakeups().is_empty());
    consumer.begin_draining(&mut fan, Ok(NOW)).unwrap();
    assert_eq!(fan.take_wakeups(), [Wakeup::Consumer(1)]);
}

#[test]
fn retries_come_before_new_messages_and_the_oldest_first() {
    let mut fan = database();
    let consumer = fan.consumer("worker").open(&mut fan, Ok(NOW)).unwrap();
    let bodies: [&[u8]; 4] = [b"a", b"b", b"c", b"d"];
    for body in bodies {
        fan.publish(Publish::new(body), Ok(NOW)).unwrap();
    }
    let first = poll_at(&consumer, &mut fan, 2, NOW);
    let delay = Retry::After(Duration::from_millis(7));
    consumer.nack(&mut fan, first[0].receipt(), delay, Ok(NOW)).unwrap();
    consumer
        .nack(&mut fan, first[1].receipt(), Retry::Immediately, Ok(NOW))
        .unwrap();
    let one = poll_at(&consumer, &mut fan, 1, NOW + 10);
    assert_eq!(one[0].message.body, b"b");
    let rest = poll_at(&consumer, &mut fan, 10, NOW + 10);
    let bodies: Vec<Vec<u8>> = rest.into_iter().map(|delivery| delivery.message.body).collect();
    assert_eq!(bodies, [b"a".to_vec(), b"c".to_vec(), b"d".to_vec()]);
}

#[test]
fn an_empty_poll_waits_for_the_next_visible_delivery() {
    let mut fan = database();
    let consumer = fan.consumer("worker").open(&mut fan, Ok(NOW)).unwrap();
    fan.publish(Publish::new(b"work"), Ok(NOW)).unwrap();
    poll_at(&consumer, &mut fan, 1, NOW);
    let step = consumer
        .poll(&mut fan, immediate_poll(1), true, Ok(NOW + 1))
        .unwrap();
    let next = match step {
        PollStep::Wait { next_visible_at } => next_visible_at,
        PollStep::Return(_) => panic!("the delivery is hidden"),
    };
    assert_eq!(next, Some(NOW + 30_000));
    let long = Duration::from_secs(20);
    let wait = |remaining: Duration, now: i64| fan.wait(next, remaining, Ok(now)).unwrap();
    assert_eq!(wait(long, NOW + 1), Some(Duration::from_millis(250)));
    assert_eq!(wait(long, NOW + 29_990), Some(Duration::from_millis(10)));
    assert_eq!(wait(Duration::from_millis(3), NOW + 29_990), Some(Duration::from_millis(3)));
    assert_eq!(wait(long, NOW + 40_000), Some(Duration::ZERO));
    assert_eq!(wait(Duration::ZERO, NOW + 1), None);
    assert!(fan.wait(next, long, Err(Error::ClockBeforeUnixEpoch)).is_err());
}
