//! Publishing: fan-out, identifiers, and idempotency keys.
use vstd::prelude::*;

use crate::api::{MessageView, PublishOutcomeView, PublishView};
use crate::model::StoreView;
use crate::signals::WakeupView;
use crate::tables::LedgerView;

verus! {

/// The log after publishing: everything that was there, and then new messages
/// with the identifiers that follow.
pub open spec fn grown(s: StoreView, t: StoreView, now: int) -> bool {
    let n = s.messages.len();
    &&& n <= t.messages.len()
    &&& t.last_message_id == s.last_message_id + (t.messages.len() - n)
    &&& forall|k: int| 0 <= k < n ==> #[trigger] t.messages[k] == s.messages[k]
    &&& forall|k: int|
        n <= k < t.messages.len() ==> (#[trigger] t.messages[k]).id == s.last_message_id + 1 + (k
            - n) && t.messages[k].published_at_ms == now
    &&& t.consumers == s.consumers
    &&& t.deliveries == s.deliveries
    &&& t.archives == s.archives
    &&& t.last_consumer_id == s.last_consumer_id
    &&& t.last_archive_id == s.last_archive_id
    &&& t.max_batch_size == s.max_batch_size
    &&& t.poll_interval_nanos == s.poll_interval_nanos
    &&& t.idempotency_window_ms == s.idempotency_window_ms
}

proof fn lemma_published_all_grows(
    s: StoreView,
    batch: Seq<PublishView>,
    now: int,
    expires_at: int,
)
    ensures
        grown(s, s.published_all(batch, now, expires_at), now),
    decreases batch.len(),
{
    if batch.len() > 0 {
        lemma_published_all_grows(s, batch.drop_last(), now, expires_at);
    }
}

/// Publishing appends: retained messages, consumers, deliveries and archives stay
/// as they are, and new messages get identifiers that were never assigned before,
/// in the order of the batch.
pub proof fn law_publishing_appends(s: StoreView, batch: Seq<PublishView>, now: int)
    ensures
        grown(s, s.published(batch, now), now),
{
    let base = s.publish_base(batch, now);
    lemma_published_all_grows(base, batch, now, s.expiry(now));
}

/// Every state on the way through a batch is well-formed, and consistent where
/// the first is.
pub proof fn lemma_prefix_wf(
    s: StoreView,
    batch: Seq<PublishView>,
    i: int,
    now: int,
    expires_at: int,
)
    requires
        s.wf(),
        0 <= i <= batch.len(),
        s.published_all(batch, now, expires_at).last_message_id <= i64::MAX,
    ensures
        s.published_all(batch.take(i), now, expires_at).wf(),
        s.consistent() ==> s.published_all(batch.take(i), now, expires_at).consistent(),
    decreases i,
{
    if i > 0 {
        lemma_prefix_wf(s, batch, i - 1, now, expires_at);
        crate::invariants::lemma_published_last(s, batch, i, now, expires_at);
        assert(batch.take(i).drop_last() =~= batch.take(i - 1));
        assert(batch.take(i).last() == batch[i - 1]);
        crate::invariants::lemma_published_one_wf(
            s.published_all(batch.take(i - 1), now, expires_at),
            batch[i - 1],
            now,
            expires_at,
        );
    } else {
        assert(batch.take(0) =~= Seq::empty());
    }
}

/// What a publish starts from is as well-formed and consistent as the log.
pub proof fn lemma_base_wf(s: StoreView, batch: Seq<PublishView>, now: int)
    requires
        s.wf(),
    ensures
        s.publish_base(batch, now).wf(),
        s.consistent() ==> s.publish_base(batch, now).consistent(),
{
    crate::invariants::lemma_without_expired_wf(s, now);
}

/// Publishing keeps the tables well-formed and a consistent log consistent.
pub proof fn law_publishing_keeps_consistency(s: StoreView, batch: Seq<PublishView>, now: int)
    requires
        s.wf(),
        s.publish_error(batch, Ok(now)) is None,
    ensures
        s.published(batch, now).wf(),
        s.consistent() ==> s.published(batch, now).consistent(),
{
    let base = s.publish_base(batch, now);
    lemma_base_wf(s, batch, now);
    lemma_prefix_wf(base, batch, batch.len() as int, now, s.expiry(now));
    assert(batch.take(batch.len() as int) =~= batch);
    crate::invariants::lemma_wakeups(
        s.published_tables(batch, now),
        s.published(batch, now).wakeups,
    );
}

/// Fan-out: a published message becomes outstanding for exactly the consumers
/// that are not draining and whose filter lets its topic through, and nothing
/// else changes in any inbox. No delivery is stored for it.
pub proof fn law_publishing_fans_out(s: StoreView, batch: Seq<PublishView>, now: int, i: int)
    requires
        s.consistent(),
        s.publish_error(batch, Ok(now)) is None,
        0 <= i < s.consumers.len(),
    ensures
        ({
            let t = s.published(batch, now);
            let consumer = s.consumers[i];
            &&& t.consumers == s.consumers
            &&& t.deliveries == s.deliveries
            &&& forall|k: int|
                0 <= k < s.messages.len() ==> t.is_outstanding(consumer, #[trigger] t.messages[k])
                    == s.is_outstanding(consumer, s.messages[k])
            &&& forall|k: int|
                s.messages.len() <= k < t.messages.len() ==> (t.is_outstanding(
                    consumer,
                    #[trigger] t.messages[k],
                ) <==> consumer.draining_at_ms is None && crate::model::topic_matches(
                    consumer.filter,
                    t.messages[k].topic,
                ))
        }),
{
    let t = s.published(batch, now);
    let consumer = s.consumers[i];
    law_publishing_appends(s, batch, now);
    assert(s.consumer_agrees(consumer));
    assert forall|k: int| 0 <= k < s.messages.len() implies t.is_outstanding(
        consumer,
        #[trigger] t.messages[k],
    ) == s.is_outstanding(consumer, s.messages[k]) by {
        assert(t.messages[k] == s.messages[k]);
        crate::counting::lemma_same_deliveries(s, t, consumer.id, s.messages[k].id);
    }
    assert forall|k: int| s.messages.len() <= k < t.messages.len() implies (t.is_outstanding(
        consumer,
        #[trigger] t.messages[k],
    ) <==> consumer.draining_at_ms is None && crate::model::topic_matches(
        consumer.filter,
        t.messages[k].topic,
    )) by {
        let message = t.messages[k];
        if t.is_materialized(consumer.id, message.id) {
            let a = choose|a: int|
                0 <= a < t.deliveries.len() && #[trigger] t.deliveries[a].consumer_id
                    == consumer.id && t.deliveries[a].message_id == message.id;
            let row = s.deliveries[a];
            assert(s.is_copy(row.consumer_id, row.message_id));
            let j = choose|j: int|
                0 <= j < s.messages.len() && #[trigger] s.messages[j].id == row.message_id;
            assert(s.messages[j].id <= s.last_message_id);
        }
    }
}

/// The outcome of one message of a batch.
pub proof fn lemma_outcome_at(
    s: StoreView,
    batch: Seq<PublishView>,
    now: int,
    expires_at: int,
    i: int,
)
    requires
        0 <= i < batch.len(),
    ensures
        s.publish_outcomes(batch, now, expires_at).len() == batch.len(),
        s.publish_outcomes(batch, now, expires_at)[i] == s.published_all(
            batch.take(i),
            now,
            expires_at,
        ).publish_one_outcome(batch[i]),
    decreases batch.len(),
{
    let rest = batch.drop_last();
    reveal_with_fuel(StoreView::publish_outcomes, 2);
    if rest.len() > 0 {
        let j = if i < rest.len() {
            i
        } else {
            0
        };
        lemma_outcome_at(s, rest, now, expires_at, j);
    }
    if i < rest.len() {
        assert(rest.take(i) =~= batch.take(i));
        assert(rest[i] == batch[i]);
    } else {
        assert(batch.take(i) =~= rest);
    }
}

/// A published message is retained with the topic and body that it was given.
pub proof fn law_published_messages_are_retained(
    s: StoreView,
    batch: Seq<PublishView>,
    now: int,
    i: int,
)
    requires
        s.wf(),
        s.publish_error(batch, Ok(now)) is None,
        0 <= i < batch.len(),
    ensures
        s.publish_base(batch, now).publish_outcomes(batch, now, s.expiry(now)).len() == batch.len(),
        s.publish_base(batch, now).publish_outcomes(
            batch,
            now,
            s.expiry(now),
        )[i] matches PublishOutcomeView::Published { id } ==> {
            &&& id > s.last_message_id
            &&& s.published(batch, now).messages.contains(
                MessageView {
                    id,
                    topic: batch[i].topic,
                    body: batch[i].body,
                    published_at_ms: now,
                },
            )
        },
{
    let base = s.publish_base(batch, now);
    let expires_at = s.expiry(now);
    let before = base.published_all(batch.take(i), now, expires_at);
    let after = base.published_all(batch.take(i + 1), now, expires_at);
    lemma_outcome_at(base, batch, now, expires_at, i);
    assert(batch.take(i + 1).drop_last() =~= batch.take(i));
    assert(batch.take(i + 1).last() == batch[i]);
    lemma_published_all_grows(base, batch.take(i), now, expires_at);
    if before.message_of_key(batch[i].idempotency_key) is None {
        let n = before.messages.len() as int;
        lemma_prefix_kept(base, batch, now, expires_at, i + 1);
        assert(after.messages[n].id == before.last_message_id + 1);
        assert(base.published_all(batch, now, expires_at).messages[n] == after.messages[n]);
    }
}

/// What the first messages of a batch appended stays.
proof fn lemma_prefix_kept(
    s: StoreView,
    batch: Seq<PublishView>,
    now: int,
    expires_at: int,
    i: int,
)
    requires
        0 <= i <= batch.len(),
    ensures
        ({
            let early = s.published_all(batch.take(i), now, expires_at);
            let late = s.published_all(batch, now, expires_at);
            &&& early.messages.len() <= late.messages.len()
            &&& forall|k: int|
                0 <= k < early.messages.len() ==> #[trigger] late.messages[k] == early.messages[k]
        }),
    decreases batch.len(),
{
    if i == batch.len() {
        assert(batch.take(i) =~= batch);
    } else {
        assert(batch.drop_last().take(i) =~= batch.take(i));
        lemma_prefix_kept(s, batch.drop_last(), now, expires_at, i);
    }
}

// Idempotency
/// Once a key stands for a message, publishing does not change that.
proof fn lemma_key_kept(
    s: StoreView,
    publish: PublishView,
    now: int,
    expires_at: int,
    key: Seq<u8>,
)
    requires
        s.wf(),
        s.published_one(publish, now, expires_at).wf(),
        s.message_of_key(Some(key)) is Some,
    ensures
        ({
            let t = s.published_one(publish, now, expires_at);
            &&& t.message_of_key(Some(key)) == s.message_of_key(Some(key))
            &&& t.has_key(key)
            &&& t.ledger[t.key_index(key)] == s.ledger[s.key_index(key)]
        }),
{
    let t = s.published_one(publish, now, expires_at);
    let k = s.key_index(key);
    assert(0 <= k < s.ledger.len() && s.ledger[k].key == key);
    if s.message_of_key(publish.idempotency_key) is None {
        if let Some(other) = publish.idempotency_key {
            if s.has_key(other) {
                let j = s.key_index(other);
                assert(0 <= j < s.ledger.len() && s.ledger[j].key == other);
                assert(j != k);
            }
        }
        assert(t.ledger[k] == s.ledger[k]);
        crate::invariants::lemma_key(t, k);
    }
}

/// Publishing under a key makes it stand for the message of the outcome.
pub proof fn lemma_key_recorded(
    s: StoreView,
    publish: PublishView,
    now: int,
    expires_at: int,
    key: Seq<u8>,
)
    requires
        s.wf(),
        s.published_one(publish, now, expires_at).wf(),
        publish.idempotency_key == Some(key),
    ensures
        s.published_one(publish, now, expires_at).message_of_key(Some(key)) == Some(
            s.publish_one_outcome(publish).message(),
        ),
        !s.has_key(key) ==> {
            let t = s.published_one(publish, now, expires_at);
            t.has_key(key) && t.ledger[t.key_index(key)].expires_at_ms == expires_at
        },
{
    let t = s.published_one(publish, now, expires_at);
    if s.message_of_key(Some(key)) is None {
        let k = if s.has_key(key) {
            s.key_index(key)
        } else {
            s.ledger.len() as int
        };
        if s.has_key(key) {
            assert(0 <= k < s.ledger.len() && s.ledger[k].key == key);
        }
        assert(t.ledger[k].key == key);
        crate::invariants::lemma_key(t, k);
    }
}

/// Duplicate keys within a batch point at the first message that carries the key.
pub proof fn law_duplicates_within_a_batch(
    s: StoreView,
    batch: Seq<PublishView>,
    now: int,
    key: Seq<u8>,
    i: int,
    j: int,
)
    requires
        s.wf(),
        s.publish_error(batch, Ok(now)) is None,
        0 <= i < j < batch.len(),
        batch[i].idempotency_key == Some(key),
        batch[j].idempotency_key == Some(key),
    ensures
        ({
            let outcomes = s.publish_base(batch, now).publish_outcomes(batch, now, s.expiry(now));
            outcomes[j] == PublishOutcomeView::Duplicate { id: outcomes[i].message() }
        }),
{
    let base = s.publish_base(batch, now);
    let expires_at = s.expiry(now);
    lemma_base_wf(s, batch, now);
    lemma_outcome_at(base, batch, now, expires_at, i);
    lemma_outcome_at(base, batch, now, expires_at, j);
    lemma_prefix_wf(base, batch, i, now, expires_at);
    lemma_prefix_wf(base, batch, i + 1, now, expires_at);
    assert(batch.take(i + 1).drop_last() =~= batch.take(i));
    assert(batch.take(i + 1).last() == batch[i]);
    lemma_key_recorded(
        base.published_all(batch.take(i), now, expires_at),
        batch[i],
        now,
        expires_at,
        key,
    );
    lemma_key_kept_through(base, batch, now, expires_at, key, i + 1, j);
}

/// A key keeps standing for its message through the rest of a batch, under the
/// same entry.
pub proof fn lemma_key_kept_through(
    s: StoreView,
    batch: Seq<PublishView>,
    now: int,
    expires_at: int,
    key: Seq<u8>,
    i: int,
    j: int,
)
    requires
        s.wf(),
        s.published_all(batch, now, expires_at).last_message_id <= i64::MAX,
        0 <= i <= j <= batch.len(),
        s.published_all(batch.take(i), now, expires_at).message_of_key(Some(key)) is Some,
    ensures
        ({
            let early = s.published_all(batch.take(i), now, expires_at);
            let late = s.published_all(batch.take(j), now, expires_at);
            &&& late.message_of_key(Some(key)) == early.message_of_key(Some(key))
            &&& late.has_key(key)
            &&& late.ledger[late.key_index(key)] == early.ledger[early.key_index(key)]
        }),
    decreases j - i,
{
    if i < j {
        lemma_key_kept_through(s, batch, now, expires_at, key, i, j - 1);
        lemma_prefix_wf(s, batch, j - 1, now, expires_at);
        lemma_prefix_wf(s, batch, j, now, expires_at);
        assert(batch.take(j).drop_last() =~= batch.take(j - 1));
        assert(batch.take(j).last() == batch[j - 1]);
        lemma_key_kept(
            s.published_all(batch.take(j - 1), now, expires_at),
            batch[j - 1],
            now,
            expires_at,
            key,
        );
    }
}

/// An entry that has not expired is still found once expired ones are dropped.
proof fn lemma_unexpired_kept(s: StoreView, now: int, key: Seq<u8>)
    requires
        s.wf(),
        s.has_key(key),
        s.ledger[s.key_index(key)].expires_at_ms > now,
    ensures
        ({
            let t = s.without_expired(now);
            &&& t.has_key(key)
            &&& t.ledger[t.key_index(key)] == s.ledger[s.key_index(key)]
            &&& t.message_of_key(Some(key)) == s.message_of_key(Some(key))
        }),
{
    let t = s.without_expired(now);
    let p = crate::model::unexpired(now);
    let k = s.key_index(key);
    assert(0 <= k < s.ledger.len() && s.ledger[k].key == key);
    let row = s.ledger[k];
    assert(s.ledger.contains(row));
    crate::seqs::lemma_filter_member(s.ledger, p, row);
    let j = choose|j: int| 0 <= j < t.ledger.len() && t.ledger[j] == row;
    crate::invariants::lemma_without_expired_wf(s, now);
    crate::invariants::lemma_key(t, j);
}

/// A key that stands for a message and has not expired suppresses another
/// publish, in whatever batch: the duplicate names that message, and the entry
/// stays as it is, so the window is not extended.
pub proof fn law_live_key_suppresses(
    s: StoreView,
    batch: Seq<PublishView>,
    now: int,
    i: int,
    k: int,
)
    requires
        s.wf(),
        s.publish_error(batch, Ok(now)) is None,
        0 <= i < batch.len(),
        0 <= k < s.ledger.len(),
        batch[i].idempotency_key == Some(s.ledger[k].key),
        s.ledger[k].message_id is Some,
        s.ledger[k].expires_at_ms > now,
    ensures
        s.publish_base(batch, now).publish_outcomes(batch, now, s.expiry(now))[i]
            == (PublishOutcomeView::Duplicate { id: s.ledger[k].message_id->Some_0 }),
        s.published(batch, now).ledger.contains(s.ledger[k]),
{
    let base = s.publish_base(batch, now);
    let expires_at = s.expiry(now);
    let key = s.ledger[k].key;
    lemma_entry_kept(s, batch, now, k);
    lemma_base_key(s, batch, now, k);
    lemma_base_wf(s, batch, now);
    assert(batch.take(0) =~= Seq::empty());
    lemma_outcome_at(base, batch, now, expires_at, i);
    lemma_key_kept_through(base, batch, now, expires_at, key, 0, i);
}

/// What a publish starts from still holds the entries that have not expired.
proof fn lemma_base_key(s: StoreView, batch: Seq<PublishView>, now: int, k: int)
    requires
        s.wf(),
        0 <= k < s.ledger.len(),
        s.ledger[k].message_id is Some,
        crate::model::has_keys(batch) ==> s.ledger[k].expires_at_ms > now,
    ensures
        ({
            let base = s.publish_base(batch, now);
            let key = s.ledger[k].key;
            &&& base.has_key(key)
            &&& base.ledger[base.key_index(key)] == s.ledger[k]
            &&& base.message_of_key(Some(key)) == s.ledger[k].message_id
        }),
{
    crate::invariants::lemma_key(s, k);
    if crate::model::has_keys(batch) {
        lemma_unexpired_kept(s, now, s.ledger[k].key);
    }
}

/// Publishing keeps every entry that stands for a message and has not expired.
pub proof fn lemma_entry_kept(s: StoreView, batch: Seq<PublishView>, now: int, k: int)
    requires
        s.wf(),
        s.publish_error(batch, Ok(now)) is None,
        0 <= k < s.ledger.len(),
        s.ledger[k].message_id is Some,
        crate::model::has_keys(batch) ==> s.ledger[k].expires_at_ms > now,
    ensures
        s.published(batch, now).ledger.contains(s.ledger[k]),
{
    let base = s.publish_base(batch, now);
    let expires_at = s.expiry(now);
    let key = s.ledger[k].key;
    let n = batch.len() as int;
    lemma_base_key(s, batch, now, k);
    lemma_base_wf(s, batch, now);
    assert(batch.take(0) =~= Seq::empty());
    assert(batch.take(n) =~= batch);
    lemma_key_kept_through(base, batch, now, expires_at, key, 0, n);
    let after = base.published_all(batch, now, expires_at);
    let a = after.key_index(key);
    assert(0 <= a < after.ledger.len() && after.ledger[a].key == key);
    assert(s.published(batch, now).ledger[a] == s.ledger[k]);
}

/// Publishing under other keys does not bring a key in.
proof fn lemma_key_absent(
    s: StoreView,
    batch: Seq<PublishView>,
    now: int,
    expires_at: int,
    key: Seq<u8>,
    i: int,
)
    requires
        0 <= i <= batch.len(),
        !s.has_key(key),
        forall|j: int| 0 <= j < i ==> (#[trigger] batch[j]).idempotency_key != Some(key),
    ensures
        !s.published_all(batch.take(i), now, expires_at).has_key(key),
    decreases i,
{
    if i == 0 {
        assert(batch.take(0) =~= Seq::empty());
    } else {
        lemma_key_absent(s, batch, now, expires_at, key, i - 1);
        assert(batch.take(i).drop_last() =~= batch.take(i - 1));
        assert(batch.take(i).last() == batch[i - 1]);
        let early = s.published_all(batch.take(i - 1), now, expires_at);
        let late = s.published_all(batch.take(i), now, expires_at);
        assert(batch[i - 1].idempotency_key != Some(key));
        if late.has_key(key) {
            let k = late.key_index(key);
            assert(0 <= k < late.ledger.len() && late.ledger[k].key == key);
            if let Some(other) = batch[i - 1].idempotency_key {
                if early.has_key(other) {
                    let m = early.key_index(other);
                    assert(0 <= m < early.ledger.len() && early.ledger[m].key == other);
                }
            }
            assert(k < early.ledger.len());
            assert(early.ledger[k].key == key);
        }
    }
}

/// A key that is unknown or has expired publishes, in whatever batch: its first
/// occurrence gets a new identifier, for which the key then stands until the
/// configured window has passed.
pub proof fn law_dead_key_publishes(
    s: StoreView,
    batch: Seq<PublishView>,
    now: int,
    i: int,
    key: Seq<u8>,
)
    requires
        s.wf(),
        s.publish_error(batch, Ok(now)) is None,
        0 <= i < batch.len(),
        batch[i].idempotency_key == Some(key),
        forall|j: int| 0 <= j < i ==> (#[trigger] batch[j]).idempotency_key != Some(key),
        forall|k: int|
            0 <= k < s.ledger.len() && (#[trigger] s.ledger[k]).key == key
                ==> s.ledger[k].expires_at_ms <= now,
    ensures
        ({
            let outcome = s.publish_base(batch, now).publish_outcomes(
                batch,
                now,
                s.expiry(now),
            )[i];
            &&& outcome is Published
            &&& outcome.message() > s.last_message_id
            &&& s.published(batch, now).ledger.contains(
                LedgerView {
                    key,
                    message_id: Some(outcome.message()),
                    expires_at_ms: now + s.idempotency_window_ms,
                },
            )
        }),
{
    let base = s.publish_base(batch, now);
    let expires_at = s.expiry(now);
    let n = batch.len() as int;
    assert(batch[i].idempotency_key is Some);
    lemma_base_wf(s, batch, now);
    if base.has_key(key) {
        let k = base.key_index(key);
        assert(0 <= k < base.ledger.len() && base.ledger[k].key == key);
        let a = crate::seqs::lemma_filter_source(s.ledger, crate::model::unexpired(now), k);
        assert(s.ledger[a].key == key);
    }
    lemma_key_absent(base, batch, now, expires_at, key, i);
    lemma_outcome_at(base, batch, now, expires_at, i);
    lemma_published_all_grows(base, batch.take(i), now, expires_at);
    lemma_prefix_wf(base, batch, i, now, expires_at);
    lemma_prefix_wf(base, batch, i + 1, now, expires_at);
    assert(batch.take(i + 1).drop_last() =~= batch.take(i));
    assert(batch.take(i + 1).last() == batch[i]);
    let before = base.published_all(batch.take(i), now, expires_at);
    let middle = base.published_all(batch.take(i + 1), now, expires_at);
    lemma_key_recorded(before, batch[i], now, expires_at, key);
    let m = middle.key_index(key);
    assert(0 <= m < middle.ledger.len() && middle.ledger[m].key == key);
    lemma_key_kept_through(base, batch, now, expires_at, key, i + 1, n);
    assert(batch.take(n) =~= batch);
    let after = base.published_all(batch, now, expires_at);
    let a = after.key_index(key);
    assert(0 <= a < after.ledger.len() && after.ledger[a].key == key);
    assert(s.published(batch, now).ledger[a] == (LedgerView {
        key,
        message_id: Some(before.last_message_id + 1),
        expires_at_ms: expires_at,
    }));
}

/// A publish with a key leaves no expired key behind.
pub proof fn law_keyed_publishing_drops_expired(
    s: StoreView,
    batch: Seq<PublishView>,
    now: int,
    k: int,
)
    requires
        s.wf(),
        crate::model::has_keys(batch),
        0 <= k < s.published(batch, now).ledger.len(),
    ensures
        s.published(batch, now).ledger[k].expires_at_ms > now,
{
    let base = s.publish_base(batch, now);
    assert forall|j: int| 0 <= j < base.ledger.len() implies (
    #[trigger] base.ledger[j]).expires_at_ms > now by {
        let a = crate::seqs::lemma_filter_source(s.ledger, crate::model::unexpired(now), j);
    }
    lemma_expiries(base, batch, now, s.expiry(now));
}

/// Publishing only adds entries that expire at the given time.
proof fn lemma_expiries(s: StoreView, batch: Seq<PublishView>, now: int, expires_at: int)
    requires
        forall|j: int|
            0 <= j < s.ledger.len() ==> (#[trigger] s.ledger[j]).expires_at_ms > now,
        expires_at > now,
    ensures
        forall|j: int|
            0 <= j < s.published_all(batch, now, expires_at).ledger.len() ==> (
            #[trigger] s.published_all(batch, now, expires_at).ledger[j]).expires_at_ms > now,
    decreases batch.len(),
{
    if batch.len() > 0 {
        lemma_expiries(s, batch.drop_last(), now, expires_at);
        let early = s.published_all(batch.drop_last(), now, expires_at);
        let late = s.published_all(batch, now, expires_at);
        if let Some(key) = batch.last().idempotency_key {
            if early.has_key(key) {
                let m = early.key_index(key);
                assert(0 <= m < early.ledger.len() && early.ledger[m].key == key);
            }
        }
        assert forall|j: int| 0 <= j < late.ledger.len() implies (
        #[trigger] late.ledger[j]).expires_at_ms > now by {
            if j < early.ledger.len() {
                assert(early.ledger[j].expires_at_ms > now);
            }
        }
    }
}

/// Whether a batch publishes nothing new under a key: every occurrence of the key
/// is a duplicate.
pub open spec fn only_duplicates(
    s: StoreView,
    batch: Seq<PublishView>,
    now: int,
    key: Seq<u8>,
) -> bool {
    forall|j: int|
        0 <= j < batch.len() && (#[trigger] batch[j]).idempotency_key == Some(key)
            ==> s.publish_base(batch, now).publish_outcomes(
            batch,
            now,
            s.expiry(now),
        )[j] is Duplicate
}

/// A batch that publishes nothing new under a key brings no entry for it.
pub proof fn lemma_no_new_entry(
    s: StoreView,
    batch: Seq<PublishView>,
    now: int,
    key: Seq<u8>,
    k: int,
)
    requires
        only_duplicates(s, batch, now, key),
        0 <= k < s.published(batch, now).ledger.len(),
        s.published(batch, now).ledger[k].key == key,
    ensures
        s.ledger.contains(s.published(batch, now).ledger[k]),
{
    let base = s.publish_base(batch, now);
    let n = batch.len() as int;
    lemma_no_new_entry_through(s, batch, now, key, n);
    assert(batch.take(n) =~= batch);
    let entry = s.published(batch, now).ledger[k];
    assert(base.published_all(batch, now, s.expiry(now)).ledger[k] == entry);
    crate::seqs::lemma_filter_member(s.ledger, crate::model::unexpired(now), entry);
}

proof fn lemma_no_new_entry_through(
    s: StoreView,
    batch: Seq<PublishView>,
    now: int,
    key: Seq<u8>,
    i: int,
)
    requires
        only_duplicates(s, batch, now, key),
        0 <= i <= batch.len(),
    ensures
        ({
            let base = s.publish_base(batch, now);
            let early = base.published_all(batch.take(i), now, s.expiry(now));
            forall|k: int|
                0 <= k < early.ledger.len() && (#[trigger] early.ledger[k]).key == key
                    ==> base.ledger.contains(early.ledger[k])
        }),
    decreases i,
{
    let base = s.publish_base(batch, now);
    let expires_at = s.expiry(now);
    if i == 0 {
        assert(batch.take(0) =~= Seq::empty());
    } else {
        lemma_no_new_entry_through(s, batch, now, key, i - 1);
        lemma_outcome_at(base, batch, now, expires_at, i - 1);
        assert(batch.take(i).drop_last() =~= batch.take(i - 1));
        assert(batch.take(i).last() == batch[i - 1]);
        let early = base.published_all(batch.take(i - 1), now, expires_at);
        let late = base.published_all(batch.take(i), now, expires_at);
        if let Some(other) = batch[i - 1].idempotency_key {
            if early.has_key(other) {
                let m = early.key_index(other);
                assert(0 <= m < early.ledger.len() && early.ledger[m].key == other);
            }
        }
        assert forall|k: int|
            0 <= k < late.ledger.len() && (#[trigger] late.ledger[k]).key
                == key implies base.ledger.contains(late.ledger[k]) by {
            if batch[i - 1].idempotency_key == Some(key) {
                assert(late == early);
            }
            assert(k < early.ledger.len());
            assert(early.ledger[k] == late.ledger[k]);
        }
    }
}

// What publishing reads
/// Whether two logs are the same to a publish.
pub open spec fn alike(s: StoreView, t: StoreView) -> bool {
    &&& t.ledger == s.ledger
    &&& t.last_message_id == s.last_message_id
    &&& t.idempotency_window_ms == s.idempotency_window_ms
    &&& t.max_batch_size == s.max_batch_size
}

/// A key stands for the same message in logs that are alike.
proof fn lemma_alike_key(s: StoreView, t: StoreView, key: Option<Seq<u8>>)
    requires
        s.ledger_wf(),
        t.ledger_wf(),
        alike(s, t),
    ensures
        t.message_of_key(key) == s.message_of_key(key),
        key matches Some(key) ==> {
            &&& t.has_key(key) == s.has_key(key)
            &&& s.has_key(key) ==> t.key_index(key) == s.key_index(key)
        },
{
    if let Some(key) = key {
        if s.has_key(key) {
            let k = s.key_index(key);
            assert(0 <= k < s.ledger.len() && s.ledger[k].key == key);
            assert(t.ledger[k].key == key);
            crate::invariants::lemma_key(t, k);
        }
        if t.has_key(key) {
            let k = t.key_index(key);
            assert(0 <= k < t.ledger.len() && t.ledger[k].key == key);
            assert(s.ledger[k].key == key);
        }
    }
}

proof fn lemma_alike_through(
    s: StoreView,
    t: StoreView,
    batch: Seq<PublishView>,
    now: int,
    expires_at: int,
    i: int,
)
    requires
        s.wf(),
        t.wf(),
        alike(s, t),
        s.published_all(batch, now, expires_at).last_message_id <= i64::MAX || t.published_all(
            batch,
            now,
            expires_at,
        ).last_message_id <= i64::MAX,
        0 <= i <= batch.len(),
    ensures
        ({
            let u = s.published_all(batch.take(i), now, expires_at);
            let v = t.published_all(batch.take(i), now, expires_at);
            &&& alike(u, v)
            &&& u.wf()
            &&& v.wf()
            &&& u.messages.skip(s.messages.len() as int) == v.messages.skip(t.messages.len() as int)
            &&& s.publish_outcomes(batch.take(i), now, expires_at) == t.publish_outcomes(
                batch.take(i),
                now,
                expires_at,
            )
        }),
    decreases i,
{
    if i == 0 {
        assert(batch.take(0) =~= Seq::empty());
        assert(s.messages.skip(s.messages.len() as int) =~= t.messages.skip(
            t.messages.len() as int,
        ));
    } else {
        lemma_alike_through(s, t, batch, now, expires_at, i - 1);
        assert(batch.take(i).drop_last() =~= batch.take(i - 1));
        assert(batch.take(i).last() == batch[i - 1]);
        let u = s.published_all(batch.take(i - 1), now, expires_at);
        let v = t.published_all(batch.take(i - 1), now, expires_at);
        let u2 = s.published_all(batch.take(i), now, expires_at);
        let v2 = t.published_all(batch.take(i), now, expires_at);
        lemma_alike_key(u, v, batch[i - 1].idempotency_key);
        crate::invariants::lemma_published_last(s, batch, i, now, expires_at);
        crate::invariants::lemma_published_last(t, batch, i, now, expires_at);
        crate::invariants::lemma_published_one_wf(u, batch[i - 1], now, expires_at);
        crate::invariants::lemma_published_one_wf(v, batch[i - 1], now, expires_at);
        lemma_published_all_grows(s, batch.take(i - 1), now, expires_at);
        lemma_published_all_grows(t, batch.take(i - 1), now, expires_at);
        let n = s.messages.len() as int;
        let m = t.messages.len() as int;
        if u.message_of_key(batch[i - 1].idempotency_key) is None {
            assert(u2.messages.skip(n) =~= u.messages.skip(n).push(u2.messages.last()));
            assert(v2.messages.skip(m) =~= v.messages.skip(m).push(v2.messages.last()));
        }
    }
}

/// A publish reads nothing but the idempotency keys and the last identifier: in a
/// log without the other rows it does the same, so its cost need not depend on
/// messages, consumers or deliveries.
pub proof fn law_publishing_reads_only_keys(
    s: StoreView,
    t: StoreView,
    batch: Seq<PublishView>,
    now: int,
)
    requires
        s.wf(),
        t.wf(),
        alike(s, t),
        t.publish_error(batch, Ok(now)) is None,
    ensures
        s.publish_error(batch, Ok(now)) is None,
        s.publish_base(batch, now).publish_outcomes(batch, now, s.expiry(now)) == t.publish_base(
            batch,
            now,
        ).publish_outcomes(batch, now, t.expiry(now)),
        s.published(batch, now).messages.skip(s.messages.len() as int) == t.published(
            batch,
            now,
        ).messages.skip(t.messages.len() as int),
        s.published(batch, now).ledger == t.published(batch, now).ledger,
        s.published(batch, now).last_message_id == t.published(batch, now).last_message_id,
        s.published(batch, now).wakeups.skip(s.wakeups.len() as int) == t.published(
            batch,
            now,
        ).wakeups.skip(t.wakeups.len() as int),
{
    let u = s.publish_base(batch, now);
    let v = t.publish_base(batch, now);
    let n = batch.len() as int;
    lemma_base_wf(s, batch, now);
    lemma_base_wf(t, batch, now);
    assert(batch.take(n) =~= batch);
    lemma_alike_through(u, v, batch, now, s.expiry(now), n);
    let x = s.published(batch, now);
    let y = t.published(batch, now);
    assert(x.wakeups.skip(s.wakeups.len() as int) =~= y.wakeups.skip(t.wakeups.len() as int));
}

// Wakeups
/// The distinct topics are the topics.
pub proof fn lemma_distinct_topics(topics: Seq<Option<Seq<char>>>, topic: Seq<char>)
    ensures
        crate::model::distinct_topics(topics).contains(topic) <==> topics.contains(Some(topic)),
    decreases topics.len(),
{
    if topics.len() > 0 {
        let rest = topics.drop_last();
        let earlier = crate::model::distinct_topics(rest);
        let all = crate::model::distinct_topics(topics);
        lemma_distinct_topics(rest, topic);
        assert(topics =~= rest.push(topics.last()));
        if topics.contains(Some(topic)) {
            let i = choose|i: int| 0 <= i < topics.len() && topics[i] == Some(topic);
            if i < rest.len() {
                assert(rest[i] == Some(topic));
                let k = choose|k: int| 0 <= k < earlier.len() && earlier[k] == topic;
                assert(all[k] == topic);
            } else if !earlier.contains(topic) {
                assert(all[earlier.len() as int] == topic);
            }
        }
        if all.contains(topic) {
            let k = choose|k: int| 0 <= k < all.len() && all[k] == topic;
            if k < earlier.len() {
                assert(earlier[k] == topic);
                let i = choose|i: int| 0 <= i < rest.len() && rest[i] == Some(topic);
                assert(topics[i] == Some(topic));
            } else {
                assert(topics[topics.len() - 1] == Some(topic));
            }
        }
    }
}

/// Every consumer that a published message is for is woken: those that receive
/// everything by the wakeup for all publishes, those that receive one topic by
/// the wakeup for that topic.
pub proof fn law_publishing_wakes_receivers(
    s: StoreView,
    batch: Seq<PublishView>,
    now: int,
    filter: Option<Seq<char>>,
    k: int,
)
    requires
        s.messages.len() <= k < s.published(batch, now).messages.len(),
        crate::model::topic_matches(filter, s.published(batch, now).messages[k].topic),
    ensures
        s.published(batch, now).wakeups.contains(
            match filter {
                None => WakeupView::Publishes,
                Some(topic) => WakeupView::Topic(topic),
            },
        ),
{
    let t = s.published(batch, now);
    let n = s.messages.len() as int;
    let inserted = t.messages.skip(n);
    let topics = inserted.map_values(|message: MessageView| message.topic);
    let raised = crate::model::publish_wakeups(topics);
    let m = s.wakeups.len() as int;
    assert(t.wakeups == s.wakeups + raised);
    match filter {
        None => {
            assert(t.wakeups[m] == WakeupView::Publishes);
        },
        Some(topic) => {
            assert(topics[k - n] == Some(topic));
            lemma_distinct_topics(topics, topic);
            let distinct = crate::model::distinct_topics(topics);
            let j = choose|j: int| 0 <= j < distinct.len() && distinct[j] == topic;
            assert(t.wakeups[m + 1 + j] == WakeupView::Topic(topic));
        },
    }
}

/// Publishing wakes no topic without a new message.
pub proof fn law_publishing_wakes_only_receivers(
    s: StoreView,
    batch: Seq<PublishView>,
    now: int,
    j: int,
)
    requires
        s.wakeups.len() <= j < s.published(batch, now).wakeups.len(),
    ensures
        ({
            let t = s.published(batch, now);
            &&& s.messages.len() < t.messages.len()
            &&& match t.wakeups[j] {
                WakeupView::Publishes => true,
                WakeupView::Topic(topic) => exists|k: int|
                    s.messages.len() <= k < t.messages.len() && (#[trigger] t.messages[k]).topic
                        == Some(topic),
                WakeupView::Consumer(_) => false,
            }
        }),
{
    let t = s.published(batch, now);
    let n = s.messages.len() as int;
    let inserted = t.messages.skip(n);
    let topics = inserted.map_values(|message: MessageView| message.topic);
    let raised = crate::model::publish_wakeups(topics);
    let m = s.wakeups.len() as int;
    law_publishing_appends(s, batch, now);
    assert(t.wakeups == s.wakeups + raised);
    assert(t.wakeups[j] == raised[j - m]);
    if j > m {
        let distinct = crate::model::distinct_topics(topics);
        let topic = distinct[j - m - 1];
        assert(distinct.contains(topic));
        lemma_distinct_topics(topics, topic);
        let i = choose|i: int| 0 <= i < topics.len() && topics[i] == Some(topic);
        assert(t.messages[n + i].topic == Some(topic));
    }
}

} // verus!
