//! Why every operation keeps the tables well-formed, and a consistent log
//! consistent.
use vstd::prelude::*;

use crate::api::{MessageView, PublishView, ReceiptView};
use crate::model::StoreView;
use crate::seqs;
use crate::tables::{ArchiveView, DeliveryRowView};

verus! {

/// A consumer is found by its identifier.
pub proof fn lemma_consumer(s: StoreView, i: int)
    requires
        s.consumers_wf(),
        0 <= i < s.consumers.len(),
    ensures
        s.has_consumer(s.consumers[i].id),
        s.consumer_index(s.consumers[i].id) == i,
        s.consumer(s.consumers[i].id) == s.consumers[i],
{
    let id = s.consumers[i].id;
    let j = s.consumer_index(id);
    assert(s.consumers[i].id == id);
    assert(0 <= j < s.consumers.len() && s.consumers[j].id == id);
    if i < j {
        assert(s.consumers[i].id < s.consumers[j].id);
    } else if j < i {
        assert(s.consumers[j].id < s.consumers[i].id);
    }
}

/// A consumer is found by its name.
pub proof fn lemma_named(s: StoreView, i: int)
    requires
        s.consumers_wf(),
        0 <= i < s.consumers.len(),
    ensures
        s.has_name(s.consumers[i].name),
        s.named(s.consumers[i].name) == s.consumers[i],
{
    let name = s.consumers[i].name;
    let j = choose|j: int|
        0 <= j < s.consumers.len() && #[trigger] s.consumers[j].name == name;
    assert(s.consumers[i].name == name);
    if i < j {
        assert(s.consumers[i].name != s.consumers[j].name);
    } else if j < i {
        assert(s.consumers[j].name != s.consumers[i].name);
    }
}

/// A message is found by its identifier.
pub proof fn lemma_message(s: StoreView, i: int)
    requires
        s.messages_wf(),
        0 <= i < s.messages.len(),
    ensures
        s.has_message(s.messages[i].id),
        s.message(s.messages[i].id) == s.messages[i],
{
    let id = s.messages[i].id;
    let j = choose|j: int| 0 <= j < s.messages.len() && #[trigger] s.messages[j].id == id;
    assert(s.messages[i].id == id);
    if i < j {
        assert(s.messages[i].id < s.messages[j].id);
    } else if j < i {
        assert(s.messages[j].id < s.messages[i].id);
    }
}

/// An idempotency key is found in the ledger.
pub proof fn lemma_key(s: StoreView, i: int)
    requires
        s.ledger_wf(),
        0 <= i < s.ledger.len(),
    ensures
        s.has_key(s.ledger[i].key),
        s.key_index(s.ledger[i].key) == i,
{
    let key = s.ledger[i].key;
    let j = s.key_index(key);
    assert(s.ledger[i].key == key);
    assert(0 <= j < s.ledger.len() && s.ledger[j].key == key);
    if i < j {
        assert(s.ledger[i].key != s.ledger[j].key);
    } else if j < i {
        assert(s.ledger[j].key != s.ledger[i].key);
    }
}

/// The messages end at the high-water mark.
pub proof fn lemma_high_water(s: StoreView, i: int)
    requires
        s.messages_wf(),
        0 <= i < s.messages.len(),
    ensures
        s.messages[i].id <= s.high_water() <= s.last_message_id,
{
    let last = s.messages.len() - 1;
    assert(s.messages[last].id <= s.last_message_id);
    if i < last {
        assert(s.messages[i].id < s.messages[last].id);
    }
}

/// The deliveries that are left stay well-formed.
proof fn lemma_fewer_rows(s: StoreView, t: StoreView, p: spec_fn(DeliveryRowView) -> bool)
    requires
        s.deliveries_wf(),
        t.deliveries == s.deliveries.filter(p),
    ensures
        t.deliveries_wf(),
{
    assert forall|i: int| 0 <= i < t.deliveries.len() implies {
        let row = #[trigger] t.deliveries[i];
        &&& 0 <= row.generation
        &&& 0 <= row.delivery_count
    } by {
        let a = seqs::lemma_filter_source(s.deliveries, p, i);
        assert(s.deliveries[a].generation >= 0);
    }
    assert forall|i: int, j: int| 0 <= i < j < t.deliveries.len() implies {
        ||| #[trigger] t.deliveries[i].consumer_id != #[trigger] t.deliveries[j].consumer_id
        ||| t.deliveries[i].message_id != t.deliveries[j].message_id
    } by {
        let (a, b) = seqs::lemma_filter_sources(s.deliveries, p, i, j);
        assert(s.deliveries[a].consumer_id != s.deliveries[b].consumer_id
            || s.deliveries[a].message_id != s.deliveries[b].message_id);
    }
}

/// Removing deliveries keeps the tables well-formed and a log consistent.
pub proof fn lemma_fewer_deliveries(s: StoreView, p: spec_fn(DeliveryRowView) -> bool)
    requires
        s.wf(),
    ensures
        (StoreView { deliveries: s.deliveries.filter(p), ..s }).wf(),
        s.consistent() ==> (StoreView { deliveries: s.deliveries.filter(p), ..s }).consistent(),
{
    let t = StoreView { deliveries: s.deliveries.filter(p), ..s };
    lemma_same_consumers(s, t);
    lemma_fewer_rows(s, t, p);
    if s.consistent() {
        lemma_consumers_agree(s, t);
        lemma_moved_copies(s, t);
        assert forall|i: int| 0 <= i < t.deliveries.len() implies {
            let row = #[trigger] t.deliveries[i];
            t.is_copy(row.consumer_id, row.message_id)
        } by {
            let a = seqs::lemma_filter_source(s.deliveries, p, i);
            let row = s.deliveries[a];
            assert(s.is_copy(row.consumer_id, row.message_id));
            lemma_copy_kept(s, t, row.consumer_id, row.message_id);
        }
        assert forall|i: int, j: int|
            0 <= i < t.archives.len() && 0 <= j < t.deliveries.len() implies {
                ||| #[trigger] t.archives[i].consumer_id != #[trigger] t.deliveries[j].consumer_id
                ||| t.archives[i].message_id != t.deliveries[j].message_id
            } by {
            let b = seqs::lemma_filter_source(s.deliveries, p, j);
            assert(s.archives[i].consumer_id != s.deliveries[b].consumer_id
                || s.archives[i].message_id != s.deliveries[b].message_id);
        }
        assert(t.ledger_agrees()) by {
            assert(s.ledger_agrees());
        }
    }
}

/// Changing deliveries in place keeps the tables well-formed, as long as they
/// stay the copies that they were.
proof fn lemma_changed_deliveries(s: StoreView, rows: Seq<DeliveryRowView>)
    requires
        s.wf(),
        rows.len() == s.deliveries.len(),
        forall|i: int|
            0 <= i < rows.len() ==> {
                &&& (#[trigger] rows[i]).consumer_id == s.deliveries[i].consumer_id
                &&& rows[i].message_id == s.deliveries[i].message_id
                &&& 0 <= rows[i].generation
                &&& 0 <= rows[i].delivery_count
            },
    ensures
        (StoreView { deliveries: rows, ..s }).wf(),
        s.consistent() ==> (StoreView { deliveries: rows, ..s }).consistent(),
{
    let t = StoreView { deliveries: rows, ..s };
    lemma_same_consumers(s, t);
    assert forall|i: int, j: int| 0 <= i < j < t.deliveries.len() implies {
        ||| #[trigger] t.deliveries[i].consumer_id != #[trigger] t.deliveries[j].consumer_id
        ||| t.deliveries[i].message_id != t.deliveries[j].message_id
    } by {
        assert(s.deliveries[i].consumer_id != s.deliveries[j].consumer_id
            || s.deliveries[i].message_id != s.deliveries[j].message_id);
    }
    if s.consistent() {
        lemma_consumers_agree(s, t);
        lemma_moved_copies(s, t);
        assert forall|i: int| 0 <= i < t.deliveries.len() implies {
            let row = #[trigger] t.deliveries[i];
            t.is_copy(row.consumer_id, row.message_id)
        } by {
            let row = s.deliveries[i];
            assert(s.is_copy(row.consumer_id, row.message_id));
            lemma_copy_kept(s, t, row.consumer_id, row.message_id);
        }
        assert forall|i: int, j: int|
            0 <= i < t.archives.len() && 0 <= j < t.deliveries.len() implies {
                ||| #[trigger] t.archives[i].consumer_id != #[trigger] t.deliveries[j].consumer_id
                ||| t.archives[i].message_id != t.deliveries[j].message_id
            } by {
            assert(s.archives[i].consumer_id != s.deliveries[j].consumer_id
                || s.archives[i].message_id != s.deliveries[j].message_id);
        }
        assert(t.ledger_agrees()) by {
            assert(s.ledger_agrees());
        }
    }
}

/// Releasing deliveries keeps the tables well-formed and a log consistent.
pub proof fn lemma_nacked_wf(s: StoreView, id: int, receipts: Seq<ReceiptView>, visible_at: int)
    requires
        s.wf(),
    ensures
        s.nacked(id, receipts, visible_at).wf(),
        s.consistent() ==> s.nacked(id, receipts, visible_at).consistent(),
{
    let t = s.nacked(id, receipts, visible_at);
    assert forall|i: int| 0 <= i < t.deliveries.len() implies {
        &&& (#[trigger] t.deliveries[i]).consumer_id == s.deliveries[i].consumer_id
        &&& t.deliveries[i].message_id == s.deliveries[i].message_id
        &&& 0 <= t.deliveries[i].generation
        &&& 0 <= t.deliveries[i].delivery_count
    } by {
        assert(s.deliveries[i].generation >= 0);
    }
    lemma_changed_deliveries(s, t.deliveries);
    lemma_wakeups(StoreView { deliveries: t.deliveries, ..s }, t.wakeups);
}

/// Extending leases keeps the tables well-formed and a log consistent.
pub proof fn lemma_extended_wf(s: StoreView, id: int, receipts: Seq<ReceiptView>, visible_at: int)
    requires
        s.wf(),
    ensures
        s.extended(id, receipts, visible_at).wf(),
        s.consistent() ==> s.extended(id, receipts, visible_at).consistent(),
{
    let t = s.extended(id, receipts, visible_at);
    assert forall|i: int| 0 <= i < t.deliveries.len() implies {
        &&& (#[trigger] t.deliveries[i]).consumer_id == s.deliveries[i].consumer_id
        &&& t.deliveries[i].message_id == s.deliveries[i].message_id
        &&& 0 <= t.deliveries[i].generation
        &&& 0 <= t.deliveries[i].delivery_count
    } by {
        assert(s.deliveries[i].generation >= 0);
    }
    lemma_changed_deliveries(s, t.deliveries);
}

/// Wakeups have no part in the tables.
pub proof fn lemma_wakeups(s: StoreView, wakeups: Seq<crate::signals::WakeupView>)
    requires
        s.wf(),
    ensures
        (StoreView { wakeups, ..s }).wf(),
        s.consistent() ==> (StoreView { wakeups, ..s }).consistent(),
{
    let t = StoreView { wakeups, ..s };
    lemma_same_consumers(s, t);
    if s.consistent() {
        lemma_same_log(s, t);
    }
}

/// The same consumers stay well-formed.
proof fn lemma_same_consumers(s: StoreView, t: StoreView)
    requires
        s.consumers_wf(),
        t.consumers == s.consumers,
        t.last_consumer_id == s.last_consumer_id,
    ensures
        t.consumers_wf(),
{
    assert forall|i: int| 0 <= i < t.consumers.len() implies t.consumer_wf(
        #[trigger] t.consumers[i],
    ) by {
        assert(s.consumer_wf(s.consumers[i]));
    }
}

/// The same consumers agree with a log that has not become shorter.
proof fn lemma_consumers_agree(s: StoreView, t: StoreView)
    requires
        s.consumers_agree(),
        t.consumers == s.consumers,
        t.last_message_id >= s.last_message_id,
    ensures
        t.consumers_agree(),
{
    assert forall|i: int| 0 <= i < t.consumers.len() implies t.consumer_agrees(
        #[trigger] t.consumers[i],
    ) by {
        assert(s.consumer_agrees(s.consumers[i]));
    }
}

/// A copy stays consistent where consumers and messages are only added.
pub proof fn lemma_copy_extended(s: StoreView, t: StoreView, consumer_id: int, message_id: int)
    requires
        s.is_copy(consumer_id, message_id),
        t.consumers_wf(),
        t.messages_wf(),
        s.messages.len() <= t.messages.len(),
        s.consumers.len() <= t.consumers.len(),
        forall|i: int| 0 <= i < s.messages.len() ==> #[trigger] t.messages[i] == s.messages[i],
        forall|i: int| 0 <= i < s.consumers.len() ==> #[trigger] t.consumers[i] == s.consumers[i],
    ensures
        t.is_copy(consumer_id, message_id),
{
    let i = s.consumer_index(consumer_id);
    assert(s.consumers[i].id == consumer_id);
    assert(t.consumers[i] == s.consumers[i]);
    lemma_consumer(t, i);
    let j = choose|j: int|
        0 <= j < s.messages.len() && #[trigger] s.messages[j].id == message_id;
    assert(t.messages[j] == s.messages[j]);
    lemma_message(t, j);
}

/// Opening a consumer keeps the tables well-formed and a log consistent.
pub proof fn lemma_opened_wf(s: StoreView, name: Seq<char>, filter: Option<Seq<char>>, now: int)
    requires
        s.wf(),
        !s.has_name(name),
        s.last_consumer_id < i64::MAX,
        s.high_water() >= 0,
    ensures
        s.opened(name, filter, now).wf(),
        s.consistent() ==> s.opened(name, filter, now).consistent(),
{
    let t = s.opened(name, filter, now);
    let n = s.consumers.len() as int;
    assert forall|i: int| 0 <= i < t.consumers.len() implies t.consumer_wf(
        #[trigger] t.consumers[i],
    ) by {
        if i < n {
            assert(t.consumers[i] == s.consumers[i]);
            assert(s.consumer_wf(s.consumers[i]));
        }
    }
    assert forall|i: int, j: int| 0 <= i < j < t.consumers.len() implies #[trigger] t.consumers[i].id
        < #[trigger] t.consumers[j].id by {
        assert(s.consumer_wf(s.consumers[i]));
        if j < n {
            assert(s.consumers[i].id < s.consumers[j].id);
        }
    }
    assert forall|i: int, j: int|
        0 <= i < j < t.consumers.len() implies #[trigger] t.consumers[i].name
        != #[trigger] t.consumers[j].name by {
        if j < n {
            assert(s.consumers[i].name != s.consumers[j].name);
        } else {
            assert(s.consumers[i].name != name);
        }
    }
    assert(t.consumers_wf());
    assert(t.messages_wf());
    if s.consistent() {
        if s.messages.len() > 0 {
            lemma_high_water(s, 0);
        }
        assert forall|i: int| 0 <= i < t.consumers.len() implies t.consumer_agrees(
            #[trigger] t.consumers[i],
        ) by {
            if i < n {
                assert(t.consumers[i] == s.consumers[i]);
                assert(s.consumer_agrees(s.consumers[i]));
            }
        }
        lemma_copies_extended(s, t);
    }
}

/// Copies stay copies where consumers and messages are only added, and deliveries
/// and archives stay.
proof fn lemma_copies_extended(s: StoreView, t: StoreView)
    requires
        s.deliveries_agree(),
        s.archives_agree(),
        t.consumers_wf(),
        t.messages_wf(),
        s.messages.len() <= t.messages.len(),
        s.consumers.len() <= t.consumers.len(),
        forall|i: int| 0 <= i < s.messages.len() ==> #[trigger] t.messages[i] == s.messages[i],
        forall|i: int| 0 <= i < s.consumers.len() ==> #[trigger] t.consumers[i] == s.consumers[i],
        t.deliveries == s.deliveries,
        t.archives == s.archives,
    ensures
        t.deliveries_agree(),
        t.archives_agree(),
{
    assert forall|i: int| 0 <= i < t.deliveries.len() implies {
        let row = #[trigger] t.deliveries[i];
        t.is_copy(row.consumer_id, row.message_id)
    } by {
        let row = s.deliveries[i];
        assert(s.is_copy(row.consumer_id, row.message_id));
        lemma_copy_extended(s, t, row.consumer_id, row.message_id);
    }
    assert forall|i: int| 0 <= i < t.archives.len() implies {
        let row = #[trigger] t.archives[i];
        t.is_copy(row.consumer_id, row.message_id)
    } by {
        let row = s.archives[i];
        assert(s.is_copy(row.consumer_id, row.message_id));
        lemma_copy_extended(s, t, row.consumer_id, row.message_id);
    }
}

/// Draining a consumer keeps the tables well-formed and a log consistent.
pub proof fn lemma_drained_wf(s: StoreView, id: int, now: int)
    requires
        s.wf(),
        s.has_consumer(id),
    ensures
        s.drained(id, now).wf(),
        s.consistent() ==> s.drained(id, now).consistent(),
{
    let index = s.consumer_index(id);
    assert(s.consumers[index].id == id);
    assert(s.consumer_wf(s.consumers[index]));
    let t = s.drained(id, now);
    assert forall|i: int| 0 <= i < t.consumers.len() implies t.consumer_wf(
        #[trigger] t.consumers[i],
    ) by {
        assert(s.consumer_wf(s.consumers[i]));
    }
    assert forall|i: int, j: int| 0 <= i < j < t.consumers.len() implies #[trigger] t.consumers[i].id
        < #[trigger] t.consumers[j].id by {
        assert(s.consumers[i].id < s.consumers[j].id);
    }
    assert forall|i: int, j: int|
        0 <= i < j < t.consumers.len() implies #[trigger] t.consumers[i].name
        != #[trigger] t.consumers[j].name by {
        assert(s.consumers[i].name != s.consumers[j].name);
    }
    if s.consistent() {
        if s.messages.len() > 0 {
            lemma_high_water(s, 0);
        }
        assert forall|i: int| 0 <= i < t.consumers.len() implies t.consumer_agrees(
            #[trigger] t.consumers[i],
        ) by {
            assert(s.consumer_agrees(s.consumers[i]));
        }
        lemma_moved_copies(s, t);
    }
}

/// Copies stay copies where cursors only move forward.
pub proof fn lemma_moved_copies(s: StoreView, t: StoreView)
    requires
        s.consumers_wf(),
        s.deliveries_agree(),
        s.archives_agree(),
        t.messages == s.messages,
        t.consumers.len() == s.consumers.len(),
        forall|i: int|
            0 <= i < s.consumers.len() ==> {
                &&& (#[trigger] t.consumers[i]).id == s.consumers[i].id
                &&& t.consumers[i].filter == s.consumers[i].filter
                &&& t.consumers[i].scan_cursor >= s.consumers[i].scan_cursor
            },
    ensures
        forall|i: int|
            0 <= i < s.deliveries.len() ==> {
                let row = #[trigger] s.deliveries[i];
                t.is_copy(row.consumer_id, row.message_id)
            },
        forall|i: int|
            0 <= i < s.archives.len() ==> {
                let row = #[trigger] s.archives[i];
                t.is_copy(row.consumer_id, row.message_id)
            },
{
    assert forall|i: int| 0 <= i < s.deliveries.len() implies {
        let row = #[trigger] s.deliveries[i];
        t.is_copy(row.consumer_id, row.message_id)
    } by {
        let row = s.deliveries[i];
        assert(s.is_copy(row.consumer_id, row.message_id));
        lemma_copy_kept(s, t, row.consumer_id, row.message_id);
    }
    assert forall|i: int| 0 <= i < s.archives.len() implies {
        let row = #[trigger] s.archives[i];
        t.is_copy(row.consumer_id, row.message_id)
    } by {
        let row = s.archives[i];
        assert(s.is_copy(row.consumer_id, row.message_id));
        lemma_copy_kept(s, t, row.consumer_id, row.message_id);
    }
}

/// Dropping expired idempotency keys keeps the tables well-formed and a log
/// consistent.
pub proof fn lemma_without_expired_wf(s: StoreView, now: int)
    requires
        s.wf(),
    ensures
        s.without_expired(now).wf(),
        s.consistent() ==> s.without_expired(now).consistent(),
{
    let t = s.without_expired(now);
    let p = crate::model::unexpired(now);
    lemma_same_consumers(s, t);
    assert forall|i: int, j: int| 0 <= i < j < t.ledger.len() implies #[trigger] t.ledger[i].key
        != #[trigger] t.ledger[j].key by {
        let (a, b) = seqs::lemma_filter_sources(s.ledger, p, i, j);
        assert(s.ledger[a].key != s.ledger[b].key);
    }
    if s.consistent() {
        assert forall|i: int|
            0 <= i < t.ledger.len() implies (#[trigger] t.ledger[i].message_id matches Some(id)
            ==> id <= t.last_message_id) by {
            let a = seqs::lemma_filter_source(s.ledger, p, i);
            assert(s.ledger[a].message_id == t.ledger[i].message_id);
        }
        lemma_same_log(s, t);
    }
}

/// A log stays consistent where messages are only added, and consumers,
/// deliveries and archives stay.
proof fn lemma_same_log(s: StoreView, t: StoreView)
    requires
        s.consistent(),
        t.wf(),
        t.messages_agree(),
        t.ledger_agrees(),
        s.messages.len() <= t.messages.len(),
        forall|i: int| 0 <= i < s.messages.len() ==> #[trigger] t.messages[i] == s.messages[i],
        t.last_message_id >= s.last_message_id,
        t.consumers == s.consumers,
        t.deliveries == s.deliveries,
        t.archives == s.archives,
    ensures
        t.consistent(),
{
    lemma_consumers_agree(s, t);
    lemma_copies_extended(s, t);
}

/// Publishing one message keeps the tables well-formed and a log consistent.
pub proof fn lemma_published_one_wf(
    s: StoreView,
    publish: PublishView,
    now: int,
    expires_at: int,
)
    requires
        s.wf(),
        s.last_message_id < i64::MAX || s.message_of_key(publish.idempotency_key) is Some,
    ensures
        s.published_one(publish, now, expires_at).wf(),
        s.consistent() ==> s.published_one(publish, now, expires_at).consistent(),
{
    let t = s.published_one(publish, now, expires_at);
    if s.message_of_key(publish.idempotency_key) is None {
        let n = s.messages.len() as int;
        lemma_same_consumers(s, t);
        assert forall|i: int| 0 <= i < t.messages.len() implies #[trigger] t.messages[i].id
            <= t.last_message_id by {
            if i < n {
                assert(t.messages[i] == s.messages[i]);
            }
        }
        assert forall|i: int, j: int|
            0 <= i < j < t.messages.len() implies #[trigger] t.messages[i].id
            < #[trigger] t.messages[j].id by {
            assert(t.messages[i] == s.messages[i]);
            assert(s.messages[i].id <= s.last_message_id);
            if j < n {
                assert(t.messages[j] == s.messages[j]);
            }
        }
        let m = s.ledger.len() as int;
        if let Some(key) = publish.idempotency_key {
            if s.has_key(key) {
                let k = s.key_index(key);
                assert(0 <= k < m && s.ledger[k].key == key);
            }
        }
        assert forall|i: int, j: int| 0 <= i < j < t.ledger.len() implies #[trigger] t.ledger[i].key
            != #[trigger] t.ledger[j].key by {
            assert(t.ledger[i].key == s.ledger[i].key);
            if j < m {
                assert(s.ledger[i].key != s.ledger[j].key);
            }
        }
        if s.consistent() {
            assert forall|i: int|
                0 <= i < t.ledger.len() implies (#[trigger] t.ledger[i].message_id matches Some(id)
                ==> id <= t.last_message_id) by {
                if i < m {
                    assert(s.ledger[i].message_id matches Some(id) ==> id <= s.last_message_id);
                }
            }
            assert forall|i: int| 0 <= i < t.messages.len() implies 0
                < #[trigger] t.messages[i].id by {
                if i < n {
                    assert(t.messages[i] == s.messages[i]);
                }
            }
            lemma_same_log(s, t);
        }
    }
}

/// Publishing a batch never takes back an identifier.
pub proof fn lemma_published_last(
    s: StoreView,
    batch: Seq<PublishView>,
    i: int,
    now: int,
    expires_at: int,
)
    requires
        0 <= i <= batch.len(),
    ensures
        s.published_all(batch.take(i), now, expires_at).last_message_id <= s.published_all(
            batch,
            now,
            expires_at,
        ).last_message_id,
    decreases batch.len(),
{
    if i == batch.len() {
        assert(batch.take(i) =~= batch);
    } else {
        assert(batch.drop_last().take(i) =~= batch.take(i));
        lemma_published_last(s, batch.drop_last(), i, now, expires_at);
    }
}

/// The other consumers are still found after one is deleted.
pub proof fn lemma_other_consumer(s: StoreView, id: int, other: int)
    requires
        s.consumers_wf(),
        s.has_consumer(other),
        other != id,
        s.without_consumer(id).consumers_wf(),
    ensures
        s.without_consumer(id).has_consumer(other),
        s.without_consumer(id).consumer(other) == s.consumer(other),
{
    let t = s.without_consumer(id);
    let p = crate::model::other_than(id);
    let row = s.consumer(other);
    let i = s.consumer_index(other);
    assert(s.consumers[i].id == other);
    assert(s.consumers.contains(row));
    seqs::lemma_filter_member(s.consumers, p, row);
    let k = choose|k: int| 0 <= k < t.consumers.len() && t.consumers[k] == row;
    lemma_consumer(t, k);
}

/// Deleting a consumer with all its rows keeps the tables well-formed and a log
/// consistent.
pub proof fn lemma_without_consumer_wf(s: StoreView, id: int)
    requires
        s.wf(),
    ensures
        s.without_consumer(id).wf(),
        s.consistent() ==> s.without_consumer(id).consistent(),
{
    let t = s.without_consumer(id);
    let p = crate::model::other_than(id);
    let q = crate::model::negate(crate::model::belongs_to(id));
    let r = crate::model::negate(crate::model::archived_by(id));
    assert forall|i: int| 0 <= i < t.consumers.len() implies t.consumer_wf(
        #[trigger] t.consumers[i],
    ) by {
        let a = seqs::lemma_filter_source(s.consumers, p, i);
        assert(s.consumer_wf(s.consumers[a]));
    }
    assert forall|i: int, j: int| 0 <= i < j < t.consumers.len() implies #[trigger] t.consumers[i].id
        < #[trigger] t.consumers[j].id by {
        let (a, b) = seqs::lemma_filter_sources(s.consumers, p, i, j);
        assert(s.consumers[a].id < s.consumers[b].id);
    }
    assert forall|i: int, j: int|
        0 <= i < j < t.consumers.len() implies #[trigger] t.consumers[i].name
        != #[trigger] t.consumers[j].name by {
        let (a, b) = seqs::lemma_filter_sources(s.consumers, p, i, j);
        assert(s.consumers[a].name != s.consumers[b].name);
    }
    assert(t.consumers_wf());
    lemma_fewer_rows(s, t, q);
    lemma_fewer_archives(s, t, r);
    if s.consistent() {
        assert forall|i: int| 0 <= i < t.consumers.len() implies t.consumer_agrees(
            #[trigger] t.consumers[i],
        ) by {
            let a = seqs::lemma_filter_source(s.consumers, p, i);
            assert(s.consumer_agrees(s.consumers[a]));
        }
        assert forall|i: int| 0 <= i < t.deliveries.len() implies {
            let row = #[trigger] t.deliveries[i];
            t.is_copy(row.consumer_id, row.message_id)
        } by {
            let a = seqs::lemma_filter_source(s.deliveries, q, i);
            let row = s.deliveries[a];
            assert(s.is_copy(row.consumer_id, row.message_id));
            lemma_other_consumer(s, id, row.consumer_id);
        }
        assert forall|i: int| 0 <= i < t.archives.len() implies {
            let row = #[trigger] t.archives[i];
            t.is_copy(row.consumer_id, row.message_id)
        } by {
            let a = seqs::lemma_filter_source(s.archives, r, i);
            let row = s.archives[a];
            assert(s.is_copy(row.consumer_id, row.message_id));
            lemma_other_consumer(s, id, row.consumer_id);
        }
        assert forall|i: int, j: int|
            0 <= i < t.archives.len() && 0 <= j < t.deliveries.len() implies {
                ||| #[trigger] t.archives[i].consumer_id != #[trigger] t.deliveries[j].consumer_id
                ||| t.archives[i].message_id != t.deliveries[j].message_id
            } by {
            let a = seqs::lemma_filter_source(s.archives, r, i);
            let b = seqs::lemma_filter_source(s.deliveries, q, j);
            assert(s.archives[a].consumer_id != s.deliveries[b].consumer_id
                || s.archives[a].message_id != s.deliveries[b].message_id);
        }
        assert(t.ledger_agrees()) by {
            assert(s.ledger_agrees());
        }
    }
}

/// The archives that are left stay well-formed.
proof fn lemma_fewer_archives(s: StoreView, t: StoreView, p: spec_fn(ArchiveView) -> bool)
    requires
        s.archives_wf(),
        t.archives == s.archives.filter(p),
        t.last_archive_id == s.last_archive_id,
    ensures
        t.archives_wf(),
{
    assert forall|i: int| 0 <= i < t.archives.len() implies {
        let row = #[trigger] t.archives[i];
        &&& row.id <= t.last_archive_id
        &&& 0 <= row.generation
        &&& 0 <= row.delivery_count
    } by {
        let a = seqs::lemma_filter_source(s.archives, p, i);
        assert(s.archives[a].id <= s.last_archive_id);
    }
    assert forall|i: int, j: int| 0 <= i < j < t.archives.len() implies #[trigger] t.archives[i].id
        < #[trigger] t.archives[j].id by {
        let (a, b) = seqs::lemma_filter_sources(s.archives, p, i, j);
        assert(s.archives[a].id < s.archives[b].id);
    }
    assert forall|i: int, j: int| 0 <= i < j < t.archives.len() implies {
        ||| #[trigger] t.archives[i].consumer_id != #[trigger] t.archives[j].consumer_id
        ||| t.archives[i].message_id != t.archives[j].message_id
    } by {
        let (a, b) = seqs::lemma_filter_sources(s.archives, p, i, j);
        assert(s.archives[a].consumer_id != s.archives[b].consumer_id || s.archives[a].message_id
            != s.archives[b].message_id);
    }
}

/// Pruning only removes messages that nobody has a use for.
pub proof fn lemma_doomed(s: StoreView, before_ms: int, max: nat, message: MessageView)
    requires
        s.doomed(before_ms, max).contains(message),
    ensures
        s.messages.contains(message),
        message.published_at_ms < before_ms,
        !s.is_referenced(message),
{
    let doomed = s.doomed(before_ms, max);
    let k = choose|k: int| 0 <= k < doomed.len() && doomed[k] == message;
    let a = seqs::lemma_filter_source(s.messages, s.prunable(before_ms), k);
    assert(s.messages[a] == message);
}

/// A referenced message is still found after pruning.
pub proof fn lemma_referenced_kept(s: StoreView, before_ms: int, max: nat, id: int)
    requires
        s.messages_wf(),
        s.has_message(id),
        s.is_referenced(s.message(id)),
        s.pruned(before_ms, max).messages_wf(),
    ensures
        s.pruned(before_ms, max).has_message(id),
        s.pruned(before_ms, max).message(id) == s.message(id),
{
    let t = s.pruned(before_ms, max);
    let p = crate::model::outside(s.doomed(before_ms, max));
    let row = s.message(id);
    let i = choose|i: int| 0 <= i < s.messages.len() && #[trigger] s.messages[i].id == id;
    assert(s.messages[i] == row);
    assert(s.messages.contains(row));
    if s.doomed(before_ms, max).contains(row) {
        lemma_doomed(s, before_ms, max, row);
    }
    seqs::lemma_filter_member(s.messages, p, row);
    let k = choose|k: int| 0 <= k < t.messages.len() && t.messages[k] == row;
    lemma_message(t, k);
}

/// Pruning keeps the tables well-formed and a log consistent.
pub proof fn lemma_pruned_wf(s: StoreView, before_ms: int, max: nat)
    requires
        s.wf(),
    ensures
        s.pruned(before_ms, max).wf(),
        s.consistent() ==> s.pruned(before_ms, max).consistent(),
{
    let t = s.pruned(before_ms, max);
    let p = crate::model::outside(s.doomed(before_ms, max));
    lemma_same_consumers(s, t);
    assert forall|i: int| 0 <= i < t.messages.len() implies #[trigger] t.messages[i].id
        <= t.last_message_id by {
        let a = seqs::lemma_filter_source(s.messages, p, i);
        assert(s.messages[a].id <= s.last_message_id);
    }
    assert forall|i: int, j: int| 0 <= i < j < t.messages.len() implies #[trigger] t.messages[i].id
        < #[trigger] t.messages[j].id by {
        let (a, b) = seqs::lemma_filter_sources(s.messages, p, i, j);
        assert(s.messages[a].id < s.messages[b].id);
    }
    assert(t.messages_wf());
    if s.consistent() {
        lemma_consumers_agree(s, t);
        assert forall|i: int| 0 <= i < t.messages.len() implies 0 < #[trigger] t.messages[i].id by {
            let a = seqs::lemma_filter_source(s.messages, p, i);
            assert(s.messages[a].id > 0);
        }
        assert forall|i: int| 0 <= i < t.deliveries.len() implies {
            let row = #[trigger] t.deliveries[i];
            t.is_copy(row.consumer_id, row.message_id)
        } by {
            let row = s.deliveries[i];
            assert(s.is_copy(row.consumer_id, row.message_id));
            assert(s.message(row.message_id).id == row.message_id);
            assert(s.deliveries[i].message_id == s.message(row.message_id).id);
            lemma_referenced_kept(s, before_ms, max, row.message_id);
        }
        assert forall|i: int| 0 <= i < t.archives.len() implies {
            let row = #[trigger] t.archives[i];
            t.is_copy(row.consumer_id, row.message_id)
        } by {
            let row = s.archives[i];
            assert(s.is_copy(row.consumer_id, row.message_id));
            assert(s.message(row.message_id).id == row.message_id);
            assert(s.archives[i].message_id == s.message(row.message_id).id);
            lemma_referenced_kept(s, before_ms, max, row.message_id);
        }
        assert(t.ledger_agrees()) by {
            assert(s.ledger_agrees());
        }
    }
}

/// A consistent log has no negative high-water mark.
pub proof fn lemma_high_water_agrees(s: StoreView)
    requires
        s.consistent(),
    ensures
        0 <= s.high_water() <= s.last_message_id,
{
    if s.messages.len() > 0 {
        lemma_high_water(s, 0);
        assert(s.messages[s.messages.len() - 1].id > 0);
    }
}

/// In a consistent log no delivery is archived twice.
pub proof fn lemma_archives_once(s: StoreView, id: int, receipts: Seq<ReceiptView>)
    requires
        s.consistent(),
    ensures
        !s.rearchives(id, receipts),
{
    let hits = s.hits(id, receipts);
    assert forall|k: int| 0 <= k < hits.len() implies !s.is_archived(
        id,
        (#[trigger] hits[k]).message_id,
    ) by {
        let a = seqs::lemma_filter_source(s.deliveries, crate::model::hit(id, receipts), k);
        assert forall|i: int| 0 <= i < s.archives.len() implies {
            ||| #[trigger] s.archives[i].consumer_id != id
            ||| s.archives[i].message_id != hits[k].message_id
        } by {
            assert(s.archives[i].consumer_id != s.deliveries[a].consumer_id
                || s.archives[i].message_id != s.deliveries[a].message_id);
        }
    }
}

/// In a consistent log no archived delivery is still outstanding.
pub proof fn lemma_redelivers_once(s: StoreView, id: int, ids: Seq<int>)
    requires
        s.consistent(),
    ensures
        !s.redelivers(id, ids),
{
    let rows = s.redriven_rows(id, ids);
    assert forall|k: int| 0 <= k < rows.len() implies !s.is_materialized(
        id,
        (#[trigger] rows[k]).message_id,
    ) by {
        let a = seqs::lemma_filter_source(s.archives, crate::model::chosen(id, ids), k);
        assert forall|i: int| 0 <= i < s.deliveries.len() implies {
            ||| #[trigger] s.deliveries[i].consumer_id != id
            ||| s.deliveries[i].message_id != rows[k].message_id
        } by {
            assert(s.archives[a].consumer_id != s.deliveries[i].consumer_id
                || s.archives[a].message_id != s.deliveries[i].message_id);
        }
    }
}

/// Setting deliveries aside keeps the tables well-formed and a log consistent.
pub proof fn lemma_archived_wf(
    s: StoreView,
    id: int,
    receipts: Seq<ReceiptView>,
    detail: Option<Seq<char>>,
    now: int,
)
    requires
        s.wf(),
        s.last_archive_id + s.hits(id, receipts).len() <= i64::MAX,
        !s.rearchives(id, receipts),
    ensures
        s.archived(id, receipts, detail, now).wf(),
        s.consistent() ==> s.archived(id, receipts, detail, now).consistent(),
{
    let t = s.archived(id, receipts, detail, now);
    let p = crate::model::hit(id, receipts);
    let q = crate::model::negate(p);
    let n = s.archives.len() as int;
    let hits = s.hits(id, receipts);
    let fresh = s.new_archives(id, receipts, detail, now);
    lemma_fewer_rows(s, t, q);
    lemma_same_consumers(s, t);
    assert forall|i: int| 0 <= i < t.archives.len() implies {
        let row = #[trigger] t.archives[i];
        &&& row.id <= t.last_archive_id
        &&& 0 <= row.generation
        &&& 0 <= row.delivery_count
    } by {
        if i < n {
            assert(s.archives[i].id <= s.last_archive_id);
        } else {
            assert(t.archives[i] == fresh[i - n]);
            let a = seqs::lemma_filter_source(s.deliveries, p, i - n);
            assert(s.deliveries[a].generation >= 0);
        }
    }
    assert forall|i: int, j: int| 0 <= i < j < t.archives.len() implies #[trigger] t.archives[i].id
        < #[trigger] t.archives[j].id by {
        if i < n {
            assert(s.archives[i].id <= s.last_archive_id);
        }
        if j < n {
            assert(s.archives[i].id < s.archives[j].id);
        }
    }
    assert forall|i: int, j: int| 0 <= i < j < t.archives.len() implies {
        ||| #[trigger] t.archives[i].consumer_id != #[trigger] t.archives[j].consumer_id
        ||| t.archives[i].message_id != t.archives[j].message_id
    } by {
        if j < n {
            assert(s.archives[i].consumer_id != s.archives[j].consumer_id
                || s.archives[i].message_id != s.archives[j].message_id);
        } else if i < n {
            assert(t.archives[j] == fresh[j - n]);
            let b = seqs::lemma_filter_source(s.deliveries, p, j - n);
            assert(!s.is_archived(id, hits[j - n].message_id));
            assert(s.archives[i].consumer_id != id || s.archives[i].message_id
                != hits[j - n].message_id);
        } else {
            assert(t.archives[i] == fresh[i - n]);
            assert(t.archives[j] == fresh[j - n]);
            let (a, b) = seqs::lemma_filter_sources(s.deliveries, p, i - n, j - n);
            assert(s.deliveries[a].consumer_id != s.deliveries[b].consumer_id
                || s.deliveries[a].message_id != s.deliveries[b].message_id);
        }
    }
    if s.consistent() {
        lemma_archived_agrees(s, id, receipts, detail, now);
    }
}

proof fn lemma_archived_agrees(
    s: StoreView,
    id: int,
    receipts: Seq<ReceiptView>,
    detail: Option<Seq<char>>,
    now: int,
)
    requires
        s.consistent(),
        s.archived(id, receipts, detail, now).wf(),
    ensures
        s.archived(id, receipts, detail, now).consistent(),
{
    let t = s.archived(id, receipts, detail, now);
    let p = crate::model::hit(id, receipts);
    let q = crate::model::negate(p);
    let n = s.archives.len() as int;
    let fresh = s.new_archives(id, receipts, detail, now);
    lemma_consumers_agree(s, t);
    lemma_moved_copies(s, t);
    assert forall|i: int| 0 <= i < t.deliveries.len() implies {
        let row = #[trigger] t.deliveries[i];
        t.is_copy(row.consumer_id, row.message_id)
    } by {
        let a = seqs::lemma_filter_source(s.deliveries, q, i);
        assert(t.deliveries[i] == s.deliveries[a]);
    }
    assert forall|i: int| 0 <= i < t.archives.len() implies {
        let row = #[trigger] t.archives[i];
        t.is_copy(row.consumer_id, row.message_id)
    } by {
        if i < n {
            assert(t.archives[i] == s.archives[i]);
        } else {
            assert(t.archives[i] == fresh[i - n]);
            let a = seqs::lemma_filter_source(s.deliveries, p, i - n);
            let row = s.deliveries[a];
            assert(t.is_copy(row.consumer_id, row.message_id));
        }
    }
    assert forall|i: int, j: int|
        0 <= i < t.archives.len() && 0 <= j < t.deliveries.len() implies {
            ||| #[trigger] t.archives[i].consumer_id != #[trigger] t.deliveries[j].consumer_id
            ||| t.archives[i].message_id != t.deliveries[j].message_id
        } by {
        let b = seqs::lemma_filter_source(s.deliveries, q, j);
        if i < n {
            assert(s.archives[i].consumer_id != s.deliveries[b].consumer_id
                || s.archives[i].message_id != s.deliveries[b].message_id);
        } else {
            assert(t.archives[i] == fresh[i - n]);
            let a = seqs::lemma_filter_source(s.deliveries, p, i - n);
            if a < b {
                assert(s.deliveries[a].consumer_id != s.deliveries[b].consumer_id
                    || s.deliveries[a].message_id != s.deliveries[b].message_id);
            } else {
                assert(a != b);
                assert(s.deliveries[b].consumer_id != s.deliveries[a].consumer_id
                    || s.deliveries[b].message_id != s.deliveries[a].message_id);
            }
        }
    }
    assert(t.ledger_agrees()) by {
        assert(s.ledger_agrees());
    }
}

/// Bringing archived deliveries back keeps the tables well-formed and a log
/// consistent.
pub proof fn lemma_redriven_wf(s: StoreView, id: int, ids: Seq<int>, visible_at: int)
    requires
        s.wf(),
        !s.redelivers(id, ids),
    ensures
        s.redriven(id, ids, visible_at).wf(),
        s.consistent() ==> s.redriven(id, ids, visible_at).consistent(),
{
    let t = s.redriven(id, ids, visible_at);
    let p = crate::model::chosen(id, ids);
    let q = crate::model::negate(p);
    let rows = s.redriven_rows(id, ids);
    let n = s.deliveries.len() as int;
    lemma_same_consumers(s, t);
    lemma_fewer_archives(s, t, q);
    assert forall|i: int| 0 <= i < t.deliveries.len() implies {
        let row = #[trigger] t.deliveries[i];
        &&& 0 <= row.generation
        &&& 0 <= row.delivery_count
    } by {
        if i < n {
            assert(s.deliveries[i].generation >= 0);
        } else {
            let a = seqs::lemma_filter_source(s.archives, p, i - n);
            assert(t.deliveries[i].generation == s.archives[a].generation + 1);
        }
    }
    assert forall|i: int, j: int| 0 <= i < j < t.deliveries.len() implies {
        ||| #[trigger] t.deliveries[i].consumer_id != #[trigger] t.deliveries[j].consumer_id
        ||| t.deliveries[i].message_id != t.deliveries[j].message_id
    } by {
        if j < n {
            assert(s.deliveries[i].consumer_id != s.deliveries[j].consumer_id
                || s.deliveries[i].message_id != s.deliveries[j].message_id);
        } else if i < n {
            let b = seqs::lemma_filter_source(s.archives, p, j - n);
            assert(!s.is_materialized(id, rows[j - n].message_id));
            assert(s.deliveries[i].consumer_id != id || s.deliveries[i].message_id
                != rows[j - n].message_id);
        } else {
            let (a, b) = seqs::lemma_filter_sources(s.archives, p, i - n, j - n);
            assert(s.archives[a].consumer_id != s.archives[b].consumer_id
                || s.archives[a].message_id != s.archives[b].message_id);
        }
    }
    if s.consistent() {
        lemma_redriven_agrees(s, id, ids, visible_at);
    }
}

proof fn lemma_redriven_agrees(s: StoreView, id: int, ids: Seq<int>, visible_at: int)
    requires
        s.consistent(),
        s.redriven(id, ids, visible_at).wf(),
    ensures
        s.redriven(id, ids, visible_at).consistent(),
{
    let t = s.redriven(id, ids, visible_at);
    let p = crate::model::chosen(id, ids);
    let q = crate::model::negate(p);
    let n = s.deliveries.len() as int;
    lemma_consumers_agree(s, t);
    lemma_moved_copies(s, t);
    assert forall|i: int| 0 <= i < t.deliveries.len() implies {
        let row = #[trigger] t.deliveries[i];
        t.is_copy(row.consumer_id, row.message_id)
    } by {
        if i < n {
            assert(t.deliveries[i] == s.deliveries[i]);
        } else {
            let a = seqs::lemma_filter_source(s.archives, p, i - n);
            let row = s.archives[a];
            assert(t.is_copy(row.consumer_id, row.message_id));
        }
    }
    assert forall|i: int| 0 <= i < t.archives.len() implies {
        let row = #[trigger] t.archives[i];
        t.is_copy(row.consumer_id, row.message_id)
    } by {
        let a = seqs::lemma_filter_source(s.archives, q, i);
        assert(t.archives[i] == s.archives[a]);
    }
    assert forall|i: int, j: int|
        0 <= i < t.archives.len() && 0 <= j < t.deliveries.len() implies {
            ||| #[trigger] t.archives[i].consumer_id != #[trigger] t.deliveries[j].consumer_id
            ||| t.archives[i].message_id != t.deliveries[j].message_id
        } by {
        let a = seqs::lemma_filter_source(s.archives, q, i);
        if j < n {
            assert(s.archives[a].consumer_id != s.deliveries[j].consumer_id
                || s.archives[a].message_id != s.deliveries[j].message_id);
        } else {
            let b = seqs::lemma_filter_source(s.archives, p, j - n);
            if a < b {
                assert(s.archives[a].consumer_id != s.archives[b].consumer_id
                    || s.archives[a].message_id != s.archives[b].message_id);
            } else {
                assert(a != b);
                assert(s.archives[b].consumer_id != s.archives[a].consumer_id
                    || s.archives[b].message_id != s.archives[a].message_id);
            }
        }
    }
    assert(t.ledger_agrees()) by {
        assert(s.ledger_agrees());
    }
}

/// Purging archives keeps the tables well-formed and a log consistent.
pub proof fn lemma_purged_wf(s: StoreView, id: int, before_ms: int, max: nat)
    requires
        s.wf(),
    ensures
        s.purged(id, before_ms, max).wf(),
        s.consistent() ==> s.purged(id, before_ms, max).consistent(),
{
    let t = s.purged(id, before_ms, max);
    let q = crate::model::outside(s.purged_rows(id, before_ms, max));
    lemma_same_consumers(s, t);
    lemma_fewer_archives(s, t, q);
    if s.consistent() {
        lemma_consumers_agree(s, t);
        lemma_moved_copies(s, t);
        assert forall|i: int| 0 <= i < t.archives.len() implies {
            let row = #[trigger] t.archives[i];
            t.is_copy(row.consumer_id, row.message_id)
        } by {
            let a = seqs::lemma_filter_source(s.archives, q, i);
            assert(t.archives[i] == s.archives[a]);
        }
        assert forall|i: int, j: int|
            0 <= i < t.archives.len() && 0 <= j < t.deliveries.len() implies {
                ||| #[trigger] t.archives[i].consumer_id != #[trigger] t.deliveries[j].consumer_id
                ||| t.archives[i].message_id != t.deliveries[j].message_id
            } by {
            let a = seqs::lemma_filter_source(s.archives, q, i);
            assert(s.archives[a].consumer_id != s.deliveries[j].consumer_id
                || s.archives[a].message_id != s.deliveries[j].message_id);
        }
        assert(t.ledger_agrees()) by {
            assert(s.ledger_agrees());
        }
    }
}

/// A copy stays consistent where messages and consumers stay, and cursors only
/// move forward.
pub proof fn lemma_copy_kept(s: StoreView, t: StoreView, consumer_id: int, message_id: int)
    requires
        s.is_copy(consumer_id, message_id),
        s.consumers_wf(),
        t.messages == s.messages,
        t.consumers.len() == s.consumers.len(),
        forall|i: int|
            0 <= i < s.consumers.len() ==> {
                &&& (#[trigger] t.consumers[i]).id == s.consumers[i].id
                &&& t.consumers[i].filter == s.consumers[i].filter
                &&& t.consumers[i].scan_cursor >= s.consumers[i].scan_cursor
            },
    ensures
        t.is_copy(consumer_id, message_id),
{
    let i = s.consumer_index(consumer_id);
    let j = t.consumer_index(consumer_id);
    assert(s.consumers[i].id == consumer_id);
    assert(t.consumers[i].id == consumer_id);
    assert(t.consumers[j].id == consumer_id);
    assert(s.consumers[j].id == consumer_id);
    if i < j {
        assert(s.consumers[i].id < s.consumers[j].id);
    } else if j < i {
        assert(s.consumers[j].id < s.consumers[i].id);
    }
}

} // verus!
