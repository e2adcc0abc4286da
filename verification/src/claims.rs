//! What a claim leases, and where it leaves the consumer.
use vstd::prelude::*;

use crate::api::MessageView;
use crate::model::StoreView;
use crate::seqs;

verus! {

/// Where the retries of a claim come from.
pub proof fn lemma_retry_source(s: StoreView, id: int, now: int, max: nat, i: int) -> (a: int)
    requires
        0 <= i < s.retries(id, now, max).len(),
    ensures
        0 <= a < s.deliveries.len(),
        s.deliveries[a] == s.retries(id, now, max)[i],
        s.deliveries[a].consumer_id == id,
        s.deliveries[a].visible_at_ms <= now,
{
    seqs::lemma_filter_source(s.deliveries, s.retried(id, now, max), i)
}

/// Where the new deliveries of a claim come from.
pub proof fn lemma_fresh_source(s: StoreView, id: int, now: int, max: nat, i: int) -> (a: int)
    requires
        0 <= i < s.fresh(id, now, max).len(),
    ensures
        0 <= a < s.messages.len(),
        s.messages[a] == s.fresh(id, now, max)[i],
        s.consumer(id).wants(s.messages[a]),
{
    seqs::lemma_filter_source(s.messages, s.consumer(id).wanted(), i)
}

/// The new deliveries of a claim follow the order of the log.
pub proof fn lemma_fresh_sorted(s: StoreView, id: int, now: int, max: nat, i: int, j: int)
    requires
        s.messages_wf(),
        0 <= i < j < s.fresh(id, now, max).len(),
    ensures
        s.fresh(id, now, max)[i].id < s.fresh(id, now, max)[j].id,
{
    let (a, b) = seqs::lemma_filter_sources(s.messages, s.consumer(id).wanted(), i, j);
    assert(s.messages[a].id < s.messages[b].id);
}

/// The cursor moves forward over everything that is materialized, and never
/// past the end of what the consumer may scan.
pub proof fn lemma_advanced_cursor(s: StoreView, id: int, now: int, max: nat)
    requires
        s.wf(),
        s.has_consumer(id),
    ensures
        s.consumer(id).scan_cursor <= s.advanced_cursor(id, now, max),
        s.consumer(id).drain_cursor matches Some(limit) ==> s.advanced_cursor(id, now, max)
            <= limit,
        s.consistent() ==> s.advanced_cursor(id, now, max) <= s.last_message_id,
        forall|k: int|
            0 <= k < s.fresh(id, now, max).len() ==> s.consumer(id).scan_cursor
                < (#[trigger] s.fresh(id, now, max)[k]).id <= s.advanced_cursor(id, now, max),
        s.room(id, now, max) > 0 && s.fresh(id, now, max).len() < s.room(id, now, max)
            ==> s.advanced_cursor(id, now, max) >= s.scan_limit(s.consumer(id)),
{
    let consumer = s.consumer(id);
    let index = s.consumer_index(id);
    let fresh = s.fresh(id, now, max);
    let room = s.room(id, now, max);
    let cursor = s.advanced_cursor(id, now, max);
    assert(s.consumers[index].id == id);
    assert(s.consumer_wf(s.consumers[index]));
    if s.messages.len() > 0 {
        crate::invariants::lemma_high_water(s, 0);
    }
    if s.consistent() {
        assert(s.consumer_agrees(s.consumers[index]));
    }
    assert forall|k: int| 0 <= k < fresh.len() implies consumer.scan_cursor < (
    #[trigger] fresh[k]).id <= cursor by {
        let a = lemma_fresh_source(s, id, now, max, k);
        crate::invariants::lemma_high_water(s, a);
        assert(fresh[k].id <= s.scan_limit(consumer));
        if fresh.len() >= room && k < fresh.len() - 1 {
            lemma_fresh_sorted(s, id, now, max, k, fresh.len() - 1);
        }
    }
    if room > 0 && consumer.scan_cursor < s.scan_limit(consumer) && fresh.len() >= room {
        let a = lemma_fresh_source(s, id, now, max, fresh.len() - 1);
        crate::invariants::lemma_high_water(s, a);
        assert(fresh[fresh.len() - 1].id == fresh.last().id);
    }
}

/// Where nothing is visible a claim retries nothing.
pub proof fn lemma_nothing_retried(s: StoreView, id: int, now: int, max: nat)
    requires
        s.deliveries.filter(crate::model::visible(id, now)).len() == 0,
    ensures
        s.retries(id, now, max).len() == 0,
{
    if s.retries(id, now, max).len() > 0 {
        let a = lemma_retry_source(s, id, now, max, 0);
        assert(s.deliveries.contains(s.deliveries[a]));
        seqs::lemma_filter_member(
            s.deliveries,
            crate::model::visible(id, now),
            s.deliveries[a],
        );
    }
}

/// In a consistent log a claim finds no delivery in its way, and the message of
/// every delivery that it leases again.
pub proof fn lemma_claim_agrees(s: StoreView, id: int, now: int, max: nat)
    requires
        s.consistent(),
    ensures
        !s.collides(id, now, max),
        !s.dangles(id, now, max),
{
    let fresh = s.fresh(id, now, max);
    assert forall|k: int| 0 <= k < fresh.len() implies !s.is_materialized(
        id,
        (#[trigger] fresh[k]).id,
    ) by {
        let a = lemma_fresh_source(s, id, now, max, k);
        assert forall|i: int| 0 <= i < s.deliveries.len() implies {
            ||| #[trigger] s.deliveries[i].consumer_id != id
            ||| s.deliveries[i].message_id != fresh[k].id
        } by {
            assert(s.is_copy(s.deliveries[i].consumer_id, s.deliveries[i].message_id));
        }
    }
    assert forall|i: int| 0 <= i < s.retries(id, now, max).len() implies s.has_message(
        (#[trigger] s.retries(id, now, max)[i]).message_id,
    ) by {
        let a = lemma_retry_source(s, id, now, max, i);
        assert(s.is_copy(s.deliveries[a].consumer_id, s.deliveries[a].message_id));
    }
}

/// A consumer that stands at the end of what it may scan has nothing ahead.
pub proof fn lemma_nothing_ahead(s: StoreView, i: int)
    requires
        s.wf(),
        0 <= i < s.consumers.len(),
        s.consumers[i].scan_cursor >= s.scan_limit(s.consumers[i]),
    ensures
        s.messages.filter(s.consumers[i].wanted()) == Seq::<MessageView>::empty(),
{
    let consumer = s.consumers[i];
    assert(s.consumer_wf(consumer));
    assert forall|k: int| 0 <= k < s.messages.len() implies !consumer.wanted()(
        #[trigger] s.messages[k],
    ) by {
        crate::invariants::lemma_high_water(s, k);
    }
    seqs::lemma_filter_none(s.messages, consumer.wanted());
}

/// A delivery is visible at `now` exactly where the earliest one is.
pub proof fn lemma_earliest(s: StoreView, id: int, now: int, earliest: Option<int>)
    requires
        crate::model::is_least(earliest, s.visible_times(id)),
    ensures
        s.deliveries.filter(crate::model::visible(id, now)).len() > 0 <==> (earliest matches Some(
            time,
        ) && time <= now),
{
    let p = crate::model::belongs_to(id);
    let q = crate::model::visible(id, now);
    let times = s.visible_times(id);
    if s.deliveries.filter(q).len() > 0 {
        let a = seqs::lemma_filter_source(s.deliveries, q, 0);
        let row = s.deliveries[a];
        assert(s.deliveries.contains(row));
        seqs::lemma_filter_member(s.deliveries, p, row);
        let k = choose|k: int|
            0 <= k < s.deliveries.filter(p).len() && s.deliveries.filter(p)[k] == row;
        assert(times[k] == row.visible_at_ms);
    }
    if earliest matches Some(time) && time <= now {
        let k = choose|k: int| 0 <= k < times.len() && times[k] == earliest->Some_0;
        let a = seqs::lemma_filter_source(s.deliveries, p, k);
        let row = s.deliveries[a];
        assert(s.deliveries.contains(row));
        seqs::lemma_filter_member(s.deliveries, q, row);
    }
}

/// No message is leased twice by one claim.
pub proof fn lemma_leases_distinct(s: StoreView, id: int, now: int, max: nat, deadline: int)
    requires
        s.wf(),
        !s.collides(id, now, max),
    ensures
        forall|i: int, j: int|
            #![trigger s.leases(id, now, max, deadline)[i], s.leases(id, now, max, deadline)[j]]
            0 <= i < j < s.leases(id, now, max, deadline).len() ==> s.leases(
                id,
                now,
                max,
                deadline,
            )[i].message_id != s.leases(id, now, max, deadline)[j].message_id,
{
    let retries = s.retries(id, now, max);
    let fresh = s.fresh(id, now, max);
    let leases = s.leases(id, now, max, deadline);
    assert forall|i: int, j: int|
        #![trigger leases[i], leases[j]]
        0 <= i < j < leases.len() implies leases[i].message_id != leases[j].message_id by {
        if j < retries.len() {
            let (a, b) = seqs::lemma_filter_sources(
                s.deliveries,
                s.retried(id, now, max),
                i,
                j,
            );
            let a2 = lemma_retry_source(s, id, now, max, i);
            let b2 = lemma_retry_source(s, id, now, max, j);
            assert(s.deliveries[a].consumer_id != s.deliveries[b].consumer_id
                || s.deliveries[a].message_id != s.deliveries[b].message_id);
        } else if i < retries.len() {
            let a = lemma_retry_source(s, id, now, max, i);
            let k = j - retries.len();
            assert(!s.is_materialized(id, fresh[k].id));
            assert(s.deliveries[a].consumer_id == id);
            assert(leases[j].message_id == fresh[k].id);
        } else {
            lemma_fresh_sorted(s, id, now, max, i - retries.len(), j - retries.len());
        }
    }
}

/// A claim keeps the tables well-formed and a log consistent.
pub proof fn lemma_claimed_wf(s: StoreView, id: int, now: int, max: nat, deadline: int)
    requires
        s.wf(),
        s.has_consumer(id),
        !s.collides(id, now, max),
    ensures
        s.claimed(id, now, max, deadline).wf(),
        s.claimed(id, now, max, deadline).has_consumer(id),
        s.claimed(id, now, max, deadline).consumer_index(id) == s.consumer_index(id),
        s.consistent() ==> s.claimed(id, now, max, deadline).consistent(),
{
    let t = s.claimed(id, now, max, deadline);
    let fresh = s.fresh(id, now, max);
    let index = s.consumer_index(id);
    let old_len = s.deliveries.len() as int;
    assert(s.consumers[index].id == id);
    assert(s.consumer_wf(s.consumers[index]));
    lemma_advanced_cursor(s, id, now, max);
    crate::invariants::lemma_consumer(s, index);
    assert forall|i: int| 0 <= i < t.consumers.len() implies t.consumer_wf(
        #[trigger] t.consumers[i],
    ) by {
        assert(s.consumer_wf(s.consumers[i]));
    }
    assert forall|i: int, j: int| 0 <= i < j < t.consumers.len() implies #[trigger] t.consumers[i].id
        < #[trigger] t.consumers[j].id by {
        assert(s.consumers[i].id < s.consumers[j].id);
    }
    assert forall|i: int, j: int|
        0 <= i < j < t.consumers.len() implies #[trigger] t.consumers[i].name
        != #[trigger] t.consumers[j].name by {
        assert(s.consumers[i].name != s.consumers[j].name);
    }
    assert(t.consumers_wf());
    crate::invariants::lemma_consumer(t, index);
    assert(t.consumers[index].id == id);
    assert forall|i: int| 0 <= i < t.deliveries.len() implies {
        let row = #[trigger] t.deliveries[i];
        &&& 0 <= row.generation
        &&& 0 <= row.delivery_count
    } by {
        if i < old_len {
            assert(s.deliveries[i].generation >= 0);
        }
    }
    assert forall|i: int, j: int| 0 <= i < j < t.deliveries.len() implies {
        ||| #[trigger] t.deliveries[i].consumer_id != #[trigger] t.deliveries[j].consumer_id
        ||| t.deliveries[i].message_id != t.deliveries[j].message_id
    } by {
        if j < old_len {
            assert(s.deliveries[i].consumer_id != s.deliveries[j].consumer_id
                || s.deliveries[i].message_id != s.deliveries[j].message_id);
        } else if i < old_len {
            let k = j - old_len;
            assert(!s.is_materialized(id, fresh[k].id));
            assert(s.deliveries[i].consumer_id != id || s.deliveries[i].message_id != fresh[k].id);
            assert(t.deliveries[j].message_id == fresh[k].id);
        } else {
            lemma_fresh_sorted(s, id, now, max, i - old_len, j - old_len);
        }
    }
    assert(t.wf());
    if s.consistent() {
        lemma_claimed_agrees(s, id, now, max, deadline);
    }
}

proof fn lemma_claimed_agrees(s: StoreView, id: int, now: int, max: nat, deadline: int)
    requires
        s.consistent(),
        s.has_consumer(id),
        s.claimed(id, now, max, deadline).wf(),
    ensures
        s.claimed(id, now, max, deadline).consistent(),
{
    let t = s.claimed(id, now, max, deadline);
    let fresh = s.fresh(id, now, max);
    let index = s.consumer_index(id);
    let old_len = s.deliveries.len() as int;
    assert(s.consumers[index].id == id);
    lemma_advanced_cursor(s, id, now, max);
    crate::invariants::lemma_consumer(s, index);
    assert(t.consumers[index].id == id);
    crate::invariants::lemma_consumer(t, index);
    assert forall|i: int| 0 <= i < t.consumers.len() implies t.consumer_agrees(
        #[trigger] t.consumers[i],
    ) by {
        assert(s.consumer_agrees(s.consumers[i]));
    }
    crate::invariants::lemma_moved_copies(s, t);
    assert forall|i: int| 0 <= i < t.deliveries.len() implies {
        let row = #[trigger] t.deliveries[i];
        t.is_copy(row.consumer_id, row.message_id)
    } by {
        if i < old_len {
            let row = s.deliveries[i];
            assert(t.is_copy(row.consumer_id, row.message_id));
        } else {
            let k = i - old_len;
            let a = lemma_fresh_source(s, id, now, max, k);
            assert(t.deliveries[i].message_id == fresh[k].id);
            crate::invariants::lemma_message(s, a);
            assert(t.messages == s.messages);
            crate::invariants::lemma_message(t, a);
            assert(t.consumer(id) == t.consumers[index]);
        }
    }
    assert forall|i: int| 0 <= i < t.archives.len() implies {
        let row = #[trigger] t.archives[i];
        t.is_copy(row.consumer_id, row.message_id)
    } by {
        assert(t.archives[i] == s.archives[i]);
    }
    assert forall|i: int, j: int|
        0 <= i < t.archives.len() && 0 <= j < t.deliveries.len() implies {
            ||| #[trigger] t.archives[i].consumer_id != #[trigger] t.deliveries[j].consumer_id
            ||| t.archives[i].message_id != t.deliveries[j].message_id
        } by {
        let row = s.archives[i];
        assert(s.is_copy(row.consumer_id, row.message_id));
        if j < old_len {
            assert(s.archives[i].consumer_id != s.deliveries[j].consumer_id
                || s.archives[i].message_id != s.deliveries[j].message_id);
        } else {
            assert(t.deliveries[j].message_id == fresh[j - old_len].id);
        }
    }
    assert(t.ledger_agrees()) by {
        assert(s.ledger_agrees());
    }
}

} // verus!
