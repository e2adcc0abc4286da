//! Claiming: what a poll hands out, and what it leaves behind.
use vstd::prelude::*;

use crate::api::MessageView;
use crate::consumer::{Claim, PollStep};
use crate::model::StoreView;
use crate::seqs;
use crate::tables::DeliveryRowView;

verus! {

/// Whether the consumer at position `i` has the same outstanding messages in two
/// logs with the same messages.
pub open spec fn same_inbox(s: StoreView, t: StoreView, i: int) -> bool {
    forall|k: int|
        0 <= k < s.messages.len() ==> t.is_outstanding(
            t.consumers[i],
            #[trigger] s.messages[k],
        ) == s.is_outstanding(s.consumers[i], s.messages[k])
}

/// What a claim has materialized: what was materialized before, and what it took
/// from the log.
proof fn lemma_claimed_materialized(
    s: StoreView,
    id: int,
    now: int,
    max: nat,
    deadline: int,
    consumer_id: int,
    message: MessageView,
)
    requires
        s.wf(),
        s.has_consumer(id),
        s.messages.contains(message),
    ensures
        s.claimed(id, now, max, deadline).is_materialized(consumer_id, message.id) <==> {
            ||| s.is_materialized(consumer_id, message.id)
            ||| consumer_id == id && s.fresh(id, now, max).contains(message)
        },
{
    let t = s.claimed(id, now, max, deadline);
    let fresh = s.fresh(id, now, max);
    let n = s.deliveries.len() as int;
    if s.is_materialized(consumer_id, message.id) {
        let a = choose|a: int|
            0 <= a < n && #[trigger] s.deliveries[a].consumer_id == consumer_id
                && s.deliveries[a].message_id == message.id;
        assert(t.deliveries[a].consumer_id == consumer_id);
    }
    if consumer_id == id && fresh.contains(message) {
        let k = choose|k: int| 0 <= k < fresh.len() && fresh[k] == message;
        assert(t.deliveries[n + k].consumer_id == id);
    }
    if t.is_materialized(consumer_id, message.id) {
        let a = choose|a: int|
            0 <= a < t.deliveries.len() && #[trigger] t.deliveries[a].consumer_id == consumer_id
                && t.deliveries[a].message_id == message.id;
        if a < n {
            assert(s.deliveries[a].consumer_id == consumer_id);
        } else {
            let k = a - n;
            let b = crate::claims::lemma_fresh_source(s, id, now, max, k);
            let c = choose|c: int| 0 <= c < s.messages.len() && s.messages[c] == message;
            assert(t.deliveries[a].message_id == fresh[k].id);
            crate::invariants::lemma_message(s, b);
            crate::invariants::lemma_message(s, c);
            assert(fresh[k] == message);
        }
    }
}

/// A message that is still ahead is either taken by the claim or still ahead
/// afterwards.
proof fn lemma_taken_or_ahead(s: StoreView, id: int, now: int, max: nat, k: int)
    requires
        s.wf(),
        s.has_consumer(id),
        0 <= k < s.messages.len(),
        s.consumer(id).wants(s.messages[k]),
    ensures
        s.fresh(id, now, max).contains(s.messages[k]) || s.messages[k].id > s.advanced_cursor(
            id,
            now,
            max,
        ),
{
    let consumer = s.consumer(id);
    let p = consumer.wanted();
    let message = s.messages[k];
    let ahead = s.messages.filter(p);
    let fresh = s.fresh(id, now, max);
    let room = s.room(id, now, max);
    crate::invariants::lemma_high_water(s, k);
    assert(s.messages.contains(message));
    seqs::lemma_filter_member(s.messages, p, message);
    let j = choose|j: int| 0 <= j < ahead.len() && ahead[j] == message;
    if ahead.len() <= room {
        assert(fresh[j] == message);
    } else if j < room {
        assert(fresh[j] == message);
    } else if room > 0 {
        let (a, b) = seqs::lemma_filter_sources(s.messages, p, room - 1, j);
        assert(s.messages[a].id < s.messages[b].id);
        assert(fresh.last() == ahead[room - 1]);
    }
}

/// A claim moves as many copies among the deliveries as it takes from the log.
proof fn lemma_claimed_size(s: StoreView, id: int, now: int, max: nat, deadline: int, i: int)
    requires
        s.wf(),
        s.has_consumer(id),
        0 <= i < s.consumers.len(),
    ensures
        ({
            let t = s.claimed(id, now, max, deadline);
            t.outstanding(t.consumers[i]) == s.outstanding(s.consumers[i])
        }),
{
    let t = s.claimed(id, now, max, deadline);
    let before = s.consumers[i];
    let after = t.consumers[i];
    let fresh = s.fresh(id, now, max);
    let rows = fresh.map_values(
        |message: MessageView| crate::model::first_delivery(id, message, deadline),
    );
    let n = s.deliveries.len() as int;
    let index = s.consumer_index(id);
    let p = crate::model::belongs_to(before.id);
    assert(s.consumers[index].id == id);
    crate::claims::lemma_advanced_cursor(s, id, now, max);
    // The deliveries: those that were there, and the new ones.
    let kept = t.deliveries.take(n);
    assert(t.deliveries =~= kept + rows);
    Seq::filter_distributes_over_add(kept, rows, p);
    assert forall|a: int| 0 <= a < n implies p(#[trigger] kept[a]) == p(s.deliveries[a]) by {
        assert(kept[a] == t.deliveries[a]);
    }
    seqs::lemma_filter_alike(kept, s.deliveries, p);
    if i == index {
        assert forall|k: int| 0 <= k < rows.len() implies p(#[trigger] rows[k]) by {}
        seqs::lemma_filter_all(rows, p);
        // The messages ahead: without those that were taken.
        assert forall|k: int| 0 <= k < rows.len() implies s.has_message(
            #[trigger] rows[k].message_id,
        ) by {
            let a = crate::claims::lemma_fresh_source(s, id, now, max, k);
            assert(s.messages[a].id == rows[k].message_id);
        }
        assert forall|j: int, k: int| 0 <= j < k < rows.len() implies #[trigger] rows[j].message_id
            != #[trigger] rows[k].message_id by {
            crate::claims::lemma_fresh_sorted(s, id, now, max, j, k);
        }
        crate::counting::lemma_rows_and_messages(s, rows);
        let taken = crate::counting::in_rows(rows);
        assert forall|k: int| 0 <= k < s.messages.len() implies {
            &&& before.wanted()(#[trigger] s.messages[k]) == (taken(s.messages[k])
                || after.wanted()(s.messages[k]))
            &&& !(taken(s.messages[k]) && after.wanted()(s.messages[k]))
        } by {
            let message = s.messages[k];
            if before.wants(message) {
                lemma_taken_or_ahead(s, id, now, max, k);
                if fresh.contains(message) {
                    let j = choose|j: int| 0 <= j < fresh.len() && fresh[j] == message;
                    assert(rows[j].message_id == message.id);
                }
            }
            if taken(message) {
                let j = choose|j: int|
                    0 <= j < rows.len() && #[trigger] rows[j].message_id == message.id;
                let a = crate::claims::lemma_fresh_source(s, id, now, max, j);
                crate::invariants::lemma_message(s, a);
                crate::invariants::lemma_message(s, k);
                assert(fresh[j] == message);
            }
        }
        crate::counting::lemma_filter_disjoint(
            s.messages,
            before.wanted(),
            taken,
            after.wanted(),
        );
    } else {
        if i < index {
            assert(s.consumers[i].id < s.consumers[index].id);
        } else {
            assert(s.consumers[index].id < s.consumers[i].id);
        }
        assert forall|k: int| 0 <= k < rows.len() implies !p(#[trigger] rows[k]) by {}
        seqs::lemma_filter_none(rows, p);
    }
}

/// A claim loses no message and invents none: every consumer has the same
/// outstanding messages before and after.
pub proof fn law_claim_loses_nothing(s: StoreView, id: int, now: int, max: nat, deadline: int)
    requires
        s.wf(),
        s.has_consumer(id),
    ensures
        ({
            let t = s.claimed(id, now, max, deadline);
            &&& t.messages == s.messages
            &&& t.consumers.len() == s.consumers.len()
            &&& forall|i: int|
                #![trigger t.consumers[i]]
                0 <= i < s.consumers.len() ==> {
                    &&& t.consumers[i].id == s.consumers[i].id
                    &&& same_inbox(s, t, i)
                    &&& t.outstanding(t.consumers[i]) == s.outstanding(s.consumers[i])
                }
        }),
{
    let t = s.claimed(id, now, max, deadline);
    let index = s.consumer_index(id);
    assert(s.consumers[index].id == id);
    crate::claims::lemma_advanced_cursor(s, id, now, max);
    assert forall|i: int|
        #![trigger t.consumers[i]]
        0 <= i < s.consumers.len() implies {
        &&& t.consumers[i].id == s.consumers[i].id
        &&& same_inbox(s, t, i)
        &&& t.outstanding(t.consumers[i]) == s.outstanding(s.consumers[i])
    } by {
        let before = s.consumers[i];
        let after = t.consumers[i];
        crate::invariants::lemma_consumer(s, i);
        assert forall|k: int| 0 <= k < s.messages.len() implies t.is_outstanding(
            after,
            #[trigger] s.messages[k],
        ) == s.is_outstanding(before, s.messages[k]) by {
            let message = s.messages[k];
            assert(s.messages.contains(message));
            lemma_claimed_materialized(s, id, now, max, deadline, before.id, message);
            if i == index {
                if before.wants(message) {
                    lemma_taken_or_ahead(s, id, now, max, k);
                }
                if s.fresh(id, now, max).contains(message) {
                    let fresh = s.fresh(id, now, max);
                    let j = choose|j: int| 0 <= j < fresh.len() && fresh[j] == message;
                    let a = crate::claims::lemma_fresh_source(s, id, now, max, j);
                }
            } else {
                if i < index {
                    assert(s.consumers[i].id < s.consumers[index].id);
                } else {
                    assert(s.consumers[index].id < s.consumers[i].id);
                }
            }
        }
        lemma_claimed_size(s, id, now, max, deadline, i);
    }
}

/// Everything that a claim leases is a retained message.
proof fn lemma_leases_retained(s: StoreView, id: int, now: int, max: nat, deadline: int)
    requires
        !s.dangles(id, now, max),
    ensures
        forall|i: int|
            0 <= i < s.leases(id, now, max, deadline).len() ==> s.has_message(
                #[trigger] s.leases(id, now, max, deadline)[i].message_id,
            ),
{
    let leases = s.leases(id, now, max, deadline);
    let retries = s.retries(id, now, max);
    assert forall|i: int| 0 <= i < leases.len() implies s.has_message(
        #[trigger] leases[i].message_id,
    ) by {
        if i < retries.len() {
            assert(s.has_message(retries[i].message_id));
            assert(leases[i].message_id == retries[i].message_id);
        } else {
            let a = crate::claims::lemma_fresh_source(s, id, now, max, i - retries.len());
            assert(s.messages[a].id == leases[i].message_id);
        }
    }
}

/// A claim that succeeds hands out everything that is ready, up to its limit: no
/// more, and no less.
pub proof fn law_claim_takes_what_is_ready(
    s: StoreView,
    id: int,
    now: int,
    max: nat,
    deadline: int,
)
    requires
        s.wf(),
        s.has_consumer(id),
        !s.collides(id, now, max),
        !s.dangles(id, now, max),
    ensures
        s.claimed_deliveries(id, now, max, deadline).len() == if max < s.ready(
            s.consumer(id),
            now,
        ) {
            max
        } else {
            s.ready(s.consumer(id), now)
        },
{
    let leases = s.leases(id, now, max, deadline);
    let index = s.consumer_index(id);
    assert(s.consumers[index].id == id);
    lemma_leases_retained(s, id, now, max, deadline);
    crate::claims::lemma_leases_distinct(s, id, now, max, deadline);
    crate::counting::lemma_rows_and_messages(s, leases);
    assert forall|k: int| 0 <= k < s.messages.len() implies crate::model::leased_in(leases)(
        #[trigger] s.messages[k],
    ) == crate::counting::in_rows(leases)(s.messages[k]) by {}
    seqs::lemma_filter_same(
        s.messages,
        crate::model::leased_in(leases),
        crate::counting::in_rows(leases),
    );
    crate::counting::lemma_retries(s, id, now, max);
}

/// A poll that looks idle has nothing ready.
pub proof fn law_idle_means_nothing_ready(s: StoreView, id: int, now: int)
    requires
        s.wf(),
        s.has_consumer(id),
        s.idle(id, now),
    ensures
        s.ready(s.consumer(id), now) == 0,
{
    let index = s.consumer_index(id);
    assert(s.consumers[index].id == id);
    crate::claims::lemma_nothing_ahead(s, index);
}

/// What a claim hands out was outstanding, comes in the order of the log, and
/// carries the receipt of a row that is now hidden until the deadline.
pub proof fn law_claim_hands_out_leases(s: StoreView, id: int, now: int, max: nat, deadline: int)
    requires
        s.wf(),
        s.has_consumer(id),
    ensures
        ({
            let t = s.claimed(id, now, max, deadline);
            let deliveries = s.claimed_deliveries(id, now, max, deadline);
            &&& forall|j: int|
                0 <= j < deliveries.len() ==> {
                    let delivery = #[trigger] deliveries[j];
                    &&& s.messages.contains(delivery.message)
                    &&& s.is_outstanding(s.consumer(id), delivery.message)
                    &&& t.deliveries.contains(
                        DeliveryRowView {
                            consumer_id: id,
                            message_id: delivery.message.id,
                            visible_at_ms: deadline,
                            generation: delivery.receipt.generation,
                            delivery_count: delivery.delivery_count,
                        },
                    )
                    &&& delivery.receipt.consumer_id == id
                    &&& delivery.receipt.message_id == delivery.message.id
                }
            &&& forall|j: int, k: int|
                0 <= j < k < deliveries.len() ==> (#[trigger] deliveries[j]).message.id < (
                #[trigger] deliveries[k]).message.id
        }),
{
    let t = s.claimed(id, now, max, deadline);
    let leases = s.leases(id, now, max, deadline);
    let retries = s.retries(id, now, max);
    let fresh = s.fresh(id, now, max);
    let p = crate::model::leased_in(leases);
    let deliveries = s.claimed_deliveries(id, now, max, deadline);
    let n = s.deliveries.len() as int;
    let index = s.consumer_index(id);
    assert(s.consumers[index].id == id);
    assert forall|j: int| 0 <= j < deliveries.len() implies {
        let delivery = #[trigger] deliveries[j];
        &&& s.messages.contains(delivery.message)
        &&& s.is_outstanding(s.consumer(id), delivery.message)
        &&& t.deliveries.contains(
            DeliveryRowView {
                consumer_id: id,
                message_id: delivery.message.id,
                visible_at_ms: deadline,
                generation: delivery.receipt.generation,
                delivery_count: delivery.delivery_count,
            },
        )
        &&& delivery.receipt.consumer_id == id
        &&& delivery.receipt.message_id == delivery.message.id
    } by {
        let delivery = deliveries[j];
        let a = seqs::lemma_filter_source(s.messages, p, j);
        let message = s.messages[a];
        assert(delivery == crate::model::handed_out(leases, message));
        let i = choose|i: int|
            0 <= i < leases.len() && #[trigger] leases[i].message_id == message.id;
        if i < retries.len() {
            let b = crate::claims::lemma_retry_source(s, id, now, max, i);
            assert(leases[i] == retries[i].leased(deadline));
            assert(s.deliveries[b].consumer_id == id);
            assert(s.is_materialized(id, message.id));
            let c = seqs::lemma_filter_source(s.deliveries, s.retried(id, now, max), i);
            assert(t.deliveries[c] == leases[i]);
        } else {
            let k = i - retries.len();
            let b = crate::claims::lemma_fresh_source(s, id, now, max, k);
            crate::invariants::lemma_message(s, a);
            crate::invariants::lemma_message(s, b);
            assert(s.messages[b] == message);
            assert(leases[i] == crate::model::first_delivery(id, fresh[k], deadline));
            assert(t.deliveries[n + k] == leases[i]);
        }
    }
    assert forall|j: int, k: int| 0 <= j < k < deliveries.len() implies (
    #[trigger] deliveries[j]).message.id < (#[trigger] deliveries[k]).message.id by {
        let (a, b) = seqs::lemma_filter_sources(s.messages, p, j, k);
        assert(deliveries[j] == crate::model::handed_out(leases, s.messages[a]));
        assert(deliveries[k] == crate::model::handed_out(leases, s.messages[b]));
        assert(s.messages[a].id < s.messages[b].id);
    }
}

/// A delivery that is hidden stays as it is through a claim, and its message is
/// not handed out: a lease that runs is nobody else's.
pub proof fn law_hidden_deliveries_stay(
    s: StoreView,
    id: int,
    now: int,
    max: nat,
    deadline: int,
    a: int,
)
    requires
        s.wf(),
        !s.collides(id, now, max),
        0 <= a < s.deliveries.len(),
        s.deliveries[a].consumer_id == id,
        s.deliveries[a].visible_at_ms > now,
    ensures
        s.claimed(id, now, max, deadline).deliveries[a] == s.deliveries[a],
        forall|j: int|
            0 <= j < s.claimed_deliveries(id, now, max, deadline).len() ==> (
            #[trigger] s.claimed_deliveries(id, now, max, deadline)[j]).message.id
                != s.deliveries[a].message_id,
{
    let deliveries = s.claimed_deliveries(id, now, max, deadline);
    let row = s.deliveries[a];
    let fresh = s.fresh(id, now, max);
    assert forall|j: int| 0 <= j < deliveries.len() implies (#[trigger] deliveries[j]).message.id
        != row.message_id by {
        lemma_handed_out_source(s, id, now, max, deadline, j);
        if fresh.contains(deliveries[j].message) {
            let k = choose|k: int| 0 <= k < fresh.len() && fresh[k] == deliveries[j].message;
            assert(!s.is_materialized(id, fresh[k].id));
            assert(s.deliveries[a].consumer_id == id);
        } else if deliveries[j].message.id == row.message_id {
            let b = choose|b: int|
                0 <= b < s.deliveries.len() && crate::model::visible(id, now)(
                    #[trigger] s.deliveries[b],
                ) && s.deliveries[b].message_id == deliveries[j].message.id;
            if a < b {
                assert(s.deliveries[a].consumer_id != s.deliveries[b].consumer_id
                    || s.deliveries[a].message_id != s.deliveries[b].message_id);
            } else {
                assert(s.deliveries[b].consumer_id != s.deliveries[a].consumer_id
                    || s.deliveries[b].message_id != s.deliveries[a].message_id);
            }
        }
    }
}

/// What a claim hands out is one of the first messages ahead of the consumer, or
/// a delivery that was visible.
pub proof fn lemma_handed_out_source(
    s: StoreView,
    id: int,
    now: int,
    max: nat,
    deadline: int,
    j: int,
)
    requires
        s.wf(),
        0 <= j < s.claimed_deliveries(id, now, max, deadline).len(),
    ensures
        ({
            let message = s.claimed_deliveries(id, now, max, deadline)[j].message;
            ||| s.fresh(id, now, max).contains(message) && s.consumer(id).wants(message)
            ||| exists|b: int|
                0 <= b < s.deliveries.len() && crate::model::visible(id, now)(
                    #[trigger] s.deliveries[b],
                ) && s.deliveries[b].message_id == message.id
        }),
{
    let leases = s.leases(id, now, max, deadline);
    let retries = s.retries(id, now, max);
    let a = seqs::lemma_filter_source(s.messages, crate::model::leased_in(leases), j);
    let message = s.messages[a];
    let i = choose|i: int|
        0 <= i < leases.len() && #[trigger] leases[i].message_id == message.id;
    if i < retries.len() {
        let b = crate::claims::lemma_retry_source(s, id, now, max, i);
        assert(crate::model::visible(id, now)(s.deliveries[b]));
    } else {
        let b = crate::claims::lemma_fresh_source(s, id, now, max, i - retries.len());
        crate::invariants::lemma_message(s, a);
        crate::invariants::lemma_message(s, b);
        assert(leases[i].message_id == s.messages[b].id);
        assert(s.messages[b] == message);
        assert(s.fresh(id, now, max)[i - retries.len()] == message);
    }
}

/// Delivery is at least once: a delivery that is still there is ready from the
/// time on at which it is visible, and a claim with enough room for what is
/// visible hands it out again, unless it finds that a message is gone.
pub proof fn law_visible_deliveries_are_ready(
    s: StoreView,
    a: int,
    now: int,
    max: nat,
    deadline: int,
)
    requires
        s.wf(),
        0 <= a < s.deliveries.len(),
        s.has_consumer(s.deliveries[a].consumer_id),
        s.deliveries[a].visible_at_ms <= now,
    ensures
        ({
            let id = s.deliveries[a].consumer_id;
            let deliveries = s.claimed_deliveries(id, now, max, deadline);
            &&& s.ready(s.consumer(id), now) > 0
            &&& !s.idle(id, now)
            &&& s.deliveries.filter(crate::model::visible(id, now)).len() <= max && !s.dangles(
                id,
                now,
                max,
            ) ==> exists|j: int|
                0 <= j < deliveries.len() && (#[trigger] deliveries[j]).message.id
                    == s.deliveries[a].message_id
        }),
{
    let row = s.deliveries[a];
    let id = row.consumer_id;
    let p = crate::model::visible(id, now);
    let rows = s.deliveries.filter(p);
    let deliveries = s.claimed_deliveries(id, now, max, deadline);
    let index = s.consumer_index(id);
    assert(s.consumers[index].id == id);
    assert(p(row));
    assert(s.deliveries.contains(row));
    seqs::lemma_filter_member(s.deliveries, p, row);
    let k = choose|k: int| 0 <= k < rows.len() && rows[k] == row;
    if rows.len() <= max && !s.dangles(id, now, max) {
        let leases = s.leases(id, now, max, deadline);
        let retries = s.retries(id, now, max);
        // The row itself is not before itself, so its place is below the limit.
        crate::counting::lemma_filter_len_remove(rows, k, crate::model::ahead_of(row));
        Seq::lemma_filter_len(rows.remove(k), crate::model::ahead_of(row));
        assert(s.retried(id, now, max)(row));
        seqs::lemma_filter_member(s.deliveries, s.retried(id, now, max), row);
        let i = choose|i: int| 0 <= i < retries.len() && retries[i] == row;
        assert(leases[i] == row.leased(deadline));
        assert(s.has_message(retries[i].message_id));
        let m = choose|m: int|
            0 <= m < s.messages.len() && #[trigger] s.messages[m].id == row.message_id;
        let message = s.messages[m];
        let q = crate::model::leased_in(leases);
        assert(leases[i].message_id == message.id);
        assert(s.messages.contains(message));
        seqs::lemma_filter_member(s.messages, q, message);
        let j = choose|j: int|
            0 <= j < s.messages.filter(q).len() && s.messages.filter(q)[j] == message;
        assert(deliveries[j] == crate::model::handed_out(leases, message));
        assert(deliveries[j].message.id == row.message_id);
    }
}

/// Retries are preferred to new messages: where a claim takes anything new, it has
/// leased every visible delivery.
pub proof fn law_retries_come_first(s: StoreView, id: int, now: int, max: nat)
    requires
        s.wf(),
        s.has_consumer(id),
        s.fresh(id, now, max).len() > 0,
    ensures
        s.retries(id, now, max) == s.deliveries.filter(crate::model::visible(id, now)),
{
    let p = crate::model::visible(id, now);
    let q = s.retried(id, now, max);
    crate::counting::lemma_retries(s, id, now, max);
    let rows = s.deliveries.filter(p);
    assert(rows.len() < max);
    assert forall|i: int| 0 <= i < s.deliveries.len() implies p(#[trigger] s.deliveries[i]) == q(
        s.deliveries[i],
    ) by {
        Seq::lemma_filter_len(rows, crate::model::ahead_of(s.deliveries[i]));
    }
    seqs::lemma_filter_same(s.deliveries, p, q);
}

/// Among the visible deliveries, those that became visible first are retried
/// first: none is passed over in favour of a later one.
pub proof fn law_oldest_retries_first(s: StoreView, id: int, now: int, max: nat, i: int, j: int)
    requires
        0 <= i < s.deliveries.len(),
        0 <= j < s.deliveries.len(),
        crate::model::visible(id, now)(s.deliveries[i]),
        crate::model::ahead_of(s.deliveries[j])(s.deliveries[i]),
        s.retried(id, now, max)(s.deliveries[j]),
    ensures
        s.retried(id, now, max)(s.deliveries[i]),
{
    let p = crate::model::visible(id, now);
    let rows = s.deliveries.filter(p);
    assert(s.deliveries.contains(s.deliveries[i]));
    seqs::lemma_filter_member(s.deliveries, p, s.deliveries[i]);
    crate::counting::lemma_place_order(rows, s.deliveries[i], s.deliveries[j]);
}

/// The cursor only moves forward, over nothing that the consumer is still owed;
/// and where the claim found less than it could take, it has passed over
/// everything there was to scan.
pub proof fn law_cursor_advances(s: StoreView, id: int, now: int, max: nat)
    requires
        s.wf(),
        s.has_consumer(id),
    ensures
        s.consumer(id).scan_cursor <= s.advanced_cursor(id, now, max),
        forall|k: int|
            0 <= k < s.messages.len() && s.consumer(id).wants(#[trigger] s.messages[k])
                && s.messages[k].id <= s.advanced_cursor(id, now, max) ==> s.fresh(
                id,
                now,
                max,
            ).contains(s.messages[k]),
        s.fresh(id, now, max).len() < s.room(id, now, max) ==> s.advanced_cursor(id, now, max)
            >= s.scan_limit(s.consumer(id)),
{
    crate::claims::lemma_advanced_cursor(s, id, now, max);
    assert forall|k: int|
        0 <= k < s.messages.len() && s.consumer(id).wants(#[trigger] s.messages[k])
            && s.messages[k].id <= s.advanced_cursor(id, now, max) implies s.fresh(
        id,
        now,
        max,
    ).contains(s.messages[k]) by {
        lemma_taken_or_ahead(s, id, now, max, k);
    }
}

/// A poll that has to wait sleeps no longer than it may wait, than the interval
/// at which other processes are noticed, and than the next delivery is hidden.
pub proof fn law_sleep_is_bounded(
    s: StoreView,
    next_visible_at: Option<int>,
    remaining_nanos: nat,
    now: int,
)
    ensures
        s.sleep_nanos(next_visible_at, remaining_nanos, now) <= remaining_nanos,
        s.sleep_nanos(next_visible_at, remaining_nanos, now) <= s.poll_interval_nanos,
        next_visible_at matches Some(time) ==> {
            ||| s.sleep_nanos(next_visible_at, remaining_nanos, now) == 0
            ||| s.sleep_nanos(next_visible_at, remaining_nanos, now) <= (time - now) * 1_000_000
        },
{
}

/// A drained consumer does not long-poll: where a draining consumer has nothing
/// outstanding, a poll is over at once, empty-handed.
pub proof fn law_drained_polls_end(
    s: StoreView,
    t: StoreView,
    id: int,
    now: int,
    max: nat,
    lease_ms: int,
    claim: Claim,
    step: PollStep,
)
    requires
        s.wf(),
        s.has_consumer(id),
        s.consumer(id).draining_at_ms is Some,
        s.outstanding(s.consumer(id)) == 0,
        max > 0,
        claim.describes(s, t, id, now, max, lease_ms),
        step.follows(claim),
    ensures
        step matches PollStep::Return(deliveries) && deliveries@.len() == 0,
{
    let deadline = now + lease_ms;
    let index = s.consumer_index(id);
    let mine = crate::model::belongs_to(id);
    assert(s.consumers[index].id == id);
    assert(s.deliveries.filter(mine).len() == 0);
    if s.idle(id, now) {
        assert(s.visible_times(id).len() == 0);
    } else {
        let after = s.claimed(id, now, max, deadline);
        seqs::lemma_filter_weaker(s.deliveries, crate::model::visible(id, now), mine);
        crate::claims::lemma_nothing_retried(s, id, now, max);
        assert(s.fresh(id, now, max).len() == 0);
        crate::claims::lemma_claimed_wf(s, id, now, max, deadline);
        crate::claims::lemma_advanced_cursor(s, id, now, max);
        law_claim_takes_what_is_ready(s, id, now, max, deadline);
        assert(claim.deliveries@.len() == crate::seqs::views(claim.deliveries@).len());
        assert(after.consumers[index].id == id);
        assert forall|a: int| 0 <= a < s.deliveries.len() implies !s.retried(id, now, max)(
            #[trigger] s.deliveries[a],
        ) by {
            assert(s.deliveries.contains(s.deliveries[a]));
            seqs::lemma_filter_member(s.deliveries, mine, s.deliveries[a]);
        }
        assert(after.deliveries =~= s.deliveries);
        assert(after.visible_times(id).len() == 0);
    }
}

} // verus!
