//! Receiving: what a claim and a poll hand out and leave behind, in terms of
//! their arguments and of the rows before and after.
use vstd::prelude::*;

use crate::api::{DeliveryView, Poll};
use crate::consumer::{Claim, Consumer, PollStep};
use crate::error::Error;
use crate::model::StoreView;
use crate::seqs;
use crate::storage::LiteFan;
use crate::tables::DeliveryRowView;

verus! {

/// An idle claim is a claim like any other: it finds nothing and changes nothing.
pub proof fn lemma_idle_claim(s: StoreView, id: int, now: int, max: nat, deadline: int)
    requires
        s.wf(),
        s.has_consumer(id),
        s.idle(id, now),
    ensures
        s.claimed(id, now, max, deadline) == s,
        s.claimed_deliveries(id, now, max, deadline) == Seq::<DeliveryView>::empty(),
        !s.collides(id, now, max),
{
    let index = s.consumer_index(id);
    let t = s.claimed(id, now, max, deadline);
    let leases = s.leases(id, now, max, deadline);
    assert(s.consumers[index].id == id);
    crate::claims::lemma_nothing_ahead(s, index);
    crate::claims::lemma_nothing_retried(s, id, now, max);
    assert forall|a: int| 0 <= a < s.deliveries.len() implies !s.retried(id, now, max)(
        #[trigger] s.deliveries[a],
    ) by {
        if s.retried(id, now, max)(s.deliveries[a]) {
            assert(s.deliveries.contains(s.deliveries[a]));
            seqs::lemma_filter_member(
                s.deliveries,
                crate::model::visible(id, now),
                s.deliveries[a],
            );
        }
    }
    assert(t.deliveries =~= s.deliveries);
    assert(t.consumers =~= s.consumers);
    assert(t =~= s);
    assert(leases.len() == 0);
    assert forall|k: int| 0 <= k < s.messages.len() implies !crate::model::leased_in(leases)(
        #[trigger] s.messages[k],
    ) by {}
    seqs::lemma_filter_none(s.messages, crate::model::leased_in(leases));
    assert(s.claimed_deliveries(id, now, max, deadline) =~= Seq::<DeliveryView>::empty());
}

/// What a successful claim comes down to.
proof fn lemma_claim_result(
    consumer: &Consumer,
    fan: &mut LiteFan,
    max_messages: usize,
    lease_ms: i64,
    now: i64,
    claim: Claim,
)
    requires
        old(fan)@.wf(),
        call_ensures(
            Consumer::claim,
            (consumer, fan, max_messages, lease_ms, Ok(now)),
            Ok::<Claim, Error>(claim),
        ),
    ensures
        old(fan)@.has_consumer(consumer@.id),
        !old(fan)@.collides(consumer@.id, now as int, max_messages as nat),
        !old(fan)@.dangles(consumer@.id, now as int, max_messages as nat),
        final(fan)@ == old(fan)@.claimed(
            consumer@.id,
            now as int,
            max_messages as nat,
            now + lease_ms,
        ),
        seqs::views(claim.deliveries@) == old(fan)@.claimed_deliveries(
            consumer@.id,
            now as int,
            max_messages as nat,
            now + lease_ms,
        ),
{
    let s = old(fan)@;
    if s.idle(consumer@.id, now as int) {
        lemma_idle_claim(s, consumer@.id, now as int, max_messages as nat, now + lease_ms);
        assert(seqs::views(claim.deliveries@) =~= Seq::<DeliveryView>::empty());
    }
}

/// Where a handed-out delivery comes from: a visible row with the same message, or
/// a message that is taken from the log.
pub proof fn lemma_handed_out(s: StoreView, id: int, now: int, max: nat, deadline: int, j: int) -> (i: int)
    requires
        s.wf(),
        !s.collides(id, now, max),
        0 <= j < s.claimed_deliveries(id, now, max, deadline).len(),
    ensures
        ({
            let delivery = s.claimed_deliveries(id, now, max, deadline)[j];
            let leases = s.leases(id, now, max, deadline);
            let retries = s.retries(id, now, max);
            let fresh = s.fresh(id, now, max);
            &&& 0 <= i < leases.len()
            &&& s.messages.contains(delivery.message)
            &&& delivery.message.id == leases[i].message_id
            &&& delivery.delivery_count == leases[i].delivery_count
            &&& delivery.receipt == leases[i].receipt()
            &&& i < retries.len() ==> leases[i] == retries[i].leased(deadline)
            &&& i >= retries.len() ==> fresh[i - retries.len()] == delivery.message && leases[i]
                == crate::model::first_delivery(id, delivery.message, deadline)
        }),
{
    let leases = s.leases(id, now, max, deadline);
    let retries = s.retries(id, now, max);
    let fresh = s.fresh(id, now, max);
    let p = crate::model::leased_in(leases);
    let delivery = s.claimed_deliveries(id, now, max, deadline)[j];
    let a = seqs::lemma_filter_source(s.messages, p, j);
    let message = s.messages[a];
    assert(delivery == crate::model::handed_out(leases, message));
    let i = choose|i: int|
        0 <= i < leases.len() && #[trigger] leases[i].message_id == message.id;
    if i >= retries.len() {
        let b = crate::claims::lemma_fresh_source(s, id, now, max, i - retries.len());
        crate::invariants::lemma_message(s, a);
        crate::invariants::lemma_message(s, b);
        assert(leases[i].message_id == fresh[i - retries.len()].id);
        assert(s.messages[b] == message);
    }
    i
}

/// Every lease of a claim is handed out.
pub proof fn lemma_lease_handed_out(
    s: StoreView,
    id: int,
    now: int,
    max: nat,
    deadline: int,
    i: int,
) -> (j: int)
    requires
        s.wf(),
        !s.dangles(id, now, max),
        0 <= i < s.leases(id, now, max, deadline).len(),
    ensures
        0 <= j < s.claimed_deliveries(id, now, max, deadline).len(),
        s.claimed_deliveries(id, now, max, deadline)[j].message.id == s.leases(
            id,
            now,
            max,
            deadline,
        )[i].message_id,
{
    let leases = s.leases(id, now, max, deadline);
    let retries = s.retries(id, now, max);
    let q = crate::model::leased_in(leases);
    if i < retries.len() {
        assert(s.has_message(retries[i].message_id));
        assert(leases[i].message_id == retries[i].message_id);
    } else {
        let b = crate::claims::lemma_fresh_source(s, id, now, max, i - retries.len());
        assert(s.messages[b].id == leases[i].message_id);
    }
    let m = choose|m: int|
        0 <= m < s.messages.len() && #[trigger] s.messages[m].id == leases[i].message_id;
    let message = s.messages[m];
    assert(leases[i].message_id == message.id);
    assert(q(message));
    assert(s.messages.contains(message));
    seqs::lemma_filter_member(s.messages, q, message);
    let j = choose|j: int|
        0 <= j < s.messages.filter(q).len() && s.messages.filter(q)[j] == message;
    assert(s.claimed_deliveries(id, now, max, deadline)[j] == crate::model::handed_out(
        leases,
        message,
    ));
    j
}

/// A visible row is retried exactly where its message is handed out.
pub proof fn lemma_retried_means_handed_out(
    s: StoreView,
    id: int,
    now: int,
    max: nat,
    deadline: int,
    a: int,
)
    requires
        s.wf(),
        !s.collides(id, now, max),
        !s.dangles(id, now, max),
        0 <= a < s.deliveries.len(),
        s.deliveries[a].consumer_id == id,
    ensures
        s.retried(id, now, max)(s.deliveries[a]) <==> exists|j: int|
            0 <= j < s.claimed_deliveries(id, now, max, deadline).len() && (
            #[trigger] s.claimed_deliveries(id, now, max, deadline)[j]).message.id
                == s.deliveries[a].message_id,
{
    let row = s.deliveries[a];
    let out = s.claimed_deliveries(id, now, max, deadline);
    let leases = s.leases(id, now, max, deadline);
    let retries = s.retries(id, now, max);
    let p = s.retried(id, now, max);
    if p(row) {
        assert(s.deliveries.contains(row));
        seqs::lemma_filter_member(s.deliveries, p, row);
        let i = choose|i: int| 0 <= i < retries.len() && retries[i] == row;
        assert(leases[i] == row.leased(deadline));
        let j = lemma_lease_handed_out(s, id, now, max, deadline, i);
        assert(out[j].message.id == row.message_id);
    }
    if exists|j: int| 0 <= j < out.len() && (#[trigger] out[j]).message.id == row.message_id {
        let j = choose|j: int|
            0 <= j < out.len() && (#[trigger] out[j]).message.id == row.message_id;
        let i = lemma_handed_out(s, id, now, max, deadline, j);
        if i < retries.len() {
            let b = crate::claims::lemma_retry_source(s, id, now, max, i);
            let c = seqs::lemma_filter_source(s.deliveries, p, i);
            assert(s.deliveries[c].message_id == row.message_id);
            assert(s.deliveries[b] == s.deliveries[c]);
            if a < c {
                assert(s.deliveries[a].consumer_id != s.deliveries[c].consumer_id
                    || s.deliveries[a].message_id != s.deliveries[c].message_id);
            } else if c < a {
                assert(s.deliveries[c].consumer_id != s.deliveries[a].consumer_id
                    || s.deliveries[c].message_id != s.deliveries[a].message_id);
            }
        } else {
            let k = i - retries.len();
            assert(!s.is_materialized(id, s.fresh(id, now, max)[k].id));
            assert(s.deliveries[a].consumer_id == id);
        }
    }
}

/// What a claim hands out, one by one, in the order of the log. Each is a stored
/// message with a receipt for this consumer. Either the consumer had a visible
/// delivery of it, and now has received it once more than that row said, under
/// the next generation; or it had none, the message was ahead of it and meant for
/// it, and this is the first time.
pub proof fn law_claimed_deliveries_count_on(
    consumer: &Consumer,
    fan: &mut LiteFan,
    max_messages: usize,
    lease_ms: i64,
    now: i64,
    claim: Claim,
)
    requires
        old(fan)@.wf(),
        call_ensures(
            Consumer::claim,
            (consumer, fan, max_messages, lease_ms, Ok(now)),
            Ok::<Claim, Error>(claim),
        ),
    ensures
        ({
            let s = old(fan)@;
            let id = consumer@.id;
            &&& claim.deliveries@.len() <= max_messages
            &&& forall|j: int, k: int|
                0 <= j < k < claim.deliveries@.len() ==> (
                #[trigger] claim.deliveries@[j])@.message.id < (
                #[trigger] claim.deliveries@[k])@.message.id
            &&& forall|j: int|
                0 <= j < claim.deliveries@.len() ==> {
                    let delivery = (#[trigger] claim.deliveries@[j])@;
                    &&& s.messages.contains(delivery.message)
                    &&& delivery.receipt.consumer_id == id
                    &&& delivery.receipt.message_id == delivery.message.id
                    &&& {
                        ||| exists|a: int|
                            0 <= a < s.deliveries.len() && (
                            #[trigger] s.deliveries[a]).consumer_id == id
                                && s.deliveries[a].message_id == delivery.message.id
                                && s.deliveries[a].visible_at_ms <= now
                                && delivery.delivery_count == s.deliveries[a].delivery_count + 1
                                && delivery.receipt.generation == s.deliveries[a].generation + 1
                        ||| {
                            &&& delivery.delivery_count == 1
                            &&& delivery.receipt.generation == 1
                            &&& forall|a: int|
                                0 <= a < s.deliveries.len() ==> (
                                #[trigger] s.deliveries[a]).consumer_id != id
                                    || s.deliveries[a].message_id != delivery.message.id
                            &&& forall|i: int|
                                0 <= i < s.consumers.len() && (#[trigger] s.consumers[i]).id == id
                                    ==> {
                                    &&& s.consumers[i].scan_cursor < delivery.message.id
                                    &&& s.consumers[i].drain_cursor matches Some(limit)
                                        ==> delivery.message.id <= limit
                                    &&& s.consumers[i].filter matches Some(topic)
                                        ==> delivery.message.topic == Some(topic)
                                }
                        }
                    }
                }
        }),
{
    let s = old(fan)@;
    let id = consumer@.id;
    let max = max_messages as nat;
    let deadline = now + lease_ms;
    lemma_claim_result(consumer, fan, max_messages, lease_ms, now, claim);
    let out = s.claimed_deliveries(id, now as int, max, deadline);
    let retries = s.retries(id, now as int, max);
    let leases = s.leases(id, now as int, max, deadline);
    assert forall|j: int| 0 <= j < claim.deliveries@.len() implies out[j] == (
    #[trigger] claim.deliveries@[j])@ by {
        assert(seqs::views(claim.deliveries@)[j] == claim.deliveries@[j]@);
    }
    crate::laws::claiming::law_claim_takes_what_is_ready(s, id, now as int, max, deadline);
    crate::laws::claiming::law_claim_hands_out_leases(s, id, now as int, max, deadline);
    assert(out.len() == claim.deliveries@.len());
    assert forall|j: int| 0 <= j < claim.deliveries@.len() implies {
        let delivery = (#[trigger] claim.deliveries@[j])@;
        &&& s.messages.contains(delivery.message)
        &&& delivery.receipt.consumer_id == id
        &&& delivery.receipt.message_id == delivery.message.id
        &&& {
            ||| exists|a: int|
                0 <= a < s.deliveries.len() && (#[trigger] s.deliveries[a]).consumer_id == id
                    && s.deliveries[a].message_id == delivery.message.id
                    && s.deliveries[a].visible_at_ms <= now && delivery.delivery_count
                    == s.deliveries[a].delivery_count + 1 && delivery.receipt.generation
                    == s.deliveries[a].generation + 1
            ||| {
                &&& delivery.delivery_count == 1
                &&& delivery.receipt.generation == 1
                &&& forall|a: int|
                    0 <= a < s.deliveries.len() ==> (#[trigger] s.deliveries[a]).consumer_id != id
                        || s.deliveries[a].message_id != delivery.message.id
                &&& forall|i: int|
                    0 <= i < s.consumers.len() && (#[trigger] s.consumers[i]).id == id ==> {
                        &&& s.consumers[i].scan_cursor < delivery.message.id
                        &&& s.consumers[i].drain_cursor matches Some(limit)
                            ==> delivery.message.id <= limit
                        &&& s.consumers[i].filter matches Some(topic) ==> delivery.message.topic
                            == Some(topic)
                    }
            }
        }
    } by {
        let delivery = out[j];
        assert(claim.deliveries@[j]@ == delivery);
        let i = lemma_handed_out(s, id, now as int, max, deadline, j);
        if i < retries.len() {
            let a = crate::claims::lemma_retry_source(s, id, now as int, max, i);
            assert(s.deliveries[a].consumer_id == id);
            assert(s.deliveries[a] == retries[i]);
        } else {
            let k = i - retries.len();
            let b = crate::claims::lemma_fresh_source(s, id, now as int, max, k);
            assert(!s.is_materialized(id, s.fresh(id, now as int, max)[k].id));
            assert forall|c: int|
                0 <= c < s.consumers.len() && (#[trigger] s.consumers[c]).id == id implies {
                &&& s.consumers[c].scan_cursor < delivery.message.id
                &&& s.consumers[c].drain_cursor matches Some(limit) ==> delivery.message.id
                    <= limit
                &&& s.consumers[c].filter matches Some(topic) ==> delivery.message.topic == Some(
                    topic,
                )
            } by {
                crate::invariants::lemma_consumer(s, c);
            }
        }
    }
}

/// A message that is ahead of the consumer is taken exactly where it is handed out.
proof fn lemma_fresh_means_handed_out(
    s: StoreView,
    id: int,
    now: int,
    max: nat,
    deadline: int,
    k: int,
)
    requires
        s.wf(),
        !s.collides(id, now, max),
        !s.dangles(id, now, max),
        0 <= k < s.messages.len(),
        !s.is_materialized(id, s.messages[k].id),
    ensures
        s.fresh(id, now, max).contains(s.messages[k]) <==> exists|j: int|
            0 <= j < s.claimed_deliveries(id, now, max, deadline).len() && (
            #[trigger] s.claimed_deliveries(id, now, max, deadline)[j]).message.id
                == s.messages[k].id,
{
    let message = s.messages[k];
    let out = s.claimed_deliveries(id, now, max, deadline);
    let fresh = s.fresh(id, now, max);
    let retries = s.retries(id, now, max);
    let leases = s.leases(id, now, max, deadline);
    if fresh.contains(message) {
        let i = choose|i: int| 0 <= i < fresh.len() && fresh[i] == message;
        assert(leases[retries.len() + i].message_id == message.id);
        let j = lemma_lease_handed_out(s, id, now, max, deadline, retries.len() + i);
        assert(out[j].message.id == message.id);
    }
    if exists|j: int| 0 <= j < out.len() && (#[trigger] out[j]).message.id == message.id {
        let j = choose|j: int| 0 <= j < out.len() && (#[trigger] out[j]).message.id == message.id;
        let i = lemma_handed_out(s, id, now, max, deadline, j);
        if i < retries.len() {
            let a = crate::claims::lemma_retry_source(s, id, now, max, i);
            assert(s.deliveries[a].consumer_id == id);
        } else {
            let b = crate::claims::lemma_fresh_source(s, id, now, max, i - retries.len());
            crate::invariants::lemma_message(s, b);
            crate::invariants::lemma_message(s, k);
            assert(fresh[i - retries.len()] == message);
        }
    }
}

// The choice of a claim
/// Of the visible deliveries, a claim takes those that became visible first, and
/// among equals those with the lower message identifier: none is passed over for
/// one that comes later.
pub proof fn law_longest_visible_first(
    consumer: &Consumer,
    fan: &mut LiteFan,
    max_messages: usize,
    lease_ms: i64,
    now: i64,
    claim: Claim,
    a: int,
    b: int,
    j: int,
)
    requires
        old(fan)@.wf(),
        call_ensures(
            Consumer::claim,
            (consumer, fan, max_messages, lease_ms, Ok(now)),
            Ok::<Claim, Error>(claim),
        ),
        0 <= a < old(fan)@.deliveries.len(),
        0 <= b < old(fan)@.deliveries.len(),
        old(fan)@.deliveries[a].consumer_id == consumer@.id,
        old(fan)@.deliveries[b].consumer_id == consumer@.id,
        old(fan)@.deliveries[a].visible_at_ms <= now,
        old(fan)@.deliveries[a].visible_at_ms < old(fan)@.deliveries[b].visible_at_ms || (
        old(fan)@.deliveries[a].visible_at_ms == old(fan)@.deliveries[b].visible_at_ms
            && old(fan)@.deliveries[a].message_id < old(fan)@.deliveries[b].message_id),
        0 <= j < claim.deliveries@.len(),
        claim.deliveries@[j]@.message.id == old(fan)@.deliveries[b].message_id,
    ensures
        exists|m: int|
            0 <= m < claim.deliveries@.len() && (#[trigger] claim.deliveries@[m])@.message.id
                == old(fan)@.deliveries[a].message_id,
{
    let s = old(fan)@;
    let id = consumer@.id;
    let max = max_messages as nat;
    let deadline = now + lease_ms;
    lemma_claim_result(consumer, fan, max_messages, lease_ms, now, claim);
    let out = s.claimed_deliveries(id, now as int, max, deadline);
    assert forall|j: int| 0 <= j < claim.deliveries@.len() implies out[j] == (
    #[trigger] claim.deliveries@[j])@ by {
        assert(seqs::views(claim.deliveries@)[j] == claim.deliveries@[j]@);
    }
    assert(out.len() == claim.deliveries@.len());
    assert(out[j].message.id == s.deliveries[b].message_id);
    lemma_retried_means_handed_out(s, id, now as int, max, deadline, a);
    lemma_retried_means_handed_out(s, id, now as int, max, deadline, b);
    crate::laws::claiming::law_oldest_retries_first(s, id, now as int, max, a, b);
    let m = choose|m: int| 0 <= m < out.len() && (#[trigger] out[m]).message.id == s.deliveries[a].message_id;
    assert(claim.deliveries@[m]@ == out[m]);
}

/// Retries come before new messages: where a claim hands out a message that the
/// consumer had no delivery of, it hands out every visible delivery too.
pub proof fn law_retries_before_new_messages(
    consumer: &Consumer,
    fan: &mut LiteFan,
    max_messages: usize,
    lease_ms: i64,
    now: i64,
    claim: Claim,
    a: int,
    j: int,
)
    requires
        old(fan)@.wf(),
        call_ensures(
            Consumer::claim,
            (consumer, fan, max_messages, lease_ms, Ok(now)),
            Ok::<Claim, Error>(claim),
        ),
        0 <= a < old(fan)@.deliveries.len(),
        old(fan)@.deliveries[a].consumer_id == consumer@.id,
        old(fan)@.deliveries[a].visible_at_ms <= now,
        0 <= j < claim.deliveries@.len(),
        forall|b: int|
            0 <= b < old(fan)@.deliveries.len() ==> (
            #[trigger] old(fan)@.deliveries[b]).consumer_id != consumer@.id
                || old(fan)@.deliveries[b].message_id != claim.deliveries@[j]@.message.id,
    ensures
        exists|m: int|
            0 <= m < claim.deliveries@.len() && (#[trigger] claim.deliveries@[m])@.message.id
                == old(fan)@.deliveries[a].message_id,
{
    let s = old(fan)@;
    let id = consumer@.id;
    let max = max_messages as nat;
    let deadline = now + lease_ms;
    lemma_claim_result(consumer, fan, max_messages, lease_ms, now, claim);
    let out = s.claimed_deliveries(id, now as int, max, deadline);
    assert forall|j: int| 0 <= j < claim.deliveries@.len() implies out[j] == (
    #[trigger] claim.deliveries@[j])@ by {
        assert(seqs::views(claim.deliveries@)[j] == claim.deliveries@[j]@);
    }
    assert(out.len() == claim.deliveries@.len());
    assert(claim.deliveries@[j]@ == out[j]);
    let i = lemma_handed_out(s, id, now as int, max, deadline, j);
    if i < s.retries(id, now as int, max).len() {
        let b = crate::claims::lemma_retry_source(s, id, now as int, max, i);
        assert(s.deliveries[b].consumer_id == id);
    }
    crate::laws::claiming::law_retries_come_first(s, id, now as int, max);
    let row = s.deliveries[a];
    let p = crate::model::visible(id, now as int);
    assert(s.deliveries.contains(row));
    seqs::lemma_filter_member(s.deliveries, p, row);
    seqs::lemma_filter_member(s.deliveries, s.retried(id, now as int, max), row);
    lemma_retried_means_handed_out(s, id, now as int, max, deadline, a);
    let m = choose|m: int| 0 <= m < out.len() && (#[trigger] out[m]).message.id == s.deliveries[a].message_id;
    assert(claim.deliveries@[m]@ == out[m]);
}

/// New messages come in the order of the log: where a claim hands out a message
/// that the consumer had no delivery of, it hands out every earlier one that was
/// ahead of the consumer and meant for it.
pub proof fn law_oldest_new_messages_first(
    consumer: &Consumer,
    fan: &mut LiteFan,
    max_messages: usize,
    lease_ms: i64,
    now: i64,
    claim: Claim,
    i: int,
    k: int,
    j: int,
)
    requires
        old(fan)@.wf(),
        call_ensures(
            Consumer::claim,
            (consumer, fan, max_messages, lease_ms, Ok(now)),
            Ok::<Claim, Error>(claim),
        ),
        0 <= i < old(fan)@.consumers.len(),
        old(fan)@.consumers[i].id == consumer@.id,
        0 <= j < claim.deliveries@.len(),
        forall|b: int|
            0 <= b < old(fan)@.deliveries.len() ==> (
            #[trigger] old(fan)@.deliveries[b]).consumer_id != consumer@.id
                || old(fan)@.deliveries[b].message_id != claim.deliveries@[j]@.message.id,
        0 <= k < old(fan)@.messages.len(),
        old(fan)@.consumers[i].scan_cursor < old(fan)@.messages[k].id
            < claim.deliveries@[j]@.message.id,
        old(fan)@.consumers[i].filter is Some ==> old(fan)@.messages[k].topic
            == old(fan)@.consumers[i].filter,
    ensures
        exists|m: int|
            0 <= m < claim.deliveries@.len() && (#[trigger] claim.deliveries@[m])@.message.id
                == old(fan)@.messages[k].id,
{
    let s = old(fan)@;
    let id = consumer@.id;
    let max = max_messages as nat;
    let deadline = now + lease_ms;
    lemma_claim_result(consumer, fan, max_messages, lease_ms, now, claim);
    let out = s.claimed_deliveries(id, now as int, max, deadline);
    assert forall|j: int| 0 <= j < claim.deliveries@.len() implies out[j] == (
    #[trigger] claim.deliveries@[j])@ by {
        assert(seqs::views(claim.deliveries@)[j] == claim.deliveries@[j]@);
    }
    assert(out.len() == claim.deliveries@.len());
    let fresh = s.fresh(id, now as int, max);
    let retries = s.retries(id, now as int, max);
    let message = s.messages[k];
    assert(claim.deliveries@[j]@ == out[j]);
    crate::invariants::lemma_consumer(s, i);
    let at = lemma_handed_out(s, id, now as int, max, deadline, j);
    if at < retries.len() {
        let b = crate::claims::lemma_retry_source(s, id, now as int, max, at);
        assert(s.deliveries[b].consumer_id == id);
    }
    let n = at - retries.len();
    let b = crate::claims::lemma_fresh_source(s, id, now as int, max, n);
    assert(s.consumer(id).wants(message));
    let p = s.consumer(id).wanted();
    let ahead = s.messages.filter(p);
    assert(s.messages.contains(message));
    seqs::lemma_filter_member(s.messages, p, message);
    let c = choose|c: int| 0 <= c < ahead.len() && ahead[c] == message;
    if c > n {
        let (d, e) = seqs::lemma_filter_sources(s.messages, p, n, c);
        assert(s.messages[d].id < s.messages[e].id);
    }
    assert(fresh[c] == message);
    assert(!s.is_materialized(id, fresh[c].id));
    lemma_fresh_means_handed_out(s, id, now as int, max, deadline, k);
    let m = choose|m: int| 0 <= m < out.len() && (#[trigger] out[m]).message.id == message.id;
    assert(claim.deliveries@[m]@ == out[m]);
}

/// A claim takes what it can: where it hands out less than it may, it hands out
/// every visible delivery of the consumer.
pub proof fn law_no_visible_delivery_is_left(
    consumer: &Consumer,
    fan: &mut LiteFan,
    max_messages: usize,
    lease_ms: i64,
    now: i64,
    claim: Claim,
    a: int,
)
    requires
        old(fan)@.wf(),
        call_ensures(
            Consumer::claim,
            (consumer, fan, max_messages, lease_ms, Ok(now)),
            Ok::<Claim, Error>(claim),
        ),
        claim.deliveries@.len() < max_messages,
        0 <= a < old(fan)@.deliveries.len(),
        old(fan)@.deliveries[a].consumer_id == consumer@.id,
        old(fan)@.deliveries[a].visible_at_ms <= now,
    ensures
        exists|m: int|
            0 <= m < claim.deliveries@.len() && (#[trigger] claim.deliveries@[m])@.message.id
                == old(fan)@.deliveries[a].message_id,
{
    let s = old(fan)@;
    let id = consumer@.id;
    let max = max_messages as nat;
    let deadline = now + lease_ms;
    lemma_claim_result(consumer, fan, max_messages, lease_ms, now, claim);
    let out = s.claimed_deliveries(id, now as int, max, deadline);
    assert forall|j: int| 0 <= j < claim.deliveries@.len() implies out[j] == (
    #[trigger] claim.deliveries@[j])@ by {
        assert(seqs::views(claim.deliveries@)[j] == claim.deliveries@[j]@);
    }
    assert(out.len() == claim.deliveries@.len());
    let index = s.consumer_index(id);
    assert(s.consumers[index].id == id);
    crate::laws::claiming::law_claim_takes_what_is_ready(s, id, now as int, max, deadline);
    crate::laws::claiming::law_visible_deliveries_are_ready(s, a, now as int, max, deadline);
    let m = choose|m: int| 0 <= m < out.len() && (#[trigger] out[m]).message.id == s.deliveries[a].message_id;
    assert(claim.deliveries@[m]@ == out[m]);
}

/// A claim takes what it can: where it hands out less than it may, it hands out
/// every message that is ahead of the consumer and meant for it.
pub proof fn law_no_message_is_left(
    consumer: &Consumer,
    fan: &mut LiteFan,
    max_messages: usize,
    lease_ms: i64,
    now: i64,
    claim: Claim,
    i: int,
    k: int,
)
    requires
        old(fan)@.wf(),
        call_ensures(
            Consumer::claim,
            (consumer, fan, max_messages, lease_ms, Ok(now)),
            Ok::<Claim, Error>(claim),
        ),
        claim.deliveries@.len() < max_messages,
        0 <= i < old(fan)@.consumers.len(),
        old(fan)@.consumers[i].id == consumer@.id,
        0 <= k < old(fan)@.messages.len(),
        old(fan)@.consumers[i].scan_cursor < old(fan)@.messages[k].id,
        old(fan)@.consumers[i].drain_cursor is Some ==> old(fan)@.messages[k].id
            <= old(fan)@.consumers[i].drain_cursor->Some_0,
        old(fan)@.consumers[i].filter is Some ==> old(fan)@.messages[k].topic
            == old(fan)@.consumers[i].filter,
    ensures
        exists|m: int|
            0 <= m < claim.deliveries@.len() && (#[trigger] claim.deliveries@[m])@.message.id
                == old(fan)@.messages[k].id,
{
    let s = old(fan)@;
    let id = consumer@.id;
    let max = max_messages as nat;
    let deadline = now + lease_ms;
    lemma_claim_result(consumer, fan, max_messages, lease_ms, now, claim);
    let out = s.claimed_deliveries(id, now as int, max, deadline);
    assert forall|j: int| 0 <= j < claim.deliveries@.len() implies out[j] == (
    #[trigger] claim.deliveries@[j])@ by {
        assert(seqs::views(claim.deliveries@)[j] == claim.deliveries@[j]@);
    }
    assert(out.len() == claim.deliveries@.len());
    let fresh = s.fresh(id, now as int, max);
    let message = s.messages[k];
    crate::invariants::lemma_consumer(s, i);
    crate::laws::claiming::law_claim_takes_what_is_ready(s, id, now as int, max, deadline);
    crate::counting::lemma_retries(s, id, now as int, max);
    let p = s.consumer(id).wanted();
    assert(s.consumer(id).wants(message));
    assert(s.messages.contains(message));
    seqs::lemma_filter_member(s.messages, p, message);
    assert(fresh == s.messages.filter(p));
    let c = choose|c: int| 0 <= c < fresh.len() && fresh[c] == message;
    assert(!s.is_materialized(id, fresh[c].id));
    lemma_fresh_means_handed_out(s, id, now as int, max, deadline, k);
    let m = choose|m: int| 0 <= m < out.len() && (#[trigger] out[m]).message.id == message.id;
    assert(claim.deliveries@[m]@ == out[m]);
}

// What a claim leaves
/// The rows after a claim. Everything that was handed out is leased until the
/// reading of the clock plus the lease, with the count and the generation that
/// were handed out; every other delivery is as it was; and there are no others.
pub proof fn law_claims_lease_what_they_hand_out(
    consumer: &Consumer,
    fan: &mut LiteFan,
    max_messages: usize,
    lease_ms: i64,
    now: i64,
    claim: Claim,
)
    requires
        old(fan)@.wf(),
        call_ensures(
            Consumer::claim,
            (consumer, fan, max_messages, lease_ms, Ok(now)),
            Ok::<Claim, Error>(claim),
        ),
    ensures
        ({
            let s = old(fan)@;
            let t = final(fan)@;
            let id = consumer@.id;
            &&& forall|row: DeliveryRowView| #[trigger]
                t.deliveries.contains(row) <==> {
                    ||| s.deliveries.contains(row) && !(row.consumer_id == id && exists|j: int|
                        0 <= j < claim.deliveries@.len() && (
                        #[trigger] claim.deliveries@[j])@.message.id == row.message_id)
                    ||| row.consumer_id == id && row.visible_at_ms == now + lease_ms && exists|j:
                        int|
                        0 <= j < claim.deliveries@.len() && (
                        #[trigger] claim.deliveries@[j])@.message.id == row.message_id
                            && claim.deliveries@[j]@.delivery_count == row.delivery_count
                            && claim.deliveries@[j]@.receipt.generation == row.generation
                }
            &&& t == (StoreView { consumers: t.consumers, deliveries: t.deliveries, ..s })
        }),
{
    let s = old(fan)@;
    let id = consumer@.id;
    let max = max_messages as nat;
    let deadline = now + lease_ms;
    lemma_claim_result(consumer, fan, max_messages, lease_ms, now, claim);
    let out = s.claimed_deliveries(id, now as int, max, deadline);
    assert forall|j: int| 0 <= j < claim.deliveries@.len() implies out[j] == (
    #[trigger] claim.deliveries@[j])@ by {
        assert(seqs::views(claim.deliveries@)[j] == claim.deliveries@[j]@);
    }
    assert(out.len() == claim.deliveries@.len());
    let t = final(fan)@;
    let leases = s.leases(id, now as int, max, deadline);
    let retries = s.retries(id, now as int, max);
    let fresh = s.fresh(id, now as int, max);
    let p = s.retried(id, now as int, max);
    let n = s.deliveries.len() as int;
    assert forall|row: DeliveryRowView| #[trigger]
        t.deliveries.contains(row) <==> {
            ||| s.deliveries.contains(row) && !(row.consumer_id == id && exists|j: int|
                0 <= j < claim.deliveries@.len() && (#[trigger] claim.deliveries@[j])@.message.id
                    == row.message_id)
            ||| row.consumer_id == id && row.visible_at_ms == now + lease_ms && exists|j: int|
                0 <= j < claim.deliveries@.len() && (#[trigger] claim.deliveries@[j])@.message.id
                    == row.message_id && claim.deliveries@[j]@.delivery_count
                    == row.delivery_count && claim.deliveries@[j]@.receipt.generation
                    == row.generation
        } by {
        if t.deliveries.contains(row) {
            let a = choose|a: int| 0 <= a < t.deliveries.len() && t.deliveries[a] == row;
            if a < n && s.deliveries[a].consumer_id != id {
                assert(!p(s.deliveries[a]));
                assert(s.deliveries.contains(row));
            } else if a < n {
                lemma_retried_means_handed_out(s, id, now as int, max, deadline, a);
                if p(s.deliveries[a]) {
                    let j = choose|j: int|
                        0 <= j < out.len() && (#[trigger] out[j]).message.id == row.message_id;
                    lemma_lease_of_row(s, id, now as int, max, deadline, a, j);
                    assert(claim.deliveries@[j]@ == out[j]);
                } else {
                    assert(s.deliveries[a] == row);
                    assert(s.deliveries.contains(row));
                    assert forall|j: int| 0 <= j < claim.deliveries@.len() implies (
                    #[trigger] claim.deliveries@[j])@.message.id != row.message_id by {
                        assert(claim.deliveries@[j]@ == out[j]);
                    }
                }
            } else {
                let k = a - n;
                assert(row == crate::model::first_delivery(id, fresh[k], deadline));
                assert(leases[retries.len() + k] == row);
                let j = lemma_lease_handed_out(
                    s,
                    id,
                    now as int,
                    max,
                    deadline,
                    retries.len() + k,
                );
                let i = lemma_handed_out(s, id, now as int, max, deadline, j);
                crate::claims::lemma_leases_distinct(s, id, now as int, max, deadline);
                assert(i == retries.len() + k);
                assert(claim.deliveries@[j]@ == out[j]);
            }
        }
        if s.deliveries.contains(row) && !(row.consumer_id == id && exists|j: int|
            0 <= j < claim.deliveries@.len() && (#[trigger] claim.deliveries@[j])@.message.id
                == row.message_id) {
            let a = choose|a: int| 0 <= a < n && s.deliveries[a] == row;
            if row.consumer_id == id {
                lemma_retried_means_handed_out(s, id, now as int, max, deadline, a);
                if p(row) {
                    let j = choose|j: int|
                        0 <= j < out.len() && (#[trigger] out[j]).message.id == row.message_id;
                    assert(claim.deliveries@[j]@ == out[j]);
                }
            }
            assert(!p(row));
            assert(t.deliveries[a] == row);
        }
        if row.consumer_id == id && row.visible_at_ms == now + lease_ms && exists|j: int|
            0 <= j < claim.deliveries@.len() && (#[trigger] claim.deliveries@[j])@.message.id
                == row.message_id && claim.deliveries@[j]@.delivery_count == row.delivery_count
                && claim.deliveries@[j]@.receipt.generation == row.generation {
            let j = choose|j: int|
                0 <= j < claim.deliveries@.len() && (#[trigger] claim.deliveries@[j])@.message.id
                    == row.message_id && claim.deliveries@[j]@.delivery_count
                    == row.delivery_count && claim.deliveries@[j]@.receipt.generation
                    == row.generation;
            assert(claim.deliveries@[j]@ == out[j]);
            crate::laws::claiming::law_claim_hands_out_leases(s, id, now as int, max, deadline);
        }
    }
}

/// The delivery of a row that is retried carries what the row becomes.
proof fn lemma_lease_of_row(
    s: StoreView,
    id: int,
    now: int,
    max: nat,
    deadline: int,
    a: int,
    j: int,
)
    requires
        s.wf(),
        !s.collides(id, now, max),
        0 <= a < s.deliveries.len(),
        s.deliveries[a].consumer_id == id,
        0 <= j < s.claimed_deliveries(id, now, max, deadline).len(),
        s.claimed_deliveries(id, now, max, deadline)[j].message.id == s.deliveries[a].message_id,
    ensures
        s.claimed_deliveries(id, now, max, deadline)[j].delivery_count == s.deliveries[a].leased(
            deadline,
        ).delivery_count,
        s.claimed_deliveries(id, now, max, deadline)[j].receipt.generation
            == s.deliveries[a].leased(deadline).generation,
{
    let retries = s.retries(id, now, max);
    let i = lemma_handed_out(s, id, now, max, deadline, j);
    if i < retries.len() {
        let c = seqs::lemma_filter_source(s.deliveries, s.retried(id, now, max), i);
        if a < c {
            assert(s.deliveries[a].consumer_id != s.deliveries[c].consumer_id
                || s.deliveries[a].message_id != s.deliveries[c].message_id);
        } else if c < a {
            assert(s.deliveries[c].consumer_id != s.deliveries[a].consumer_id
                || s.deliveries[c].message_id != s.deliveries[a].message_id);
        }
    } else {
        assert(!s.is_materialized(id, s.fresh(id, now, max)[i - retries.len()].id));
        assert(s.deliveries[a].consumer_id == id);
    }
}

/// The consumer after a claim is the same but for its cursor, and every other
/// consumer is untouched. Where the claim handed out less than it may, the cursor
/// has reached the end of what the consumer may scan: its limit, or else the last
/// message. Where it handed out as much as it may, the cursor stands at the last
/// new message that was handed out, or where it was if there is none.
pub proof fn law_cursors_follow_what_is_handed_out(
    consumer: &Consumer,
    fan: &mut LiteFan,
    max_messages: usize,
    lease_ms: i64,
    now: i64,
    claim: Claim,
    i: int,
)
    requires
        old(fan)@.wf(),
        call_ensures(
            Consumer::claim,
            (consumer, fan, max_messages, lease_ms, Ok(now)),
            Ok::<Claim, Error>(claim),
        ),
        0 <= i < old(fan)@.consumers.len(),
    ensures
        ({
            let s = old(fan)@;
            let t = final(fan)@;
            let before = s.consumers[i];
            let after = t.consumers[i];
            let end = match before.drain_cursor {
                Some(limit) => limit,
                None => if s.messages.len() == 0 {
                    0
                } else {
                    s.messages[s.messages.len() - 1].id
                },
            };
            &&& t.consumers.len() == s.consumers.len()
            &&& after.id == before.id
            &&& after.name == before.name
            &&& after.filter == before.filter
            &&& after.created_at_ms == before.created_at_ms
            &&& after.draining_at_ms == before.draining_at_ms
            &&& after.drain_cursor == before.drain_cursor
            &&& before.id != consumer@.id ==> after == before
            &&& before.id == consumer@.id && claim.deliveries@.len() < max_messages
                ==> after.scan_cursor == if before.scan_cursor < end {
                end
            } else {
                before.scan_cursor
            }
            &&& before.id == consumer@.id && claim.deliveries@.len() == max_messages ==> {
                &&& after.scan_cursor == before.scan_cursor || exists|j: int|
                    0 <= j < claim.deliveries@.len() && (
                    #[trigger] claim.deliveries@[j])@.message.id == after.scan_cursor
                        && before.scan_cursor < claim.deliveries@[j]@.message.id && forall|b: int|
                        0 <= b < s.deliveries.len() ==> (
                        #[trigger] s.deliveries[b]).consumer_id != consumer@.id
                            || s.deliveries[b].message_id != claim.deliveries@[j]@.message.id
                &&& forall|j: int|
                    0 <= j < claim.deliveries@.len() && (forall|b: int|
                        0 <= b < s.deliveries.len() ==> (
                        #[trigger] s.deliveries[b]).consumer_id != consumer@.id
                            || s.deliveries[b].message_id != claim.deliveries@[j]@.message.id)
                        ==> (#[trigger] claim.deliveries@[j])@.message.id <= after.scan_cursor
            }
        }),
{
    let s = old(fan)@;
    let id = consumer@.id;
    let max = max_messages as nat;
    let deadline = now + lease_ms;
    lemma_claim_result(consumer, fan, max_messages, lease_ms, now, claim);
    let out = s.claimed_deliveries(id, now as int, max, deadline);
    assert forall|j: int| 0 <= j < claim.deliveries@.len() implies out[j] == (
    #[trigger] claim.deliveries@[j])@ by {
        assert(seqs::views(claim.deliveries@)[j] == claim.deliveries@[j]@);
    }
    assert(out.len() == claim.deliveries@.len());
    let t = final(fan)@;
    let fresh = s.fresh(id, now as int, max);
    let retries = s.retries(id, now as int, max);
    let leases = s.leases(id, now as int, max, deadline);
    let index = s.consumer_index(id);
    let room = s.room(id, now as int, max);
    assert(s.consumers[index].id == id);
    crate::invariants::lemma_consumer(s, i);
    crate::claims::lemma_advanced_cursor(s, id, now as int, max);
    crate::laws::claiming::law_claim_takes_what_is_ready(s, id, now as int, max, deadline);
    crate::counting::lemma_retries(s, id, now as int, max);
    if s.consumers[i].id == id {
        crate::claims::lemma_advanced_cursor(s, id, now as int, max);
        if claim.deliveries@.len() == max_messages {
            assert forall|j: int|
                0 <= j < claim.deliveries@.len() && (forall|b: int|
                    0 <= b < s.deliveries.len() ==> (#[trigger] s.deliveries[b]).consumer_id != id
                        || s.deliveries[b].message_id
                        != claim.deliveries@[j]@.message.id) implies (
            #[trigger] claim.deliveries@[j])@.message.id <= t.consumers[i].scan_cursor by {
                assert(claim.deliveries@[j]@ == out[j]);
                let k = lemma_handed_out(s, id, now as int, max, deadline, j);
                if k < retries.len() {
                    let b = crate::claims::lemma_retry_source(s, id, now as int, max, k);
                    assert(s.deliveries[b].consumer_id == id);
                } else {
                    assert(fresh[k - retries.len()].id <= s.advanced_cursor(
                        id,
                        now as int,
                        max,
                    ));
                }
            }
            if t.consumers[i].scan_cursor != s.consumers[i].scan_cursor {
                assert(fresh.len() >= room);
                let k = fresh.len() - 1;
                assert(!s.is_materialized(id, fresh[k].id));
                let j = lemma_lease_handed_out(
                    s,
                    id,
                    now as int,
                    max,
                    deadline,
                    retries.len() + k,
                );
                assert(leases[retries.len() + k].message_id == fresh[k].id);
                assert(claim.deliveries@[j]@ == out[j]);
            }
        }
    }
}

/// What a claim says about waiting. It tells whether the consumer is draining.
/// Where it hands something out, there is nothing to wait for; where it does not,
/// it names the earliest time at which one of the consumer's deliveries becomes
/// visible, if there is any.
pub proof fn law_claims_tell_when_to_look_again(
    consumer: &Consumer,
    fan: &mut LiteFan,
    max_messages: usize,
    lease_ms: i64,
    now: i64,
    claim: Claim,
    i: int,
)
    requires
        old(fan)@.wf(),
        call_ensures(
            Consumer::claim,
            (consumer, fan, max_messages, lease_ms, Ok(now)),
            Ok::<Claim, Error>(claim),
        ),
        max_messages > 0,
        0 <= i < old(fan)@.consumers.len(),
        old(fan)@.consumers[i].id == consumer@.id,
    ensures
        ({
            let t = final(fan)@;
            &&& claim.draining <==> old(fan)@.consumers[i].draining_at_ms is Some
            &&& claim.deliveries@.len() > 0 ==> claim.next_visible_at is None
            &&& claim.deliveries@.len() == 0 ==> match claim.next_visible_at {
                None => forall|a: int|
                    0 <= a < t.deliveries.len() ==> (#[trigger] t.deliveries[a]).consumer_id
                        != consumer@.id,
                Some(time) => {
                    &&& exists|a: int|
                        0 <= a < t.deliveries.len() && (#[trigger] t.deliveries[a]).consumer_id
                            == consumer@.id && t.deliveries[a].visible_at_ms == time
                    &&& forall|a: int|
                        0 <= a < t.deliveries.len() && (#[trigger] t.deliveries[a]).consumer_id
                            == consumer@.id ==> time <= t.deliveries[a].visible_at_ms
                },
            }
        }),
{
    let s = old(fan)@;
    let id = consumer@.id;
    let max = max_messages as nat;
    let deadline = now + lease_ms;
    lemma_claim_result(consumer, fan, max_messages, lease_ms, now, claim);
    let out = s.claimed_deliveries(id, now as int, max, deadline);
    assert forall|j: int| 0 <= j < claim.deliveries@.len() implies out[j] == (
    #[trigger] claim.deliveries@[j])@ by {
        assert(seqs::views(claim.deliveries@)[j] == claim.deliveries@[j]@);
    }
    assert(out.len() == claim.deliveries@.len());
    let t = final(fan)@;
    crate::invariants::lemma_consumer(s, i);
    if claim.deliveries@.len() == 0 {
        law_cursors_follow_what_is_handed_out(
            consumer,
            fan,
            max_messages,
            lease_ms,
            now,
            claim,
            i,
        );
        crate::claims::lemma_claimed_wf(s, id, now as int, max, deadline);
        assert(t.consumers[i].id == id);
        crate::invariants::lemma_consumer(t, i);
        assert(t.high_water() == s.high_water());
        assert(!(t.consumer(id).scan_cursor < t.scan_limit(t.consumer(id))));
        lemma_earliest_row(t, id, crate::tables::widen(claim.next_visible_at));
    }
}

/// The least of the times at which deliveries are visible, row by row.
proof fn lemma_earliest_row(s: StoreView, id: int, earliest: Option<int>)
    requires
        crate::model::is_least(earliest, s.visible_times(id)),
    ensures
        match earliest {
            None => forall|a: int|
                0 <= a < s.deliveries.len() ==> (#[trigger] s.deliveries[a]).consumer_id != id,
            Some(time) => {
                &&& exists|a: int|
                    0 <= a < s.deliveries.len() && (#[trigger] s.deliveries[a]).consumer_id == id
                        && s.deliveries[a].visible_at_ms == time
                &&& forall|a: int|
                    0 <= a < s.deliveries.len() && (#[trigger] s.deliveries[a]).consumer_id == id
                        ==> time <= s.deliveries[a].visible_at_ms
            },
        },
{
    let p = crate::model::belongs_to(id);
    let times = s.visible_times(id);
    assert forall|a: int|
        0 <= a < s.deliveries.len() && (#[trigger] s.deliveries[a]).consumer_id == id implies {
        &&& times.len() > 0
        &&& exists|k: int| 0 <= k < times.len() && #[trigger] times[k] == s.deliveries[a].visible_at_ms
    } by {
        assert(s.deliveries.contains(s.deliveries[a]));
        seqs::lemma_filter_member(s.deliveries, p, s.deliveries[a]);
        let k = choose|k: int|
            0 <= k < s.deliveries.filter(p).len() && s.deliveries.filter(p)[k] == s.deliveries[a];
        assert(times[k] == s.deliveries[a].visible_at_ms);
    }
    if let Some(time) = earliest {
        let k = choose|k: int| 0 <= k < times.len() && times[k] == time;
        let a = seqs::lemma_filter_source(s.deliveries, p, k);
        assert(s.deliveries[a].consumer_id == id);
        assert(s.deliveries[a].visible_at_ms == time);
    }
}

/// When a claim is owed and when it is refused. A clock that cannot be read and a
/// consumer that is gone are reported, and nothing changes. Otherwise a claim of a
/// consistent log succeeds wherever the end of the lease can be stored, the limit
/// fits, and no count or generation of a visible delivery is exhausted.
pub proof fn law_claims_are_owed(
    consumer: &Consumer,
    fan: &mut LiteFan,
    max_messages: usize,
    lease_ms: i64,
    clock: Result<i64, Error>,
    result: Result<Claim, Error>,
)
    requires
        old(fan)@.wf(),
        call_ensures(Consumer::claim, (consumer, fan, max_messages, lease_ms, clock), result),
    ensures
        ({
            let s = old(fan)@;
            let t = final(fan)@;
            let exists_still = exists|i: int|
                0 <= i < s.consumers.len() && (#[trigger] s.consumers[i]).id == consumer@.id;
            &&& clock is Err ==> result is Err && result->Err_0@ == clock->Err_0@ && t == s
            &&& clock is Ok && !exists_still ==> {
                &&& result matches Err(Error::ConsumerDeleted { name })
                &&& name@ == consumer@.name
                &&& t == s
            }
            &&& result is Err && !(result->Err_0 is StorageInvariant) ==> t == s
            &&& s.consistent() && clock is Ok && exists_still && max_messages <= i64::MAX
                && i64::MIN <= clock->Ok_0 + lease_ms <= i64::MAX && (forall|a: int|
                0 <= a < s.deliveries.len() && (#[trigger] s.deliveries[a]).consumer_id
                    == consumer@.id && s.deliveries[a].visible_at_ms <= clock->Ok_0 ==> {
                    &&& s.deliveries[a].generation < i64::MAX
                    &&& s.deliveries[a].delivery_count < i64::MAX
                }) ==> result is Ok
        }),
{
    let s = old(fan)@;
    let id = consumer@.id;
    let max = max_messages as nat;
    if let Ok(now) = clock {
        if s.consistent() {
            crate::claims::lemma_claim_agrees(s, id, now as int, max);
        }
        assert forall|i: int| 0 <= i < s.retries(id, now as int, max).len() implies exists|a: int|
            0 <= a < s.deliveries.len() && (#[trigger] s.deliveries[a]).consumer_id == id
                && s.deliveries[a].visible_at_ms <= now && s.deliveries[a]
                == #[trigger] s.retries(id, now as int, max)[i] by {
            let a = crate::claims::lemma_retry_source(s, id, now as int, max, i);
            assert(s.deliveries[a].consumer_id == id);
        }
    }
}

// Polls
/// Two least numbers of the same numbers are the same.
pub proof fn lemma_least_is_one(one: Option<int>, two: Option<int>, numbers: Seq<int>)
    requires
        crate::model::is_least(one, numbers),
        crate::model::is_least(two, numbers),
    ensures
        one == two,
{
    if one is Some && two is Some {
        let i = choose|i: int| 0 <= i < numbers.len() && numbers[i] == one->Some_0;
        let j = choose|j: int| 0 <= j < numbers.len() && numbers[j] == two->Some_0;
        assert(numbers[i] >= two->Some_0);
        assert(numbers[j] >= one->Some_0);
    } else if one is Some {
        let i = choose|i: int| 0 <= i < numbers.len() && numbers[i] == one->Some_0;
    } else if two is Some {
        let j = choose|j: int| 0 <= j < numbers.len() && numbers[j] == two->Some_0;
    }
}

/// A poll that is not refused does what a claim does that leases for the whole
/// milliseconds of its visibility timeout, and leaves the same log. It is over
/// with what the claim hands out, or empty-handed where a draining consumer has
/// nothing more to wait for; otherwise it waits for the time that the claim names.
pub proof fn law_polls_claim(
    consumer: &Consumer,
    fan: &mut LiteFan,
    poll: Poll,
    now: i64,
    result: Result<PollStep, Error>,
    claim_fan: &mut LiteFan,
    lease_ms: i64,
    claim_result: Result<Claim, Error>,
)
    requires
        old(fan)@.wf(),
        old(fan)@ == old(claim_fan)@,
        0 < poll.max_messages <= old(fan)@.max_batch_size,
        0 < lease_ms,
        lease_ms == crate::time::duration_nanos(poll.visibility_timeout) / 1_000_000,
        call_ensures(Consumer::poll, (consumer, fan, poll, true, Ok(now)), result),
        call_ensures(
            Consumer::claim,
            (consumer, claim_fan, poll.max_messages, lease_ms, Ok(now)),
            claim_result,
        ),
    ensures
        final(fan)@ == final(claim_fan)@,
        result is Ok <==> claim_result is Ok,
        result is Err ==> result->Err_0@ == claim_result->Err_0@,
        result is Ok ==> {
            let claim = claim_result->Ok_0;
            &&& claim.deliveries@.len() > 0 || (claim.draining && claim.next_visible_at is None) ==> {
                &&& result->Ok_0 matches PollStep::Return(deliveries)
                &&& deliveries@.len() == claim.deliveries@.len()
                &&& forall|j: int|
                    0 <= j < deliveries@.len() ==> (#[trigger] deliveries@[j])@
                        == claim.deliveries@[j]@
            }
            &&& claim.deliveries@.len() == 0 && !(claim.draining && claim.next_visible_at is None)
                ==> result->Ok_0 == (PollStep::Wait { next_visible_at: claim.next_visible_at })
        },
{
    let s = old(fan)@;
    let id = consumer@.id;
    let max = poll.max_messages as nat;
    assert(s.poll_refusal(
        max,
        crate::time::duration_nanos(poll.visibility_timeout),
        true,
    ) is None);
    if result is Ok {
        let claim = claim_result->Ok_0;
        let other = choose|other: Claim| #[trigger]
            other.describes(s, final(fan)@, id, now as int, max, lease_ms as int)
                && result->Ok_0.follows(other);
        let one = seqs::views(claim.deliveries@);
        let two = seqs::views(other.deliveries@);
        if s.idle(id, now as int) {
            lemma_least_is_one(
                crate::tables::widen(claim.next_visible_at),
                crate::tables::widen(other.next_visible_at),
                s.visible_times(id),
            );
            assert(one =~= two);
        } else {
            assert(one.len() == claim.deliveries@.len());
            assert(two.len() == other.deliveries@.len());
            let t = final(fan)@;
            if claim.deliveries@.len() == 0 && !(t.consumer(id).scan_cursor < t.scan_limit(
                t.consumer(id),
            )) {
                lemma_least_is_one(
                    crate::tables::widen(claim.next_visible_at),
                    crate::tables::widen(other.next_visible_at),
                    t.visible_times(id),
                );
            }
        }
        assert(claim.next_visible_at == other.next_visible_at);
        assert forall|j: int| 0 <= j < claim.deliveries@.len() implies (
        #[trigger] other.deliveries@[j])@ == claim.deliveries@[j]@ by {
            assert(one[j] == claim.deliveries@[j]@);
            assert(two[j] == other.deliveries@[j]@);
        }
    }
}

/// A poll for nothing is over at once. Any other is refused, and changes nothing,
/// where it asks for more than the limit, where its visibility timeout cannot be
/// stored or is below a millisecond, and where the end of its wait cannot be
/// represented.
pub proof fn law_polls_are_refused(
    consumer: &Consumer,
    fan: &mut LiteFan,
    poll: Poll,
    deadline_fits: bool,
    clock: Result<i64, Error>,
    result: Result<PollStep, Error>,
)
    requires
        old(fan)@.wf(),
        call_ensures(Consumer::poll, (consumer, fan, poll, deadline_fits, clock), result),
    ensures
        ({
            let s = old(fan)@;
            let timeout_ms = crate::time::duration_nanos(poll.visibility_timeout) / 1_000_000;
            if poll.max_messages == 0 {
                &&& result matches Ok(PollStep::Return(deliveries))
                &&& deliveries@.len() == 0
                &&& final(fan)@ == s
            } else if poll.max_messages > s.max_batch_size {
                &&& result matches Err(Error::BatchTooLarge { requested, maximum })
                &&& requested == poll.max_messages
                &&& maximum == s.max_batch_size
                &&& final(fan)@ == s
            } else if timeout_ms > i64::MAX {
                result matches Err(Error::DurationOutOfRange) && final(fan)@ == s
            } else if timeout_ms == 0 {
                result matches Err(Error::InvalidVisibilityTimeout) && final(fan)@ == s
            } else if !deadline_fits {
                &&& result matches Err(Error::InvalidPoll(text))
                &&& text@ == "wait is too large"@
                &&& final(fan)@ == s
            } else {
                clock is Err ==> result is Err && result->Err_0@ == clock->Err_0@ && final(fan)@ == s
            }
        }),
{
}

/// How long a poll sleeps: as long as it may still wait, as the interval at which
/// other processes are noticed, or until the next delivery is visible, whichever
/// ends first; and not at all where nothing is left to wait.
pub proof fn law_sleep_ends_with_the_first_reason(
    fan: &LiteFan,
    next_visible_at: Option<i64>,
    remaining: std::time::Duration,
    now: i64,
    result: Result<Option<std::time::Duration>, Error>,
)
    requires
        call_ensures(LiteFan::wait, (fan, next_visible_at, remaining, Ok(now)), result),
    ensures
        result is Ok,
        result->Ok_0 is None <==> crate::time::duration_nanos(remaining) == 0,
        result->Ok_0 matches Some(sleep) ==> {
            let nanos = crate::time::duration_nanos(sleep);
            let until_visible = match next_visible_at {
                None => None::<int>,
                Some(time) => Some(
                    if time <= now {
                        0int
                    } else {
                        (time - now) * 1_000_000
                    },
                ),
            };
            &&& nanos <= crate::time::duration_nanos(remaining)
            &&& nanos <= fan@.poll_interval_nanos
            &&& until_visible is Some ==> nanos <= until_visible->Some_0
            &&& {
                ||| nanos == crate::time::duration_nanos(remaining)
                ||| nanos == fan@.poll_interval_nanos
                ||| until_visible is Some && nanos == until_visible->Some_0
            }
        },
{
}

/// A poll that has to look at the clock to know how long to sleep reports a clock
/// that cannot be read; one that does not need it sleeps all the same.
pub proof fn law_sleep_needs_the_clock_only_for_deliveries(
    fan: &LiteFan,
    next_visible_at: Option<i64>,
    remaining: std::time::Duration,
    error: Error,
    result: Result<Option<std::time::Duration>, Error>,
)
    requires
        call_ensures(LiteFan::wait, (fan, next_visible_at, remaining, Err(error)), result),
    ensures
        result is Err <==> next_visible_at is Some && crate::time::duration_nanos(remaining) > 0,
        result is Err ==> result->Err_0 == error,
        crate::time::duration_nanos(remaining) == 0 ==> result is Ok && result->Ok_0 is None,
{
}

/// Which failure a claim reports, where there is anything to claim: a visible
/// delivery, or a message between the cursor and the end of what the consumer may
/// scan. A lease whose end cannot be stored comes first, then a limit that does
/// not fit, then a count or generation that has no next one. Where there is
/// nothing to claim none of this matters, and the claim succeeds empty-handed.
pub proof fn law_failures_of_a_claim(
    consumer: &Consumer,
    fan: &mut LiteFan,
    max_messages: usize,
    lease_ms: i64,
    now: i64,
    result: Result<Claim, Error>,
    i: int,
)
    requires
        old(fan)@.wf(),
        call_ensures(Consumer::claim, (consumer, fan, max_messages, lease_ms, Ok(now)), result),
        0 <= i < old(fan)@.consumers.len(),
        old(fan)@.consumers[i].id == consumer@.id,
    ensures
        ({
            let s = old(fan)@;
            let row = s.consumers[i];
            let end = match row.drain_cursor {
                Some(limit) => limit,
                None => if s.messages.len() == 0 {
                    0
                } else {
                    s.messages[s.messages.len() - 1].id
                },
            };
            let work = row.scan_cursor < end || exists|a: int|
                0 <= a < s.deliveries.len() && (#[trigger] s.deliveries[a]).consumer_id
                    == consumer@.id && s.deliveries[a].visible_at_ms <= now;
            let visible = s.deliveries.filter(
                |row: DeliveryRowView| row.consumer_id == consumer@.id && row.visible_at_ms <= now,
            ).len();
            let exhausted = exists|a: int|
                0 <= a < s.deliveries.len() && (#[trigger] s.deliveries[a]).consumer_id
                    == consumer@.id && s.deliveries[a].visible_at_ms <= now && (
                s.deliveries[a].generation == i64::MAX || s.deliveries[a].delivery_count
                    == i64::MAX);
            if !work {
                &&& result is Ok
                &&& result->Ok_0.deliveries@.len() == 0
                &&& final(fan)@ == s
            } else if !(i64::MIN <= now + lease_ms <= i64::MAX) {
                result is Err && result->Err_0 is DurationOutOfRange
            } else if max_messages > i64::MAX {
                &&& result matches Err(Error::InvalidPoll(text))
                &&& text@ == "max_messages is too large"@
            } else {
                &&& exhausted && visible <= max_messages ==> result is Err
                    && result->Err_0 is CounterOutOfRange
                &&& result is Err && !exhausted ==> result->Err_0 is StorageInvariant
            }
        }),
{
    let s = old(fan)@;
    let id = consumer@.id;
    let max = max_messages as nat;
    let p = crate::model::visible(id, now as int);
    let q = |row: DeliveryRowView| row.consumer_id == id && row.visible_at_ms <= now;
    crate::invariants::lemma_consumer(s, i);
    seqs::lemma_filter_same(s.deliveries, p, q);
    let rows = s.deliveries.filter(p);
    let retries = s.retries(id, now as int, max);
    assert forall|a: int| 0 <= a < s.deliveries.len() && q(#[trigger] s.deliveries[a]) implies {
        &&& rows.len() > 0
        &&& rows.len() <= max ==> retries.contains(s.deliveries[a])
    } by {
        let row = s.deliveries[a];
        assert(s.deliveries.contains(row));
        seqs::lemma_filter_member(s.deliveries, p, row);
        let k = choose|k: int| 0 <= k < rows.len() && rows[k] == row;
        if rows.len() <= max {
            crate::counting::lemma_filter_len_remove(rows, k, crate::model::ahead_of(row));
            Seq::lemma_filter_len(rows.remove(k), crate::model::ahead_of(row));
            assert(s.retried(id, now as int, max)(row));
            seqs::lemma_filter_member(s.deliveries, s.retried(id, now as int, max), row);
        }
    }
    if rows.len() > 0 {
        let a = seqs::lemma_filter_source(s.deliveries, p, 0);
        assert(q(s.deliveries[a]));
        assert(s.deliveries[a].consumer_id == id);
    }
    assert forall|k: int| 0 <= k < retries.len() implies exists|a: int|
        0 <= a < s.deliveries.len() && (#[trigger] s.deliveries[a]).consumer_id == id
            && s.deliveries[a].visible_at_ms <= now && s.deliveries[a] == #[trigger] retries[k] by {
        let a = crate::claims::lemma_retry_source(s, id, now as int, max, k);
        assert(s.deliveries[a].consumer_id == id);
    }
    if s.idle(id, now as int) {
        lemma_idle_claim(s, id, now as int, max, now + lease_ms);
        crate::claims::lemma_nothing_retried(s, id, now as int, max);
    } else if exists|a: int|
        0 <= a < s.deliveries.len() && (#[trigger] s.deliveries[a]).consumer_id == id
            && s.deliveries[a].visible_at_ms <= now && (s.deliveries[a].generation == i64::MAX
            || s.deliveries[a].delivery_count == i64::MAX) {
        let a = choose|a: int|
            0 <= a < s.deliveries.len() && (#[trigger] s.deliveries[a]).consumer_id == id
                && s.deliveries[a].visible_at_ms <= now && (s.deliveries[a].generation == i64::MAX
                || s.deliveries[a].delivery_count == i64::MAX);
        assert(q(s.deliveries[a]));
        if rows.len() <= max {
            let k = choose|k: int| 0 <= k < retries.len() && retries[k] == s.deliveries[a];
            assert(retries[k].generation == i64::MAX || retries[k].delivery_count == i64::MAX);
        }
    }
}

/// A delivery whose message is gone is not handed out. A claim that comes across
/// it reports that, and hands nothing out; the lease that it took stands.
pub proof fn law_missing_messages_are_reported(
    consumer: &Consumer,
    fan: &mut LiteFan,
    max_messages: usize,
    lease_ms: i64,
    now: i64,
    result: Result<Claim, Error>,
    a: int,
)
    requires
        old(fan)@.wf(),
        call_ensures(Consumer::claim, (consumer, fan, max_messages, lease_ms, Ok(now)), result),
        0 <= a < old(fan)@.deliveries.len(),
        old(fan)@.deliveries[a].consumer_id == consumer@.id,
        old(fan)@.deliveries[a].visible_at_ms <= now,
        forall|k: int|
            0 <= k < old(fan)@.messages.len() ==> (#[trigger] old(fan)@.messages[k]).id
                != old(fan)@.deliveries[a].message_id,
        old(fan)@.deliveries.filter(
            |row: DeliveryRowView| row.consumer_id == consumer@.id && row.visible_at_ms <= now,
        ).len() <= max_messages,
    ensures
        result is Err,
        final(fan)@ != old(fan)@ ==> {
            let row = old(fan)@.deliveries[a];
            &&& result matches Err(Error::StorageInvariant(text))
            &&& text@ == "a claimed delivery has no matching message"@
            &&& final(fan)@.deliveries[a] == (DeliveryRowView {
                visible_at_ms: now + lease_ms,
                generation: row.generation + 1,
                delivery_count: row.delivery_count + 1,
                ..row
            })
        },
{
    let s = old(fan)@;
    let id = consumer@.id;
    let max = max_messages as nat;
    let row = s.deliveries[a];
    let p = crate::model::visible(id, now as int);
    let q = |row: DeliveryRowView| row.consumer_id == id && row.visible_at_ms <= now;
    seqs::lemma_filter_same(s.deliveries, p, q);
    let rows = s.deliveries.filter(p);
    let retries = s.retries(id, now as int, max);
    assert(s.deliveries.contains(row));
    seqs::lemma_filter_member(s.deliveries, p, row);
    let k = choose|k: int| 0 <= k < rows.len() && rows[k] == row;
    crate::counting::lemma_filter_len_remove(rows, k, crate::model::ahead_of(row));
    Seq::lemma_filter_len(rows.remove(k), crate::model::ahead_of(row));
    assert(s.retried(id, now as int, max)(row));
    seqs::lemma_filter_member(s.deliveries, s.retried(id, now as int, max), row);
    let m = choose|m: int| 0 <= m < retries.len() && retries[m] == row;
    assert(!s.has_message(retries[m].message_id));
    assert(s.dangles(id, now as int, max));
}

} // verus!
