//! Workers: what those who share a consumer receive, over any history.
use vstd::prelude::*;

use crate::api::{DeliveryView, MessageView, PublishView};
use crate::laws::histories::Operation;
use crate::model::StoreView;
use crate::seqs;
use crate::tables::{ConsumerView, DeliveryRowView};

verus! {

/// Whether an operation is one that may change a delivery: a claim that finds it
/// visible, its own current receipt, or the deletion of its consumer.
pub open spec fn concerns(op: Operation, row: DeliveryRowView) -> bool {
    match op {
        Operation::Claim { id, now, .. } => id == row.consumer_id && row.visible_at_ms <= now,
        Operation::Ack { id, receipts } => crate::model::hit(id, receipts)(row),
        Operation::Nack { id, receipts, .. } => crate::model::hit(id, receipts)(row),
        Operation::Extend { id, receipts, .. } => crate::model::hit(id, receipts)(row),
        Operation::Archive { id, receipts, .. } => crate::model::hit(id, receipts)(row),
        Operation::Delete { id } => id == row.consumer_id,
        _ => false,
    }
}

/// A delivery only changes by its own receipt, by a claim that finds it visible,
/// or by the deletion of its consumer. Every other operation leaves it as it is.
pub proof fn law_deliveries_change_by_their_own(s: StoreView, op: Operation, a: int)
    requires
        s.wf(),
        op.possible(s),
        0 <= a < s.deliveries.len(),
        !concerns(op, s.deliveries[a]),
    ensures
        op.done(s).deliveries.contains(s.deliveries[a]),
{
    let t = op.done(s);
    let row = s.deliveries[a];
    assert(s.deliveries.contains(row));
    match op {
        Operation::Ack { id, receipts } => {
            seqs::lemma_filter_member(
                s.deliveries,
                crate::model::negate(crate::model::hit(id, receipts)),
                row,
            );
        },
        Operation::Archive { id, receipts, .. } => {
            seqs::lemma_filter_member(
                s.deliveries,
                crate::model::negate(crate::model::hit(id, receipts)),
                row,
            );
        },
        Operation::Delete { id } => {
            seqs::lemma_filter_member(
                s.deliveries,
                crate::model::negate(crate::model::belongs_to(id)),
                row,
            );
        },
        Operation::Publish { batch, now } => {
            crate::laws::publishing::law_publishing_appends(s, batch, now);
        },
        _ => {
            assert(t.deliveries[a] == row);
        },
    }
}

// Leased messages
/// Whether a consumer's copy of a message is out of reach until a time: the
/// consumer has scanned past the message, and its delivery is hidden or gone.
pub open spec fn out_of_reach(s: StoreView, id: int, message_id: int, until: int) -> bool {
    &&& id <= s.last_consumer_id
    &&& s.has_consumer(id) ==> message_id <= s.consumer(id).scan_cursor
    &&& forall|a: int|
        0 <= a < s.deliveries.len() && (#[trigger] s.deliveries[a]).consumer_id == id
            && s.deliveries[a].message_id == message_id ==> s.deliveries[a].visible_at_ms >= until
}

/// Whether an operation leaves a leased copy with its worker: no claim comes at
/// or after the end of the lease, and the copy is neither released nor brought
/// back to be visible before that.
pub open spec fn respects(
    s: StoreView,
    op: Operation,
    id: int,
    message_id: int,
    until: int,
) -> bool {
    match op {
        Operation::Claim { id: other, now, .. } => other == id ==> now < until,
        Operation::Nack { id: other, receipts, visible_at } => visible_at >= until
            || !crate::laws::receipts::touches(s, other, receipts, id, message_id),
        Operation::Redrive { id: other, ids, visible_at } => other == id ==> visible_at >= until
            || !crate::laws::archives::restores(s, id, ids, message_id),
        _ => true,
    }
}

/// A consumer keeps its identity through an operation, and its cursor does not
/// move back.
pub proof fn lemma_consumer_goes_on(s: StoreView, op: Operation, id: int)
    requires
        s.wf(),
        op.possible(s),
        id <= s.last_consumer_id,
        op.done(s).has_consumer(id),
    ensures
        s.has_consumer(id),
        op.done(s).consumer(id).scan_cursor >= s.consumer(id).scan_cursor,
        op.done(s).consumer(id).filter == s.consumer(id).filter,
{
    let t = op.done(s);
    crate::laws::histories::law_operations_keep_consistency(s, op);
    let i = t.consumer_index(id);
    assert(t.consumers[i].id == id);
    crate::invariants::lemma_consumer(t, i);
    match op {
        Operation::Open { name, filter, now } => {
            if !s.has_name(name) {
                assert(i < s.consumers.len());
            }
            assert(s.consumers[i].id == id);
            crate::invariants::lemma_consumer(s, i);
        },
        Operation::Drain { id: other, now } => {
            assert(s.consumers[i].id == id);
            crate::invariants::lemma_consumer(s, i);
        },
        Operation::Claim { id: other, now, max, deadline } => {
            let k = s.consumer_index(other);
            assert(s.consumers[k].id == other);
            crate::claims::lemma_advanced_cursor(s, other, now, max);
            assert(s.consumers[i].id == id);
            crate::invariants::lemma_consumer(s, i);
        },
        Operation::Delete { id: other } => {
            let a = seqs::lemma_filter_source(
                s.consumers,
                crate::model::other_than(other),
                i,
            );
            assert(s.consumers[a].id == id);
            crate::invariants::lemma_consumer(s, a);
        },
        Operation::Publish { batch, now } => {
            crate::laws::publishing::law_publishing_appends(s, batch, now);
            assert(s.consumers[i].id == id);
            crate::invariants::lemma_consumer(s, i);
        },
        _ => {
            assert(s.consumers[i].id == id);
            crate::invariants::lemma_consumer(s, i);
        },
    }
}

/// What is out of reach stays so through an operation that respects it.
pub proof fn law_out_of_reach_stays(
    s: StoreView,
    op: Operation,
    id: int,
    message_id: int,
    until: int,
)
    requires
        s.wf(),
        op.possible(s),
        out_of_reach(s, id, message_id, until),
        respects(s, op, id, message_id, until),
    ensures
        out_of_reach(op.done(s), id, message_id, until),
{
    let t = op.done(s);
    crate::laws::histories::law_identifiers_only_grow(s, op);
    if t.has_consumer(id) {
        lemma_consumer_goes_on(s, op, id);
    }
    assert forall|a: int|
        0 <= a < t.deliveries.len() && (#[trigger] t.deliveries[a]).consumer_id == id
            && t.deliveries[a].message_id == message_id implies t.deliveries[a].visible_at_ms
        >= until by {
        lemma_row_out_of_reach(s, op, id, message_id, until, a);
    }
}

proof fn lemma_row_out_of_reach(
    s: StoreView,
    op: Operation,
    id: int,
    message_id: int,
    until: int,
    a: int,
)
    requires
        s.wf(),
        op.possible(s),
        out_of_reach(s, id, message_id, until),
        respects(s, op, id, message_id, until),
        0 <= a < op.done(s).deliveries.len(),
        op.done(s).deliveries[a].consumer_id == id,
        op.done(s).deliveries[a].message_id == message_id,
    ensures
        op.done(s).deliveries[a].visible_at_ms >= until,
{
    let t = op.done(s);
    let n = s.deliveries.len() as int;
    match op {
        Operation::Claim { id: other, now, max, deadline } => {
            if a < n {
                assert(s.deliveries[a].consumer_id == id);
            } else if !s.idle(other, now) {
                let b = crate::claims::lemma_fresh_source(s, other, now, max, a - n);
                assert(t.deliveries[a].consumer_id == other);
                assert(t.deliveries[a].message_id == s.messages[b].id);
            }
        },
        Operation::Ack { id: other, receipts } => {
            let b = seqs::lemma_filter_source(
                s.deliveries,
                crate::model::negate(crate::model::hit(other, receipts)),
                a,
            );
            assert(s.deliveries[b].consumer_id == id);
        },
        Operation::Archive { id: other, receipts, .. } => {
            let b = seqs::lemma_filter_source(
                s.deliveries,
                crate::model::negate(crate::model::hit(other, receipts)),
                a,
            );
            assert(s.deliveries[b].consumer_id == id);
        },
        Operation::Delete { id: other } => {
            let b = seqs::lemma_filter_source(
                s.deliveries,
                crate::model::negate(crate::model::belongs_to(other)),
                a,
            );
            assert(s.deliveries[b].consumer_id == id);
        },
        Operation::Redrive { id: other, ids, visible_at } => {
            if a < n {
                assert(s.deliveries[a].consumer_id == id);
            } else {
                let b = seqs::lemma_filter_source(
                    s.archives,
                    crate::model::chosen(other, ids),
                    a - n,
                );
                assert(crate::model::chosen(other, ids)(s.archives[b]));
            }
        },
        Operation::Publish { batch, now } => {
            crate::laws::publishing::law_publishing_appends(s, batch, now);
            assert(s.deliveries[a].consumer_id == id);
        },
        Operation::Nack { id: other, receipts, visible_at } => {
            assert(s.deliveries[a].consumer_id == id);
            if crate::model::hit(other, receipts)(s.deliveries[a]) {
                assert(crate::laws::receipts::touches(s, other, receipts, id, message_id));
            }
        },
        _ => {
            assert(s.deliveries[a].consumer_id == id);
        },
    }
}

/// Whether every operation of a history leaves a leased copy with its worker.
pub open spec fn history_respects(
    s: StoreView,
    history: Seq<Operation>,
    id: int,
    message_id: int,
    until: int,
) -> bool {
    forall|p: int|
        0 <= p < history.len() ==> respects(
            crate::laws::histories::run(s, history.take(p)),
            #[trigger] history[p],
            id,
            message_id,
            until,
        )
}

proof fn lemma_stays_out_of_reach(
    s: StoreView,
    history: Seq<Operation>,
    id: int,
    message_id: int,
    until: int,
    n: int,
)
    requires
        s.wf(),
        crate::laws::histories::runs(s, history),
        history_respects(s, history, id, message_id, until),
        out_of_reach(s, id, message_id, until),
        0 <= n <= history.len(),
    ensures
        out_of_reach(
            crate::laws::histories::run(s, history.take(n)),
            id,
            message_id,
            until,
        ),
    decreases n,
{
    if n == 0 {
        assert(history.take(0) =~= Seq::empty());
    } else {
        lemma_stays_out_of_reach(s, history, id, message_id, until, n - 1);
        crate::laws::histories::law_histories_keep_consistency(s, history, n - 1);
        crate::laws::histories::lemma_run_step(s, history, n - 1);
        let t = crate::laws::histories::run(s, history.take(n - 1));
        let op = history[n - 1];
        assert(op.possible(t));
        assert(respects(t, op, id, message_id, until));
        law_out_of_reach_stays(t, op, id, message_id, until);
    }
}

/// A claim hands out nothing that is out of reach when it comes.
pub proof fn law_out_of_reach_is_not_handed_out(
    s: StoreView,
    id: int,
    now: int,
    max: nat,
    deadline: int,
    message_id: int,
    until: int,
    j: int,
)
    requires
        s.wf(),
        s.has_consumer(id),
        out_of_reach(s, id, message_id, until),
        now < until,
        0 <= j < s.claimed_deliveries(id, now, max, deadline).len(),
    ensures
        s.claimed_deliveries(id, now, max, deadline)[j].message.id != message_id,
{
    crate::laws::claiming::lemma_handed_out_source(s, id, now, max, deadline, j);
}

/// Workers that share a consumer do not receive the same message while its lease
/// runs. However many workers claim, and whatever else happens in between: as
/// long as the lease has not ended and the delivery is not released, no later
/// claim hands the message out again.
pub proof fn law_workers_do_not_share(
    s: StoreView,
    id: int,
    now: int,
    max: nat,
    deadline: int,
    i: int,
    history: Seq<Operation>,
    later: int,
    later_max: nat,
    later_deadline: int,
    j: int,
)
    requires
        s.consistent(),
        s.has_consumer(id),
        0 <= i < s.claimed_deliveries(id, now, max, deadline).len(),
        crate::laws::histories::runs(s.claimed(id, now, max, deadline), history),
        history_respects(
            s.claimed(id, now, max, deadline),
            history,
            id,
            s.claimed_deliveries(id, now, max, deadline)[i].message.id,
            deadline,
        ),
        crate::laws::histories::run(s.claimed(id, now, max, deadline), history).has_consumer(id),
        later < deadline,
        0 <= j < crate::laws::histories::run(
            s.claimed(id, now, max, deadline),
            history,
        ).claimed_deliveries(id, later, later_max, later_deadline).len(),
    ensures
        s.claimed_deliveries(id, now, max, deadline)[i].message.id
            != crate::laws::histories::run(
            s.claimed(id, now, max, deadline),
            history,
        ).claimed_deliveries(id, later, later_max, later_deadline)[j].message.id,
{
    let t = s.claimed(id, now, max, deadline);
    let n = history.len() as int;
    let delivery = s.claimed_deliveries(id, now, max, deadline)[i];
    let message_id = delivery.message.id;
    crate::claims::lemma_claim_agrees(s, id, now, max);
    crate::claims::lemma_claimed_wf(s, id, now, max, deadline);
    crate::laws::claiming::law_claim_hands_out_leases(s, id, now, max, deadline);
    let row = DeliveryRowView {
        consumer_id: id,
        message_id,
        visible_at_ms: deadline,
        generation: delivery.receipt.generation,
        delivery_count: delivery.delivery_count,
    };
    let a = choose|a: int| 0 <= a < t.deliveries.len() && t.deliveries[a] == row;
    assert(t.is_copy(t.deliveries[a].consumer_id, t.deliveries[a].message_id));
    let index = t.consumer_index(id);
    assert(t.consumers[index].id == id);
    assert(t.consumer_wf(t.consumers[index]));
    assert forall|b: int|
        0 <= b < t.deliveries.len() && (#[trigger] t.deliveries[b]).consumer_id == id
            && t.deliveries[b].message_id == message_id implies t.deliveries[b].visible_at_ms
        >= deadline by {
        if a < b {
            assert(t.deliveries[a].consumer_id != t.deliveries[b].consumer_id
                || t.deliveries[a].message_id != t.deliveries[b].message_id);
        } else if b < a {
            assert(t.deliveries[b].consumer_id != t.deliveries[a].consumer_id
                || t.deliveries[b].message_id != t.deliveries[a].message_id);
        }
    }
    lemma_stays_out_of_reach(t, history, id, message_id, deadline, n);
    crate::laws::histories::law_histories_keep_consistency(t, history, n);
    assert(history.take(n) =~= history);
    law_out_of_reach_is_not_handed_out(
        crate::laws::histories::run(t, history),
        id,
        later,
        later_max,
        later_deadline,
        message_id,
        deadline,
        j,
    );
}

// The inbox as a queue
/// The messages that a consumer has yet to receive for the first time.
pub open spec fn queue(s: StoreView, id: int) -> Seq<MessageView> {
    s.unscanned(s.consumer(id))
}

/// The messages that a consumer is meant to receive.
pub open spec fn meant_for(consumer: ConsumerView) -> spec_fn(MessageView) -> bool {
    |message: MessageView|
        consumer.draining_at_ms is None && crate::model::topic_matches(
            consumer.filter,
            message.topic,
        )
}

/// The messages that an operation publishes for a consumer.
pub open spec fn arrived(s: StoreView, op: Operation, id: int) -> Seq<MessageView> {
    match op {
        Operation::Publish { batch, now } => s.published(batch, now).messages.skip(
            s.messages.len() as int,
        ).filter(meant_for(s.consumer(id))),
        _ => Seq::empty(),
    }
}

/// What an operation hands out to the workers of a consumer.
pub open spec fn handed(s: StoreView, op: Operation, id: int) -> Seq<DeliveryView> {
    match op {
        Operation::Claim { id: other, now, max, deadline } => if other == id {
            s.claimed_deliveries(id, now, max, deadline)
        } else {
            Seq::empty()
        },
        _ => Seq::empty(),
    }
}

/// Whether an operation leaves the order of a consumer's inbox alone: no claim
/// finds a lease that has ended or a delivery that was released, and the consumer
/// is not deleted.
pub open spec fn undisturbed(s: StoreView, op: Operation, id: int) -> bool {
    match op {
        Operation::Claim { id: other, now, .. } => other == id ==> s.deliveries.filter(
            crate::model::visible(id, now),
        ).len() == 0,
        Operation::Delete { id: other } => other != id,
        _ => true,
    }
}

/// Whether identifiers ascend.
pub open spec fn ascending(messages: Seq<MessageView>) -> bool {
    forall|i: int, j: int|
        0 <= i < j < messages.len() ==> (#[trigger] messages[i]).id < (#[trigger] messages[j]).id
}

/// Splitting ascending messages at an identifier splits the sequence.
proof fn lemma_split(messages: Seq<MessageView>, n: int)
    requires
        ascending(messages),
        0 < n <= messages.len(),
    ensures
        messages.filter(|message: MessageView| message.id <= messages[n - 1].id)
            == messages.take(n),
        messages.filter(|message: MessageView| message.id > messages[n - 1].id)
            == messages.skip(n),
{
    let low = |message: MessageView| message.id <= messages[n - 1].id;
    let high = |message: MessageView| message.id > messages[n - 1].id;
    let left = messages.take(n);
    let right = messages.skip(n);
    seqs::lemma_filter_prefix(messages, n, low);
    seqs::lemma_filter_prefix(messages, n, high);
    assert forall|k: int| 0 <= k < left.len() implies low(#[trigger] left[k]) && !high(
        left[k],
    ) by {
        assert(left[k] == messages[k]);
        if k < n - 1 {
            assert(messages[k].id < messages[n - 1].id);
        }
    }
    assert forall|k: int| 0 <= k < right.len() implies !low(#[trigger] right[k]) && high(
        right[k],
    ) by {
        assert(right[k] == messages[n + k]);
        assert(messages[n - 1].id < messages[n + k].id);
    }
    seqs::lemma_filter_all(left, low);
    seqs::lemma_filter_none(left, high);
    seqs::lemma_filter_none(right, low);
    seqs::lemma_filter_all(right, high);
    assert(messages.filter(low) =~= left);
    assert(messages.filter(high) =~= right);
}

/// What a consumer has yet to receive is in the order of the log.
proof fn lemma_queue_ascends(s: StoreView, id: int)
    requires
        s.wf(),
    ensures
        ascending(queue(s, id)),
{
    let p = s.consumer(id).wanted();
    let q = queue(s, id);
    assert forall|i: int, j: int| 0 <= i < j < q.len() implies (#[trigger] q[i]).id < (
    #[trigger] q[j]).id by {
        let (a, b) = seqs::lemma_filter_sources(s.messages, p, i, j);
        assert(s.messages[a].id < s.messages[b].id);
    }
}

/// A claim that finds nothing to retry takes the first messages of the queue, in
/// their order and each for the first time, and leaves exactly the others.
pub proof fn law_claim_takes_the_head(s: StoreView, id: int, now: int, max: nat, deadline: int)
    requires
        s.wf(),
        s.has_consumer(id),
        !s.collides(id, now, max),
        s.deliveries.filter(crate::model::visible(id, now)).len() == 0,
    ensures
        ({
            let t = s.claimed(id, now, max, deadline);
            let taken = crate::model::first(queue(s, id), max);
            let deliveries = s.claimed_deliveries(id, now, max, deadline);
            &&& deliveries.len() == taken.len()
            &&& forall|j: int|
                0 <= j < taken.len() ==> (#[trigger] deliveries[j]).message == taken[j]
                    && deliveries[j].delivery_count == 1
            &&& t.has_consumer(id)
            &&& queue(t, id) == queue(s, id).skip(taken.len() as int)
        }),
{
    let t = s.claimed(id, now, max, deadline);
    let q = queue(s, id);
    let taken = crate::model::first(q, max);
    let n = taken.len() as int;
    let leases = s.leases(id, now, max, deadline);
    let deliveries = s.claimed_deliveries(id, now, max, deadline);
    crate::counting::lemma_retries(s, id, now, max);
    assert(s.retries(id, now, max).len() == 0);
    assert(s.fresh(id, now, max) == taken);
    crate::laws::claiming::law_claim_takes_what_is_ready(s, id, now, max, deadline);
    lemma_queue_ascends(s, id);
    lemma_leased_head(s, id, now, max, deadline);
    assert forall|j: int| 0 <= j < n implies (#[trigger] deliveries[j]).message == taken[j]
        && deliveries[j].delivery_count == 1 by {
        assert(deliveries[j] == crate::model::handed_out(leases, taken[j]));
        assert(leases[j].message_id == taken[j].id);
        let i = choose|i: int|
            0 <= i < leases.len() && #[trigger] leases[i].message_id == taken[j].id;
        assert(leases[i].delivery_count == 1);
    }
    lemma_queue_left(s, id, now, max, deadline);
}

/// The messages that such a claim leases are the head of the queue.
proof fn lemma_leased_head(s: StoreView, id: int, now: int, max: nat, deadline: int)
    requires
        s.wf(),
        s.has_consumer(id),
        s.retries(id, now, max).len() == 0,
    ensures
        s.messages.filter(crate::model::leased_in(s.leases(id, now, max, deadline)))
            == crate::model::first(queue(s, id), max),
{
    let q = queue(s, id);
    let taken = crate::model::first(q, max);
    let n = taken.len() as int;
    let wanted = s.consumer(id).wanted();
    let leases = s.leases(id, now, max, deadline);
    let p = crate::model::leased_in(leases);
    lemma_queue_ascends(s, id);
    assert(leases.len() == n);
    assert forall|j: int| 0 <= j < n implies (#[trigger] leases[j]).message_id == taken[j].id by {}
    if n == 0 {
        assert forall|k: int| 0 <= k < s.messages.len() implies !p(#[trigger] s.messages[k]) by {}
        seqs::lemma_filter_none(s.messages, p);
        assert(taken =~= Seq::empty());
    } else {
        let low = |message: MessageView| message.id <= q[n - 1].id;
        lemma_split(q, n);
        assert forall|k: int| 0 <= k < s.messages.len() implies p(#[trigger] s.messages[k]) == (
        wanted(s.messages[k]) && low(s.messages[k])) by {
            let message = s.messages[k];
            if p(message) {
                let j = choose|j: int|
                    0 <= j < leases.len() && #[trigger] leases[j].message_id == message.id;
                let a = seqs::lemma_filter_source(s.messages, wanted, j);
                crate::invariants::lemma_message(s, k);
                crate::invariants::lemma_message(s, a);
                assert(q[j] == message);
                if j < n - 1 {
                    assert(q[j].id < q[n - 1].id);
                }
            }
            if wanted(message) && low(message) {
                assert(s.messages.contains(message));
                seqs::lemma_filter_member(s.messages, wanted, message);
                let j = choose|j: int| 0 <= j < q.len() && q[j] == message;
                if j >= n {
                    assert(q[n - 1].id < q[j].id);
                }
                assert(leases[j].message_id == message.id);
            }
        }
        crate::counting::lemma_filter_filter(s.messages, wanted, low, p);
        assert(taken =~= q.take(n));
    }
}

/// Such a claim leaves the rest of the queue.
proof fn lemma_queue_left(s: StoreView, id: int, now: int, max: nat, deadline: int)
    requires
        s.wf(),
        s.has_consumer(id),
        !s.collides(id, now, max),
        s.retries(id, now, max).len() == 0,
    ensures
        s.claimed(id, now, max, deadline).has_consumer(id),
        queue(s.claimed(id, now, max, deadline), id) == queue(s, id).skip(
            crate::model::first(queue(s, id), max).len() as int,
        ),
{
    let t = s.claimed(id, now, max, deadline);
    let q = queue(s, id);
    let taken = crate::model::first(q, max);
    let n = taken.len() as int;
    let index = s.consumer_index(id);
    let wanted = s.consumer(id).wanted();
    assert(s.consumers[index].id == id);
    assert(s.consumer_wf(s.consumers[index]));
    crate::claims::lemma_claimed_wf(s, id, now, max, deadline);
    crate::claims::lemma_advanced_cursor(s, id, now, max);
    assert(t.consumers[index].id == id);
    crate::invariants::lemma_consumer(t, index);
    let rest = t.consumer(id).wanted();
    assert(s.room(id, now, max) == max);
    assert(s.fresh(id, now, max) == taken);
    if n < max {
        assert(t.high_water() == s.high_water());
        assert(t.scan_limit(t.consumers[index]) == s.scan_limit(s.consumer(id)));
        crate::claims::lemma_nothing_ahead(t, index);
        assert(n == q.len());
        assert(q.skip(n) =~= Seq::empty());
    } else if max == 0 {
        assert(q.skip(0) =~= q);
    } else {
        let a = seqs::lemma_filter_source(s.messages, wanted, n - 1);
        crate::invariants::lemma_high_water(s, a);
        assert(q[n - 1] == taken.last());
        assert(s.advanced_cursor(id, now, max) == q[n - 1].id);
        lemma_queue_ascends(s, id);
        lemma_split(q, n);
        let high = |message: MessageView| message.id > q[n - 1].id;
        assert forall|k: int| 0 <= k < s.messages.len() implies rest(#[trigger] s.messages[k])
            == (wanted(s.messages[k]) && high(s.messages[k])) by {}
        crate::counting::lemma_filter_filter(s.messages, wanted, high, rest);
    }
}

/// Nothing that other operations do changes what a consumer has yet to receive.
proof fn lemma_queue_kept(s: StoreView, op: Operation, id: int)
    requires
        s.consistent(),
        op.possible(s),
        s.has_consumer(id),
        undisturbed(s, op, id),
        op !is Publish,
        op matches Operation::Claim { id: other, .. } ==> other != id,
    ensures
        op.done(s).has_consumer(id),
        queue(op.done(s), id) == queue(s, id),
{
    let t = op.done(s);
    let index = s.consumer_index(id);
    assert(s.consumers[index].id == id);
    crate::laws::histories::law_operations_keep_consistency(s, op);
    match op {
        Operation::Delete { id: other } => {
            crate::invariants::lemma_other_consumer(s, other, id);
        },
        Operation::Drain { id: other, now } => {
            let k = s.consumer_index(other);
            assert(s.consumers[k].id == other);
            assert(s.consumer_agrees(s.consumers[k]));
            assert(t.consumers[index].id == id);
            crate::invariants::lemma_consumer(t, index);
            let p = s.consumer(id).wanted();
            let q = t.consumer(id).wanted();
            assert forall|m: int| 0 <= m < s.messages.len() implies p(#[trigger] s.messages[m])
                == q(s.messages[m]) by {
                crate::invariants::lemma_high_water(s, m);
            }
            seqs::lemma_filter_same(s.messages, p, q);
        },
        Operation::Prune { before_ms, max } => {
            let p = s.consumer(id).wanted();
            let kept = crate::model::outside(s.doomed(before_ms, max));
            assert(t.consumers[index].id == id);
            crate::invariants::lemma_consumer(t, index);
            assert forall|m: int| 0 <= m < s.messages.len() implies p(#[trigger] s.messages[m])
                == (kept(s.messages[m]) && p(s.messages[m])) by {
                let message = s.messages[m];
                if p(message) && s.doomed(before_ms, max).contains(message) {
                    crate::invariants::lemma_doomed(s, before_ms, max, message);
                    assert(s.consumers[index].wants(message));
                }
            }
            crate::counting::lemma_filter_filter(s.messages, kept, p, p);
        },
        Operation::Claim { id: other, .. } => {
            let k = s.consumer_index(other);
            assert(s.consumers[k].id == other);
            assert(t.consumers[index].id == id);
            crate::invariants::lemma_consumer(t, index);
        },
        _ => {
            assert(t.consumers[index].id == id);
            crate::invariants::lemma_consumer(t, index);
        },
    }
}

/// Publishing appends to the queue what is meant for the consumer.
proof fn lemma_queue_grows(s: StoreView, batch: Seq<PublishView>, now: int, id: int)
    requires
        s.consistent(),
        s.publish_error(batch, Ok(now)) is None,
        s.has_consumer(id),
    ensures
        s.published(batch, now).has_consumer(id),
        queue(s.published(batch, now), id) == queue(s, id) + arrived(
            s,
            Operation::Publish { batch, now },
            id,
        ),
{
    let t = s.published(batch, now);
    let index = s.consumer_index(id);
    let n = s.messages.len() as int;
    let fresh = t.messages.skip(n);
    assert(s.consumers[index].id == id);
    assert(s.consumer_agrees(s.consumers[index]));
    crate::laws::publishing::law_publishing_appends(s, batch, now);
    crate::laws::publishing::law_publishing_keeps_consistency(s, batch, now);
    assert(t.consumers[index].id == id);
    crate::invariants::lemma_consumer(t, index);
    let p = s.consumer(id).wanted();
    seqs::lemma_filter_prefix(t.messages, n, p);
    assert(t.messages.take(n) =~= s.messages);
    assert forall|k: int| 0 <= k < fresh.len() implies p(#[trigger] fresh[k]) == meant_for(
        s.consumer(id),
    )(fresh[k]) by {
        assert(fresh[k] == t.messages[n + k]);
    }
    seqs::lemma_filter_same(fresh, p, meant_for(s.consumer(id)));
}

/// An inbox is a queue. As long as no lease ends unacknowledged and nothing is
/// released, what an operation hands out to the workers of a consumer is the head
/// of its queue, in order and each message for the first time; what it publishes
/// for the consumer goes to the end; and nothing else changes the queue, whatever
/// other consumers do and whatever is pruned.
pub proof fn law_inbox_is_a_queue(s: StoreView, op: Operation, id: int)
    requires
        s.consistent(),
        op.possible(s),
        s.has_consumer(id),
        undisturbed(s, op, id),
    ensures
        ({
            let t = op.done(s);
            let out = handed(s, op, id);
            &&& t.has_consumer(id)
            &&& queue(s, id) + arrived(s, op, id) == messages_of(out) + queue(t, id)
            &&& forall|j: int| 0 <= j < out.len() ==> (#[trigger] out[j]).delivery_count == 1
            &&& op matches Operation::Claim { max, .. } ==> out.len() <= max
        }),
{
    let t = op.done(s);
    let out = handed(s, op, id);
    match op {
        Operation::Publish { batch, now } => {
            lemma_queue_grows(s, batch, now, id);
            assert(messages_of(out) =~= Seq::empty());
            assert(Seq::<MessageView>::empty() + queue(t, id) =~= queue(t, id));
        },
        Operation::Claim { id: other, now, max, deadline } if other == id => {
            let q = queue(s, id);
            let taken = crate::model::first(q, max);
            law_claim_takes_the_head(s, id, now, max, deadline);
            assert(messages_of(out) =~= taken);
            assert(q + Seq::<MessageView>::empty() =~= taken + q.skip(taken.len() as int));
            if s.idle(id, now) {
                let index = s.consumer_index(id);
                assert(s.consumers[index].id == id);
                crate::claims::lemma_nothing_ahead(s, index);
                assert(q.skip(taken.len() as int) =~= q);
            }
        },
        _ => {
            lemma_queue_kept(s, op, id);
            assert(messages_of(out) =~= Seq::empty());
            assert(queue(s, id) + Seq::<MessageView>::empty() =~= Seq::<MessageView>::empty()
                + queue(t, id));
        },
    }
}

/// The messages of deliveries.
pub open spec fn messages_of(deliveries: Seq<DeliveryView>) -> Seq<MessageView> {
    deliveries.map_values(|delivery: DeliveryView| delivery.message)
}

/// Everything that a history hands out to the workers of a consumer, in order.
pub open spec fn received(s: StoreView, history: Seq<Operation>, id: int) -> Seq<DeliveryView>
    decreases history.len(),
{
    if history.len() == 0 {
        Seq::empty()
    } else {
        let earlier = history.drop_last();
        received(s, earlier, id) + handed(
            crate::laws::histories::run(s, earlier),
            history.last(),
            id,
        )
    }
}

/// Everything that a history publishes for a consumer, in order.
pub open spec fn arrivals(s: StoreView, history: Seq<Operation>, id: int) -> Seq<MessageView>
    decreases history.len(),
{
    if history.len() == 0 {
        Seq::empty()
    } else {
        let earlier = history.drop_last();
        arrivals(s, earlier, id) + arrived(
            crate::laws::histories::run(s, earlier),
            history.last(),
            id,
        )
    }
}

/// Whether no operation of a history disturbs the order of a consumer's inbox.
pub open spec fn history_undisturbed(s: StoreView, history: Seq<Operation>, id: int) -> bool {
    forall|p: int|
        0 <= p < history.len() ==> undisturbed(
            crate::laws::histories::run(s, history.take(p)),
            #[trigger] history[p],
            id,
        )
}

/// Over a whole history, what was waiting and what arrived is what was received
/// and what is still waiting: in one order, nothing twice and nothing lost.
pub proof fn law_nothing_lost_and_nothing_twice(
    s: StoreView,
    history: Seq<Operation>,
    id: int,
    n: int,
)
    requires
        s.consistent(),
        s.has_consumer(id),
        crate::laws::histories::runs(s, history),
        history_undisturbed(s, history, id),
        0 <= n <= history.len(),
    ensures
        ({
            let part = history.take(n);
            let t = crate::laws::histories::run(s, part);
            let all = received(s, part, id);
            &&& t.has_consumer(id)
            &&& queue(s, id) + arrivals(s, part, id) == messages_of(all) + queue(t, id)
            &&& forall|j: int| 0 <= j < all.len() ==> (#[trigger] all[j]).delivery_count == 1
        }),
    decreases n,
{
    if n == 0 {
        assert(history.take(0) =~= Seq::empty());
        assert(messages_of(Seq::empty()) =~= Seq::empty());
        assert(queue(s, id) + Seq::<MessageView>::empty() =~= Seq::<MessageView>::empty() + queue(
            s,
            id,
        ));
    } else {
        law_nothing_lost_and_nothing_twice(s, history, id, n - 1);
        crate::laws::histories::law_histories_keep_consistency(s, history, n - 1);
        crate::laws::histories::lemma_run_step(s, history, n - 1);
        let earlier = history.take(n - 1);
        let part = history.take(n);
        let op = history[n - 1];
        let u = crate::laws::histories::run(s, earlier);
        let t = crate::laws::histories::run(s, part);
        assert(part.drop_last() =~= earlier);
        assert(part.last() == op);
        assert(op.possible(u));
        assert(undisturbed(u, op, id));
        law_inbox_is_a_queue(u, op, id);
        let before = received(s, earlier, id);
        let out = handed(u, op, id);
        assert(messages_of(before + out) =~= messages_of(before) + messages_of(out));
        assert(queue(s, id) + (arrivals(s, earlier, id) + arrived(u, op, id)) =~= (queue(s, id)
            + arrivals(s, earlier, id)) + arrived(u, op, id));
        assert((messages_of(before) + queue(u, id)) + arrived(u, op, id) =~= messages_of(before)
            + (queue(u, id) + arrived(u, op, id)));
        assert(messages_of(before) + (messages_of(out) + queue(t, id)) =~= messages_of(
            before + out,
        ) + queue(t, id));
        assert forall|j: int| 0 <= j < (before + out).len() implies (
        #[trigger] (before + out)[j]).delivery_count == 1 by {
            if j < before.len() {
                assert((before + out)[j] == before[j]);
            } else {
                assert((before + out)[j] == out[j - before.len()]);
            }
        }
    }
}

/// However many workers share a consumer, no two of their polls hand out the same
/// message as long as no lease ends unacknowledged and nothing is released: all
/// that they receive together ascends in the order of the log.
pub proof fn law_workers_receive_in_order(s: StoreView, history: Seq<Operation>, id: int)
    requires
        s.consistent(),
        s.has_consumer(id),
        crate::laws::histories::runs(s, history),
        history_undisturbed(s, history, id),
    ensures
        ascending(messages_of(received(s, history, id))),
{
    let n = history.len() as int;
    let waiting = queue(s, id);
    let more = arrivals(s, history, id);
    let all = messages_of(received(s, history, id));
    let both = waiting + more;
    assert(history.take(n) =~= history);
    law_nothing_lost_and_nothing_twice(s, history, id, n);
    lemma_arrivals(s, history, id, s.consumer(id).filter, n);
    lemma_queue_ascends(s, id);
    let end = crate::laws::histories::run(s, history);
    assert(both == all + queue(end, id));
    assert(all.len() <= both.len());
    assert forall|i: int, j: int| 0 <= i < j < all.len() implies (#[trigger] all[i]).id < (
    #[trigger] all[j]).id by {
        assert(all[i] == (all + queue(end, id))[i]);
        assert(all[j] == (all + queue(end, id))[j]);
        assert(all[i] == both[i]);
        assert(all[j] == both[j]);
        if j < waiting.len() {
            assert(both[i] == waiting[i]);
            assert(both[j] == waiting[j]);
        } else if i < waiting.len() {
            let a = seqs::lemma_filter_source(s.messages, s.consumer(id).wanted(), i);
            assert(s.messages[a].id <= s.last_message_id);
            assert(both[i] == waiting[i]);
            assert(both[j] == more[j - waiting.len()]);
        } else {
            assert(both[i] == more[i - waiting.len()]);
            assert(both[j] == more[j - waiting.len()]);
        }
    }
}

/// A new consumer receives everything that is published for it, once and in
/// order. Its workers poll, and acknowledge in time, until a poll hands out
/// nothing: then all that they received together is exactly what was published
/// for the consumer since it was opened, in the order of the log, each message
/// once and for the first time. What other consumers do in between, and what is
/// pruned, makes no difference.
pub proof fn law_consumers_receive_everything_once(
    s: StoreView,
    name: Seq<char>,
    filter: Option<Seq<char>>,
    now: int,
    history: Seq<Operation>,
)
    requires
        s.consistent(),
        !s.has_name(name),
        s.last_consumer_id < i64::MAX,
        crate::laws::histories::runs(s.opened(name, filter, now), history),
        history_undisturbed(s.opened(name, filter, now), history, s.last_consumer_id + 1),
        history.len() > 0,
        history.last() matches Operation::Claim { id, max, .. } && id == s.last_consumer_id + 1
            && max > 0,
        handed(
            crate::laws::histories::run(s.opened(name, filter, now), history.drop_last()),
            history.last(),
            s.last_consumer_id + 1,
        ).len() == 0,
    ensures
        ({
            let t = s.opened(name, filter, now);
            let id = s.last_consumer_id + 1;
            let all = received(t, history, id);
            &&& messages_of(all) == arrivals(t, history, id)
            &&& ascending(messages_of(all))
            &&& forall|j: int|
                0 <= j < all.len() ==> {
                    &&& (#[trigger] all[j]).delivery_count == 1
                    &&& all[j].message.id > s.last_message_id
                    &&& crate::model::topic_matches(filter, all[j].message.topic)
                }
        }),
{
    let t = s.opened(name, filter, now);
    let id = s.last_consumer_id + 1;
    let n = history.len() as int;
    let index = s.consumers.len() as int;
    crate::invariants::lemma_high_water_agrees(s);
    crate::invariants::lemma_opened_wf(s, name, filter, now);
    assert(t.consumers[index].id == id);
    crate::invariants::lemma_consumer(t, index);
    // The queue of a new consumer is empty.
    let p = t.consumer(id).wanted();
    assert forall|k: int| 0 <= k < t.messages.len() implies !p(#[trigger] t.messages[k]) by {
        crate::invariants::lemma_high_water(s, k);
    }
    seqs::lemma_filter_none(t.messages, p);
    law_nothing_lost_and_nothing_twice(t, history, id, n);
    assert(history.take(n) =~= history);
    // The last poll came to an empty queue.
    law_nothing_lost_and_nothing_twice(t, history, id, n - 1);
    crate::laws::histories::law_histories_keep_consistency(t, history, n - 1);
    assert(history.take(n - 1) =~= history.drop_last());
    let u = crate::laws::histories::run(t, history.drop_last());
    let op = history[n - 1];
    assert(op == history.last());
    assert(op.possible(u));
    assert(undisturbed(u, op, id));
    if let Operation::Claim { id: other, now: time, max, deadline } = op {
        law_claim_takes_the_head(u, id, time, max, deadline);
        assert(queue(u, id).len() == 0);
        law_inbox_is_a_queue(u, op, id);
        crate::laws::histories::lemma_run_step(t, history, n - 1);
    }
    let all = received(t, history, id);
    let end = crate::laws::histories::run(t, history);
    assert(queue(end, id).len() == 0);
    assert(messages_of(all) + queue(end, id) =~= messages_of(all));
    assert(queue(t, id) + arrivals(t, history, id) =~= arrivals(t, history, id));
    lemma_arrivals(t, history, id, filter, n);
    assert forall|j: int| 0 <= j < all.len() implies {
        &&& (#[trigger] all[j]).delivery_count == 1
        &&& all[j].message.id > s.last_message_id
        &&& crate::model::topic_matches(filter, all[j].message.topic)
    } by {
        assert(messages_of(all)[j] == all[j].message);
        assert(arrivals(t, history, id)[j] == all[j].message);
    }
}

/// What arrives has identifiers that are new and ascend, and passes the filter.
proof fn lemma_arrivals(
    s: StoreView,
    history: Seq<Operation>,
    id: int,
    filter: Option<Seq<char>>,
    n: int,
)
    requires
        s.consistent(),
        s.has_consumer(id),
        s.consumer(id).filter == filter,
        crate::laws::histories::runs(s, history),
        history_undisturbed(s, history, id),
        0 <= n <= history.len(),
    ensures
        ({
            let part = history.take(n);
            let t = crate::laws::histories::run(s, part);
            let all = arrivals(s, part, id);
            &&& ascending(all)
            &&& t.has_consumer(id)
            &&& t.consumer(id).filter == filter
            &&& t.last_message_id >= s.last_message_id
            &&& t.last_consumer_id >= s.last_consumer_id
            &&& forall|j: int|
                0 <= j < all.len() ==> {
                    &&& s.last_message_id < (#[trigger] all[j]).id <= t.last_message_id
                    &&& crate::model::topic_matches(filter, all[j].topic)
                }
        }),
    decreases n,
{
    if n == 0 {
        assert(history.take(0) =~= Seq::empty());
    } else {
        lemma_arrivals(s, history, id, filter, n - 1);
        crate::laws::histories::law_histories_keep_consistency(s, history, n - 1);
        crate::laws::histories::lemma_run_step(s, history, n - 1);
        let earlier = history.take(n - 1);
        let part = history.take(n);
        let op = history[n - 1];
        let u = crate::laws::histories::run(s, earlier);
        let t = crate::laws::histories::run(s, part);
        assert(part.drop_last() =~= earlier);
        assert(part.last() == op);
        assert(op.possible(u));
        assert(undisturbed(u, op, id));
        law_inbox_is_a_queue(u, op, id);
        let k = u.consumer_index(id);
        assert(u.consumers[k].id == id);
        assert(u.consumer_wf(u.consumers[k]));
        lemma_consumer_goes_on(u, op, id);
        crate::laws::histories::law_identifiers_only_grow(u, op);
        let before = arrivals(s, earlier, id);
        let more = arrived(u, op, id);
        lemma_arrived(u, op, id);
        let all = arrivals(s, part, id);
        assert(all == before + more);
        assert forall|j: int| 0 <= j < all.len() implies {
            &&& s.last_message_id < (#[trigger] all[j]).id <= t.last_message_id
            &&& crate::model::topic_matches(filter, all[j].topic)
        } by {
            if j < before.len() {
                assert(all[j] == before[j]);
            } else {
                assert(all[j] == more[j - before.len()]);
            }
        }
        assert forall|i: int, j: int| 0 <= i < j < all.len() implies (#[trigger] all[i]).id < (
        #[trigger] all[j]).id by {
            if j < before.len() {
                assert(all[i] == before[i]);
                assert(all[j] == before[j]);
            } else if i < before.len() {
                assert(all[i] == before[i]);
                assert(all[j] == more[j - before.len()]);
            } else {
                assert(all[i] == more[i - before.len()]);
                assert(all[j] == more[j - before.len()]);
            }
        }
    }
}

/// What one operation publishes for a consumer.
proof fn lemma_arrived(s: StoreView, op: Operation, id: int)
    requires
        s.wf(),
        op.possible(s),
    ensures
        ascending(arrived(s, op, id)),
        forall|j: int|
            0 <= j < arrived(s, op, id).len() ==> {
                &&& s.last_message_id < (#[trigger] arrived(s, op, id)[j]).id <= op.done(
                    s,
                ).last_message_id
                &&& crate::model::topic_matches(s.consumer(id).filter, arrived(s, op, id)[j].topic)
            },
{
    if let Operation::Publish { batch, now } = op {
        let t = s.published(batch, now);
        let n = s.messages.len() as int;
        let fresh = t.messages.skip(n);
        let p = meant_for(s.consumer(id));
        let more = arrived(s, op, id);
        crate::laws::publishing::law_publishing_appends(s, batch, now);
        assert forall|j: int| 0 <= j < more.len() implies {
            &&& s.last_message_id < (#[trigger] more[j]).id <= t.last_message_id
            &&& crate::model::topic_matches(s.consumer(id).filter, more[j].topic)
        } by {
            let a = seqs::lemma_filter_source(fresh, p, j);
            assert(fresh[a] == t.messages[n + a]);
        }
        assert forall|i: int, j: int| 0 <= i < j < more.len() implies (#[trigger] more[i]).id < (
        #[trigger] more[j]).id by {
            let (a, b) = seqs::lemma_filter_sources(fresh, p, i, j);
            assert(fresh[a] == t.messages[n + a]);
            assert(fresh[b] == t.messages[n + b]);
        }
    }
}

} // verus!
