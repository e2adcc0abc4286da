//! Tallies: that the count of a delivery is the number of times it was received.
use vstd::prelude::*;

use crate::api::DeliveryView;
use crate::laws::histories::Operation;
use crate::model::StoreView;
use crate::seqs;

verus! {

/// Whether a message is among deliveries.
pub open spec fn is_among(deliveries: Seq<DeliveryView>, message_id: int) -> bool {
    exists|j: int| 0 <= j < deliveries.len() && (#[trigger] deliveries[j]).message.id == message_id
}

/// How often a consumer has received a message by the end of a history, since the
/// message was last brought back from the archive. What was received before the
/// history is what the delivery said at its beginning, where there was one.
pub open spec fn times_received(
    s: StoreView,
    history: Seq<Operation>,
    id: int,
    message_id: int,
) -> int
    decreases history.len(),
{
    if history.len() == 0 {
        if exists|a: int|
            0 <= a < s.deliveries.len() && (#[trigger] s.deliveries[a]).consumer_id == id
                && s.deliveries[a].message_id == message_id {
            s.deliveries[choose|a: int|
                0 <= a < s.deliveries.len() && (#[trigger] s.deliveries[a]).consumer_id == id
                    && s.deliveries[a].message_id == message_id].delivery_count
        } else {
            0
        }
    } else {
        let earlier = history.drop_last();
        let u = crate::laws::histories::run(s, earlier);
        let before = times_received(s, earlier, id, message_id);
        match history.last() {
            Operation::Claim { .. } => if is_among(
                crate::laws::workers::handed(u, history.last(), id),
                message_id,
            ) {
                before + 1
            } else {
                before
            },
            Operation::Redrive { id: other, ids, .. } => if other == id
                && crate::laws::archives::restores(u, id, ids, message_id) {
                0
            } else {
                before
            },
            _ => before,
        }
    }
}

/// Whether the rows of a log agree with a tally: the consumer's delivery of the
/// message says it, and a message that is still ahead was never received.
spec fn agrees(t: StoreView, id: int, message_id: int, tally: int) -> bool {
    &&& forall|a: int|
        0 <= a < t.deliveries.len() && (#[trigger] t.deliveries[a]).consumer_id == id
            && t.deliveries[a].message_id == message_id ==> t.deliveries[a].delivery_count == tally
    &&& t.has_consumer(id) && message_id > t.consumer(id).scan_cursor ==> tally == 0
}

proof fn lemma_claim_tally(
    u: StoreView,
    id: int,
    now: int,
    max: nat,
    deadline: int,
    message_id: int,
    tally: int,
)
    requires
        u.consistent(),
        u.has_consumer(id),
        agrees(u, id, message_id, tally),
    ensures
        agrees(
            u.claimed(id, now, max, deadline),
            id,
            message_id,
            if is_among(u.claimed_deliveries(id, now, max, deadline), message_id) {
                tally + 1
            } else {
                tally
            },
        ),
{
    let t = u.claimed(id, now, max, deadline);
    let out = u.claimed_deliveries(id, now, max, deadline);
    let leases = u.leases(id, now, max, deadline);
    let retries = u.retries(id, now, max);
    let fresh = u.fresh(id, now, max);
    let n = u.deliveries.len() as int;
    let index = u.consumer_index(id);
    let new_tally = if is_among(out, message_id) {
        tally + 1
    } else {
        tally
    };
    assert(u.consumers[index].id == id);
    crate::claims::lemma_claim_agrees(u, id, now, max);
    crate::claims::lemma_claimed_wf(u, id, now, max, deadline);
    crate::claims::lemma_advanced_cursor(u, id, now, max);
    assert(t.consumers[index].id == id);
    crate::invariants::lemma_consumer(t, index);
    assert forall|a: int|
        0 <= a < t.deliveries.len() && (#[trigger] t.deliveries[a]).consumer_id == id
            && t.deliveries[a].message_id == message_id implies t.deliveries[a].delivery_count
        == new_tally by {
        if a < n {
            assert(u.deliveries[a].consumer_id == id);
            crate::laws::receiving::lemma_retried_means_handed_out(
                u,
                id,
                now,
                max,
                deadline,
                a,
            );
        } else {
            let k = a - n;
            assert(t.deliveries[a] == crate::model::first_delivery(id, fresh[k], deadline));
            assert(leases[retries.len() + k].message_id == message_id);
            let j = crate::laws::receiving::lemma_lease_handed_out(
                u,
                id,
                now,
                max,
                deadline,
                retries.len() + k,
            );
            assert(out[j].message.id == message_id);
            assert(is_among(out, message_id));
        }
    }
    if message_id > t.consumer(id).scan_cursor && is_among(out, message_id) {
        let j = choose|j: int| 0 <= j < out.len() && (#[trigger] out[j]).message.id == message_id;
        let i = crate::laws::receiving::lemma_handed_out(u, id, now, max, deadline, j);
        if i < retries.len() {
            let a = crate::claims::lemma_retry_source(u, id, now, max, i);
            assert(u.is_copy(u.deliveries[a].consumer_id, u.deliveries[a].message_id));
        } else {
            assert(fresh[i - retries.len()].id == message_id);
        }
    }
}

proof fn lemma_tally_step(u: StoreView, op: Operation, id: int, message_id: int, tally: int)
    requires
        u.consistent(),
        op.possible(u),
        id <= u.last_consumer_id,
        agrees(u, id, message_id, tally),
    ensures
        agrees(
            op.done(u),
            id,
            message_id,
            match op {
                Operation::Claim { .. } => if is_among(
                    crate::laws::workers::handed(u, op, id),
                    message_id,
                ) {
                    tally + 1
                } else {
                    tally
                },
                Operation::Redrive { id: other, ids, .. } => if other == id
                    && crate::laws::archives::restores(u, id, ids, message_id) {
                    0
                } else {
                    tally
                },
                _ => tally,
            },
        ),
{
    let t = op.done(u);
    let n = u.deliveries.len() as int;
    if t.has_consumer(id) {
        crate::laws::workers::lemma_consumer_goes_on(u, op, id);
    }
    match op {
        Operation::Claim { id: other, now, max, deadline } => {
            if u.idle(other, now) {
                crate::laws::receiving::lemma_idle_claim(u, other, now, max, deadline);
            } else if other == id {
                lemma_claim_tally(u, id, now, max, deadline, message_id, tally);
            } else {
                assert forall|a: int|
                    0 <= a < t.deliveries.len() && (#[trigger] t.deliveries[a]).consumer_id == id
                        && t.deliveries[a].message_id
                        == message_id implies t.deliveries[a].delivery_count == tally by {
                    assert(a < n);
                    assert(u.deliveries[a].consumer_id == id);
                }
            }
        },
        Operation::Redrive { id: other, ids, visible_at } => {
            let restored = other == id && crate::laws::archives::restores(u, id, ids, message_id);
            assert forall|a: int|
                0 <= a < t.deliveries.len() && (#[trigger] t.deliveries[a]).consumer_id == id
                    && t.deliveries[a].message_id
                    == message_id implies t.deliveries[a].delivery_count == if restored {
                0
            } else {
                tally
            } by {
                if a < n {
                    assert(u.deliveries[a].consumer_id == id);
                    if restored {
                        let b = choose|b: int|
                            0 <= b < u.archives.len() && crate::model::chosen(id, ids)(
                                #[trigger] u.archives[b],
                            ) && u.archives[b].message_id == message_id;
                        assert(u.archives[b].consumer_id != u.deliveries[a].consumer_id
                            || u.archives[b].message_id != u.deliveries[a].message_id);
                    }
                } else {
                    let b = seqs::lemma_filter_source(
                        u.archives,
                        crate::model::chosen(other, ids),
                        a - n,
                    );
                    assert(crate::model::chosen(other, ids)(u.archives[b]));
                    assert(crate::laws::archives::restores(u, id, ids, message_id));
                }
            }
        },
        Operation::Ack { id: other, receipts } => {
            assert forall|a: int|
                0 <= a < t.deliveries.len() && (#[trigger] t.deliveries[a]).consumer_id == id
                    && t.deliveries[a].message_id
                    == message_id implies t.deliveries[a].delivery_count == tally by {
                let b = seqs::lemma_filter_source(
                    u.deliveries,
                    crate::model::negate(crate::model::hit(other, receipts)),
                    a,
                );
                assert(u.deliveries[b].consumer_id == id);
            }
        },
        Operation::Archive { id: other, receipts, .. } => {
            assert forall|a: int|
                0 <= a < t.deliveries.len() && (#[trigger] t.deliveries[a]).consumer_id == id
                    && t.deliveries[a].message_id
                    == message_id implies t.deliveries[a].delivery_count == tally by {
                let b = seqs::lemma_filter_source(
                    u.deliveries,
                    crate::model::negate(crate::model::hit(other, receipts)),
                    a,
                );
                assert(u.deliveries[b].consumer_id == id);
            }
        },
        Operation::Delete { id: other } => {
            assert forall|a: int|
                0 <= a < t.deliveries.len() && (#[trigger] t.deliveries[a]).consumer_id == id
                    && t.deliveries[a].message_id
                    == message_id implies t.deliveries[a].delivery_count == tally by {
                let b = seqs::lemma_filter_source(
                    u.deliveries,
                    crate::model::negate(crate::model::belongs_to(other)),
                    a,
                );
                assert(u.deliveries[b].consumer_id == id);
            }
        },
        Operation::Publish { batch, now } => {
            crate::laws::publishing::law_publishing_appends(u, batch, now);
            assert forall|a: int|
                0 <= a < t.deliveries.len() && (#[trigger] t.deliveries[a]).consumer_id == id
                    && t.deliveries[a].message_id
                    == message_id implies t.deliveries[a].delivery_count == tally by {
                assert(u.deliveries[a].consumer_id == id);
            }
        },
        _ => {
            assert forall|a: int|
                0 <= a < t.deliveries.len() && (#[trigger] t.deliveries[a]).consumer_id == id
                    && t.deliveries[a].message_id
                    == message_id implies t.deliveries[a].delivery_count == tally by {
                assert(u.deliveries[a].consumer_id == id);
            }
        },
    }
}

proof fn lemma_tally_runs(
    s: StoreView,
    history: Seq<Operation>,
    id: int,
    message_id: int,
    n: int,
)
    requires
        s.consistent(),
        crate::laws::histories::runs(s, history),
        id <= s.last_consumer_id,
        0 <= n <= history.len(),
    ensures
        agrees(
            crate::laws::histories::run(s, history.take(n)),
            id,
            message_id,
            times_received(s, history.take(n), id, message_id),
        ),
        crate::laws::histories::run(s, history.take(n)).last_consumer_id >= s.last_consumer_id,
    decreases n,
{
    if n == 0 {
        assert(history.take(0) =~= Seq::empty());
        assert forall|a: int|
            0 <= a < s.deliveries.len() && (#[trigger] s.deliveries[a]).consumer_id == id
                && s.deliveries[a].message_id == message_id implies s.deliveries[a].delivery_count
            == times_received(s, Seq::empty(), id, message_id) by {
            let b = choose|b: int|
                0 <= b < s.deliveries.len() && (#[trigger] s.deliveries[b]).consumer_id == id
                    && s.deliveries[b].message_id == message_id;
            if a < b {
                assert(s.deliveries[a].consumer_id != s.deliveries[b].consumer_id
                    || s.deliveries[a].message_id != s.deliveries[b].message_id);
            } else if b < a {
                assert(s.deliveries[b].consumer_id != s.deliveries[a].consumer_id
                    || s.deliveries[b].message_id != s.deliveries[a].message_id);
            }
        }
        if s.has_consumer(id) && message_id > s.consumer(id).scan_cursor {
            assert forall|a: int| 0 <= a < s.deliveries.len() implies !((
            #[trigger] s.deliveries[a]).consumer_id == id && s.deliveries[a].message_id
                == message_id) by {
                assert(s.is_copy(s.deliveries[a].consumer_id, s.deliveries[a].message_id));
            }
        }
    } else {
        lemma_tally_runs(s, history, id, message_id, n - 1);
        crate::laws::histories::law_histories_keep_consistency(s, history, n - 1);
        crate::laws::histories::lemma_run_step(s, history, n - 1);
        let u = crate::laws::histories::run(s, history.take(n - 1));
        let op = history[n - 1];
        assert(op.possible(u));
        assert(history.take(n).drop_last() =~= history.take(n - 1));
        assert(history.take(n).last() == op);
        lemma_tally_step(
            u,
            op,
            id,
            message_id,
            times_received(s, history.take(n - 1), id, message_id),
        );
        crate::laws::histories::law_identifiers_only_grow(u, op);
    }
}

/// The count of a delivery is the number of times its consumer has received the
/// message, this time included, since it was last brought back from the archive:
/// over any history, whatever else happens in it.
pub proof fn law_counts_are_times_received(
    s: StoreView,
    history: Seq<Operation>,
    id: int,
    now: int,
    max: nat,
    deadline: int,
    j: int,
)
    requires
        s.consistent(),
        crate::laws::histories::runs(s, history),
        id <= s.last_consumer_id,
        crate::laws::histories::run(s, history).has_consumer(id),
        0 <= j < crate::laws::histories::run(s, history).claimed_deliveries(
            id,
            now,
            max,
            deadline,
        ).len(),
    ensures
        ({
            let delivery = crate::laws::histories::run(s, history).claimed_deliveries(
                id,
                now,
                max,
                deadline,
            )[j];
            delivery.delivery_count == times_received(s, history, id, delivery.message.id) + 1
        }),
{
    let n = history.len() as int;
    let t = crate::laws::histories::run(s, history);
    let out = t.claimed_deliveries(id, now, max, deadline);
    let delivery = out[j];
    let message_id = delivery.message.id;
    let retries = t.retries(id, now, max);
    assert(history.take(n) =~= history);
    crate::laws::histories::law_histories_keep_consistency(s, history, n);
    lemma_tally_runs(s, history, id, message_id, n);
    crate::claims::lemma_claim_agrees(t, id, now, max);
    let i = crate::laws::receiving::lemma_handed_out(t, id, now, max, deadline, j);
    if i < retries.len() {
        let a = crate::claims::lemma_retry_source(t, id, now, max, i);
        assert(t.deliveries[a].consumer_id == id);
        assert(t.deliveries[a].message_id == message_id);
    } else {
        let b = crate::claims::lemma_fresh_source(t, id, now, max, i - retries.len());
        assert(t.messages[b].id == message_id);
    }
}

} // verus!
