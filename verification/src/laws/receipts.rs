//! Receipts: which attempts they speak for.
use vstd::prelude::*;

use crate::api::ReceiptView;
use crate::model::StoreView;
use crate::seqs;
use crate::tables::DeliveryRowView;

verus! {

/// A receipt touches at most one delivery, so the applied and the stale receipts
/// of a batch are all of them.
pub proof fn law_applied_and_stale_are_all(
    s: StoreView,
    id: int,
    receipts: Seq<ReceiptView>,
    result: crate::api::BatchResult,
)
    requires
        s.wf(),
        result.counts(receipts.len(), s.hits(id, receipts).len()),
    ensures
        result.applied + result.stale == receipts.len(),
{
    crate::counting::lemma_hits(s, id, receipts);
}

/// The receipt of a delivery's current attempt touches that delivery, once.
pub proof fn law_current_receipt_applies(s: StoreView, a: int)
    requires
        s.wf(),
        0 <= a < s.deliveries.len(),
    ensures
        s.hits(s.deliveries[a].consumer_id, seq![s.deliveries[a].receipt()]) == seq![
            s.deliveries[a],
        ],
{
    let row = s.deliveries[a];
    let receipts = seq![row.receipt()];
    let p = crate::model::hit(row.consumer_id, receipts);
    let hits = s.hits(row.consumer_id, receipts);
    assert(receipts[0] == row.receipt());
    assert(receipts.contains(row.receipt()));
    assert(s.deliveries.contains(row));
    seqs::lemma_filter_member(s.deliveries, p, row);
    crate::counting::lemma_hits(s, row.consumer_id, receipts);
    let k = choose|k: int| 0 <= k < hits.len() && hits[k] == row;
    assert(hits =~= seq![row]);
}

/// Receipts of other consumers are stale.
pub proof fn law_foreign_receipts_are_stale(s: StoreView, id: int, receipts: Seq<ReceiptView>)
    requires
        forall|i: int| 0 <= i < receipts.len() ==> (#[trigger] receipts[i]).consumer_id != id,
    ensures
        s.hits(id, receipts).len() == 0,
{
    let p = crate::model::hit(id, receipts);
    assert forall|i: int| 0 <= i < s.deliveries.len() implies !p(#[trigger] s.deliveries[i]) by {
        if p(s.deliveries[i]) {
            let k = choose|k: int|
                0 <= k < receipts.len() && receipts[k] == s.deliveries[i].receipt();
            assert(receipts[k].consumer_id != id);
        }
    }
    seqs::lemma_filter_none(s.deliveries, p);
}

/// Where a receipt batch touches nothing, no row satisfies it.
proof fn lemma_no_hits(s: StoreView, id: int, receipts: Seq<ReceiptView>)
    requires
        s.hits(id, receipts).len() == 0,
    ensures
        forall|i: int|
            0 <= i < s.deliveries.len() ==> !crate::model::hit(id, receipts)(
                #[trigger] s.deliveries[i],
            ),
{
    let p = crate::model::hit(id, receipts);
    assert forall|i: int| 0 <= i < s.deliveries.len() implies !p(#[trigger] s.deliveries[i]) by {
        if p(s.deliveries[i]) {
            assert(s.deliveries.contains(s.deliveries[i]));
            seqs::lemma_filter_member(s.deliveries, p, s.deliveries[i]);
        }
    }
}

/// Stale receipts change nothing, whatever they are presented for.
pub proof fn law_stale_receipts_change_nothing(
    s: StoreView,
    id: int,
    receipts: Seq<ReceiptView>,
    visible_at: int,
    detail: Option<Seq<char>>,
    now: int,
)
    requires
        s.hits(id, receipts).len() == 0,
    ensures
        s.acked(id, receipts) == s,
        s.nacked(id, receipts, visible_at) == s,
        s.extended(id, receipts, visible_at) == s,
        s.archived(id, receipts, detail, now) == s,
{
    let p = crate::model::hit(id, receipts);
    lemma_no_hits(s, id, receipts);
    assert forall|i: int| 0 <= i < s.deliveries.len() implies crate::model::negate(p)(
        #[trigger] s.deliveries[i],
    ) by {}
    seqs::lemma_filter_all(s.deliveries, crate::model::negate(p));
    assert(s.acked(id, receipts) =~= s);
    assert(s.nacked(id, receipts, visible_at).deliveries =~= s.deliveries);
    assert(s.nacked(id, receipts, visible_at) =~= s);
    assert(s.extended(id, receipts, visible_at).deliveries =~= s.deliveries);
    assert(s.extended(id, receipts, visible_at) =~= s);
    assert(s.archived(id, receipts, detail, now).archives =~= s.archives);
    assert(s.archived(id, receipts, detail, now) =~= s);
}

/// Whether a receipt batch touches a consumer's copy of a message.
pub open spec fn touches(
    s: StoreView,
    id: int,
    receipts: Seq<ReceiptView>,
    consumer_id: int,
    message_id: int,
) -> bool {
    exists|a: int|
        0 <= a < s.deliveries.len() && crate::model::hit(id, receipts)(#[trigger] s.deliveries[a])
            && s.deliveries[a].consumer_id == consumer_id && s.deliveries[a].message_id
            == message_id
}

/// What is materialized once the touched rows are gone.
pub proof fn lemma_untouched(
    s: StoreView,
    id: int,
    receipts: Seq<ReceiptView>,
    t: StoreView,
    consumer_id: int,
    message_id: int,
)
    requires
        s.wf(),
        t.deliveries == s.deliveries.filter(crate::model::negate(crate::model::hit(id, receipts))),
    ensures
        t.is_materialized(consumer_id, message_id) <==> s.is_materialized(consumer_id, message_id)
            && !touches(s, id, receipts, consumer_id, message_id),
{
    let p = crate::model::hit(id, receipts);
    let q = crate::model::negate(p);
    if t.is_materialized(consumer_id, message_id) {
        let k = choose|k: int|
            0 <= k < t.deliveries.len() && #[trigger] t.deliveries[k].consumer_id == consumer_id
                && t.deliveries[k].message_id == message_id;
        let a = seqs::lemma_filter_source(s.deliveries, q, k);
        assert(s.deliveries[a].consumer_id == consumer_id);
        if touches(s, id, receipts, consumer_id, message_id) {
            let b = choose|b: int|
                0 <= b < s.deliveries.len() && p(#[trigger] s.deliveries[b])
                    && s.deliveries[b].consumer_id == consumer_id && s.deliveries[b].message_id
                    == message_id;
            if a < b {
                assert(s.deliveries[a].consumer_id != s.deliveries[b].consumer_id
                    || s.deliveries[a].message_id != s.deliveries[b].message_id);
            } else if b < a {
                assert(s.deliveries[b].consumer_id != s.deliveries[a].consumer_id
                    || s.deliveries[b].message_id != s.deliveries[a].message_id);
            }
        }
    }
    if s.is_materialized(consumer_id, message_id) && !touches(
        s,
        id,
        receipts,
        consumer_id,
        message_id,
    ) {
        let a = choose|a: int|
            0 <= a < s.deliveries.len() && #[trigger] s.deliveries[a].consumer_id == consumer_id
                && s.deliveries[a].message_id == message_id;
        let row = s.deliveries[a];
        assert(!p(s.deliveries[a]));
        assert(s.deliveries.contains(row));
        seqs::lemma_filter_member(s.deliveries, q, row);
        let k = choose|k: int| 0 <= k < t.deliveries.len() && t.deliveries[k] == row;
        assert(t.deliveries[k].consumer_id == consumer_id);
    }
}

/// Acknowledging takes exactly the touched copies out of the inboxes.
pub proof fn law_ack_removes_exactly(
    s: StoreView,
    id: int,
    receipts: Seq<ReceiptView>,
    i: int,
    k: int,
)
    requires
        s.consistent(),
        0 <= i < s.consumers.len(),
        0 <= k < s.messages.len(),
    ensures
        ({
            let t = s.acked(id, receipts);
            let consumer = s.consumers[i];
            let message = s.messages[k];
            &&& t.consumers == s.consumers
            &&& t.messages == s.messages
            &&& t.is_outstanding(consumer, message) <==> s.is_outstanding(consumer, message)
                && !touches(s, id, receipts, consumer.id, message.id)
        }),
{
    let t = s.acked(id, receipts);
    let consumer = s.consumers[i];
    let message = s.messages[k];
    lemma_untouched(s, id, receipts, t, consumer.id, message.id);
    crate::invariants::lemma_consumer(s, i);
    if touches(s, id, receipts, consumer.id, message.id) {
        let a = choose|a: int|
            0 <= a < s.deliveries.len() && crate::model::hit(id, receipts)(
                #[trigger] s.deliveries[a],
            ) && s.deliveries[a].consumer_id == consumer.id && s.deliveries[a].message_id
                == message.id;
        assert(s.is_copy(s.deliveries[a].consumer_id, s.deliveries[a].message_id));
    }
}

/// Acknowledging is final: the same receipts are stale afterwards.
pub proof fn law_ack_is_final(s: StoreView, id: int, receipts: Seq<ReceiptView>)
    ensures
        s.acked(id, receipts).hits(id, receipts).len() == 0,
        s.acked(id, receipts).acked(id, receipts) == s.acked(id, receipts),
{
    let t = s.acked(id, receipts);
    let p = crate::model::hit(id, receipts);
    assert forall|i: int| 0 <= i < t.deliveries.len() implies !p(#[trigger] t.deliveries[i]) by {
        let a = seqs::lemma_filter_source(s.deliveries, crate::model::negate(p), i);
    }
    seqs::lemma_filter_none(t.deliveries, p);
    law_stale_receipts_change_nothing(t, id, receipts, 0, None, 0);
}

/// Rows that stay the copies that they were keep every inbox.
proof fn lemma_rows_in_place(s: StoreView, t: StoreView)
    requires
        t.messages == s.messages,
        t.consumers == s.consumers,
        t.deliveries.len() == s.deliveries.len(),
        forall|a: int|
            0 <= a < s.deliveries.len() ==> {
                &&& (#[trigger] t.deliveries[a]).consumer_id == s.deliveries[a].consumer_id
                &&& t.deliveries[a].message_id == s.deliveries[a].message_id
            },
    ensures
        forall|i: int|
            #![trigger s.consumers[i]]
            0 <= i < s.consumers.len() ==> {
                &&& crate::laws::claiming::same_inbox(s, t, i)
                &&& t.outstanding(s.consumers[i]) == s.outstanding(s.consumers[i])
            },
{
    assert forall|i: int|
        #![trigger s.consumers[i]]
        0 <= i < s.consumers.len() implies {
        &&& crate::laws::claiming::same_inbox(s, t, i)
        &&& t.outstanding(s.consumers[i]) == s.outstanding(s.consumers[i])
    } by {
        let consumer = s.consumers[i];
        assert forall|k: int| 0 <= k < s.messages.len() implies t.is_outstanding(
            t.consumers[i],
            #[trigger] s.messages[k],
        ) == s.is_outstanding(consumer, s.messages[k]) by {
            let message = s.messages[k];
            if s.is_materialized(consumer.id, message.id) {
                let a = choose|a: int|
                    0 <= a < s.deliveries.len() && #[trigger] s.deliveries[a].consumer_id
                        == consumer.id && s.deliveries[a].message_id == message.id;
                assert(t.deliveries[a].consumer_id == consumer.id);
            }
            if t.is_materialized(consumer.id, message.id) {
                let a = choose|a: int|
                    0 <= a < t.deliveries.len() && #[trigger] t.deliveries[a].consumer_id
                        == consumer.id && t.deliveries[a].message_id == message.id;
                assert(s.deliveries[a].consumer_id == consumer.id);
            }
        }
        seqs::lemma_filter_alike(
            t.deliveries,
            s.deliveries,
            crate::model::belongs_to(consumer.id),
        );
    }
}

/// Releasing and extending change no inbox.
pub proof fn law_nack_and_extension_lose_nothing(
    s: StoreView,
    id: int,
    receipts: Seq<ReceiptView>,
    visible_at: int,
)
    ensures
        ({
            let t = s.nacked(id, receipts, visible_at);
            let u = s.extended(id, receipts, visible_at);
            &&& t.messages == s.messages
            &&& t.consumers == s.consumers
            &&& u.messages == s.messages
            &&& u.consumers == s.consumers
            &&& forall|i: int|
                #![trigger s.consumers[i]]
                0 <= i < s.consumers.len() ==> {
                    &&& crate::laws::claiming::same_inbox(s, t, i)
                    &&& t.outstanding(s.consumers[i]) == s.outstanding(s.consumers[i])
                    &&& crate::laws::claiming::same_inbox(s, u, i)
                    &&& u.outstanding(s.consumers[i]) == s.outstanding(s.consumers[i])
                }
        }),
{
    let t = s.nacked(id, receipts, visible_at);
    let u = s.extended(id, receipts, visible_at);
    lemma_rows_in_place(s, t);
    lemma_rows_in_place(s, u);
}

/// A receipt is stale where the copy that it names has another generation.
pub proof fn lemma_outdated(t: StoreView, id: int, receipt: ReceiptView, a: int)
    requires
        t.deliveries_wf(),
        0 <= a < t.deliveries.len(),
        t.deliveries[a].consumer_id == receipt.consumer_id,
        t.deliveries[a].message_id == receipt.message_id,
        t.deliveries[a].generation != receipt.generation,
    ensures
        t.hits(id, seq![receipt]).len() == 0,
{
    let receipts = seq![receipt];
    let p = crate::model::hit(id, receipts);
    assert forall|b: int| 0 <= b < t.deliveries.len() implies !p(#[trigger] t.deliveries[b]) by {
        if p(t.deliveries[b]) {
            let k = choose|k: int|
                0 <= k < receipts.len() && receipts[k] == t.deliveries[b].receipt();
            assert(receipts[k] == receipt);
            if a < b {
                assert(t.deliveries[a].consumer_id != t.deliveries[b].consumer_id
                    || t.deliveries[a].message_id != t.deliveries[b].message_id);
            } else if b < a {
                assert(t.deliveries[b].consumer_id != t.deliveries[a].consumer_id
                    || t.deliveries[b].message_id != t.deliveries[a].message_id);
            }
        }
    }
    seqs::lemma_filter_none(t.deliveries, p);
}

/// A worker whose lease timed out cannot touch the next worker's lease: once a
/// delivery is leased again, every earlier receipt for it is stale.
pub proof fn law_new_lease_outdates_receipts(
    s: StoreView,
    id: int,
    now: int,
    max: nat,
    deadline: int,
    a: int,
    generation: int,
    presented_by: int,
)
    requires
        s.wf(),
        s.has_consumer(id),
        !s.collides(id, now, max),
        0 <= a < s.deliveries.len(),
        s.retried(id, now, max)(s.deliveries[a]),
        generation <= s.deliveries[a].generation,
    ensures
        s.claimed(id, now, max, deadline).hits(
            presented_by,
            seq![ReceiptView { generation, ..s.deliveries[a].receipt() }],
        ).len() == 0,
{
    let t = s.claimed(id, now, max, deadline);
    crate::claims::lemma_claimed_wf(s, id, now, max, deadline);
    assert(t.deliveries[a] == s.deliveries[a].leased(deadline));
    lemma_outdated(
        t,
        presented_by,
        ReceiptView { generation, ..s.deliveries[a].receipt() },
        a,
    );
}

/// Releasing a delivery outdates its receipts.
pub proof fn law_nack_outdates_receipts(
    s: StoreView,
    id: int,
    receipts: Seq<ReceiptView>,
    visible_at: int,
    a: int,
    generation: int,
    presented_by: int,
)
    requires
        s.wf(),
        0 <= a < s.deliveries.len(),
        crate::model::hit(id, receipts)(s.deliveries[a]),
        generation <= s.deliveries[a].generation,
    ensures
        s.nacked(id, receipts, visible_at).hits(
            presented_by,
            seq![ReceiptView { generation, ..s.deliveries[a].receipt() }],
        ).len() == 0,
        s.nacked(id, receipts, visible_at).deliveries[a] == s.deliveries[a].released(visible_at),
{
    let t = s.nacked(id, receipts, visible_at);
    crate::invariants::lemma_nacked_wf(s, id, receipts, visible_at);
    assert(t.deliveries[a] == s.deliveries[a].released(visible_at));
    lemma_outdated(
        t,
        presented_by,
        ReceiptView { generation, ..s.deliveries[a].receipt() },
        a,
    );
}

/// Extending a lease keeps its receipts valid and never shortens it.
pub proof fn law_extension_keeps_receipts(
    s: StoreView,
    id: int,
    receipts: Seq<ReceiptView>,
    visible_at: int,
)
    ensures
        ({
            let t = s.extended(id, receipts, visible_at);
            &&& t.deliveries.len() == s.deliveries.len()
            &&& forall|a: int|
                0 <= a < s.deliveries.len() ==> {
                    &&& (#[trigger] t.deliveries[a]).receipt() == s.deliveries[a].receipt()
                    &&& t.deliveries[a].delivery_count == s.deliveries[a].delivery_count
                    &&& t.deliveries[a].visible_at_ms >= s.deliveries[a].visible_at_ms
                    &&& crate::model::hit(id, receipts)(s.deliveries[a])
                        ==> t.deliveries[a].visible_at_ms >= visible_at
                }
            &&& t.hits(id, receipts).len() == s.hits(id, receipts).len()
        }),
{
    let t = s.extended(id, receipts, visible_at);
    let p = crate::model::hit(id, receipts);
    let change = |row: DeliveryRowView|
        if p(row) {
            row.extended(visible_at)
        } else {
            row
        };
    assert(t.deliveries =~= s.deliveries.map_values(change));
    assert forall|i: int| 0 <= i < s.deliveries.len() implies p(change(#[trigger] s.deliveries[i]))
        == p(s.deliveries[i]) by {
        assert(change(s.deliveries[i]).receipt() == s.deliveries[i].receipt());
    }
    seqs::lemma_filter_map(s.deliveries, change, p, p);
}

} // verus!
