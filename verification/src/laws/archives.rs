//! Archives: what setting aside and bringing back does to an inbox.
use vstd::prelude::*;

use crate::api::ReceiptView;
use crate::model::StoreView;
use crate::seqs;
use crate::tables::{ArchiveView, DeliveryRowView};

verus! {

/// Setting aside takes exactly the touched copies out of the inboxes, for the
/// presenting consumer alone. They are not outstanding any more.
pub proof fn law_archiving_removes_exactly(
    s: StoreView,
    id: int,
    receipts: Seq<ReceiptView>,
    detail: Option<Seq<char>>,
    now: int,
    i: int,
    k: int,
)
    requires
        s.consistent(),
        0 <= i < s.consumers.len(),
        0 <= k < s.messages.len(),
    ensures
        ({
            let t = s.archived(id, receipts, detail, now);
            let consumer = s.consumers[i];
            let message = s.messages[k];
            &&& t.consumers == s.consumers
            &&& t.messages == s.messages
            &&& t.is_outstanding(consumer, message) <==> s.is_outstanding(consumer, message)
                && !crate::laws::receipts::touches(s, id, receipts, consumer.id, message.id)
            &&& consumer.id != id ==> !crate::laws::receipts::touches(
                s,
                id,
                receipts,
                consumer.id,
                message.id,
            )
        }),
{
    let t = s.archived(id, receipts, detail, now);
    let u = s.acked(id, receipts);
    crate::laws::receipts::law_ack_removes_exactly(s, id, receipts, i, k);
    crate::counting::lemma_same_deliveries(u, t, s.consumers[i].id, s.messages[k].id);
}

/// Every archive entry keeps the copy that it was made from: its message, its
/// count and its generation.
pub proof fn law_archiving_keeps_the_copy(
    s: StoreView,
    id: int,
    receipts: Seq<ReceiptView>,
    detail: Option<Seq<char>>,
    now: int,
    k: int,
)
    requires
        0 <= k < s.hits(id, receipts).len(),
    ensures
        ({
            let t = s.archived(id, receipts, detail, now);
            let row = s.hits(id, receipts)[k];
            &&& t.archives.len() == s.archives.len() + s.hits(id, receipts).len()
            &&& t.archives[s.archives.len() + k] == (ArchiveView {
                id: s.last_archive_id + 1 + k,
                consumer_id: id,
                message_id: row.message_id,
                generation: row.generation,
                delivery_count: row.delivery_count,
                archived_at_ms: now,
                detail,
            })
        }),
{
    let a = seqs::lemma_filter_source(s.deliveries, crate::model::hit(id, receipts), k);
}

/// An archived message is retained until its archive entry is gone.
pub proof fn law_archives_retain_messages(s: StoreView, before_ms: int, a: int)
    requires
        s.consistent(),
        0 <= a < s.archives.len(),
    ensures
        s.has_message(s.archives[a].message_id),
        !s.prunable(before_ms)(s.message(s.archives[a].message_id)),
{
    let row = s.archives[a];
    assert(s.is_copy(row.consumer_id, row.message_id));
    let j = choose|j: int|
        0 <= j < s.messages.len() && #[trigger] s.messages[j].id == row.message_id;
    crate::invariants::lemma_message(s, j);
    assert(s.archives[a].message_id == s.message(row.message_id).id);
}

/// Bringing back publishes nothing: only this consumer gets the copy again, and
/// exactly the chosen copies become outstanding.
pub proof fn law_redriving_restores_exactly(
    s: StoreView,
    id: int,
    ids: Seq<int>,
    visible_at: int,
    i: int,
    k: int,
)
    requires
        s.wf(),
        0 <= i < s.consumers.len(),
        0 <= k < s.messages.len(),
    ensures
        ({
            let t = s.redriven(id, ids, visible_at);
            let consumer = s.consumers[i];
            let message = s.messages[k];
            &&& t.consumers == s.consumers
            &&& t.messages == s.messages
            &&& t.is_outstanding(consumer, message) <==> {
                ||| s.is_outstanding(consumer, message)
                ||| consumer.id == id && restores(s, id, ids, message.id)
            }
        }),
{
    let t = s.redriven(id, ids, visible_at);
    let consumer = s.consumers[i];
    let message = s.messages[k];
    let rows = s.redriven_rows(id, ids);
    let p = crate::model::chosen(id, ids);
    let n = s.deliveries.len() as int;
    if s.is_materialized(consumer.id, message.id) {
        let a = choose|a: int|
            0 <= a < n && #[trigger] s.deliveries[a].consumer_id == consumer.id
                && s.deliveries[a].message_id == message.id;
        assert(t.deliveries[a].consumer_id == consumer.id);
    }
    if consumer.id == id && restores(s, id, ids, message.id) {
        let a = choose|a: int|
            0 <= a < s.archives.len() && p(#[trigger] s.archives[a]) && s.archives[a].message_id
                == message.id;
        assert(s.archives.contains(s.archives[a]));
        seqs::lemma_filter_member(s.archives, p, s.archives[a]);
        let j = choose|j: int| 0 <= j < rows.len() && rows[j] == s.archives[a];
        assert(t.deliveries[n + j].consumer_id == id);
        assert(t.deliveries[n + j].message_id == message.id);
    }
    if t.is_materialized(consumer.id, message.id) {
        let a = choose|a: int|
            0 <= a < t.deliveries.len() && #[trigger] t.deliveries[a].consumer_id == consumer.id
                && t.deliveries[a].message_id == message.id;
        if a < n {
            assert(s.deliveries[a].consumer_id == consumer.id);
        } else {
            let b = seqs::lemma_filter_source(s.archives, p, a - n);
            assert(p(s.archives[b]));
        }
    }
}

/// Whether a chosen archive entry of a consumer stands for a message.
pub open spec fn restores(s: StoreView, id: int, ids: Seq<int>, message_id: int) -> bool {
    exists|a: int|
        0 <= a < s.archives.len() && crate::model::chosen(id, ids)(#[trigger] s.archives[a])
            && s.archives[a].message_id == message_id
}

/// A redriven delivery starts its count again, and receipts from before it was
/// archived stay stale: its generation goes on.
pub proof fn law_redriving_outdates_receipts(
    s: StoreView,
    id: int,
    ids: Seq<int>,
    visible_at: int,
    k: int,
    generation: int,
    presented_by: int,
)
    requires
        s.wf(),
        !s.redelivers(id, ids),
        0 <= k < s.redriven_rows(id, ids).len(),
        generation <= s.redriven_rows(id, ids)[k].generation,
    ensures
        ({
            let t = s.redriven(id, ids, visible_at);
            let row = s.redriven_rows(id, ids)[k];
            &&& t.deliveries[s.deliveries.len() + k] == (DeliveryRowView {
                consumer_id: id,
                message_id: row.message_id,
                visible_at_ms: visible_at,
                generation: row.generation + 1,
                delivery_count: 0,
            })
            &&& t.hits(
                presented_by,
                seq![ReceiptView { consumer_id: id, message_id: row.message_id, generation }],
            ).len() == 0
        }),
{
    let t = s.redriven(id, ids, visible_at);
    let row = s.redriven_rows(id, ids)[k];
    let a = seqs::lemma_filter_source(s.archives, crate::model::chosen(id, ids), k);
    crate::invariants::lemma_redriven_wf(s, id, ids, visible_at);
    crate::laws::receipts::lemma_outdated(
        t,
        presented_by,
        ReceiptView { consumer_id: id, message_id: row.message_id, generation },
        s.deliveries.len() + k,
    );
}

/// An archive entry is brought back once: afterwards it is gone.
pub proof fn law_redriving_is_final(s: StoreView, id: int, ids: Seq<int>, visible_at: int)
    ensures
        s.redriven(id, ids, visible_at).redriven_rows(id, ids).len() == 0,
{
    let t = s.redriven(id, ids, visible_at);
    let p = crate::model::chosen(id, ids);
    assert forall|a: int| 0 <= a < t.archives.len() implies !p(#[trigger] t.archives[a]) by {
        let b = seqs::lemma_filter_source(s.archives, crate::model::negate(p), a);
    }
    seqs::lemma_filter_none(t.archives, p);
}

/// Setting aside one delivery and bringing it back leaves every inbox as it was.
pub proof fn law_archive_and_redrive_restore_inboxes(
    s: StoreView,
    a: int,
    detail: Option<Seq<char>>,
    now: int,
    visible_at: int,
    i: int,
    k: int,
)
    requires
        s.consistent(),
        0 <= a < s.deliveries.len(),
        s.last_archive_id < i64::MAX,
        0 <= i < s.consumers.len(),
        0 <= k < s.messages.len(),
    ensures
        ({
            let row = s.deliveries[a];
            let t = s.archived(row.consumer_id, seq![row.receipt()], detail, now);
            let u = t.redriven(row.consumer_id, seq![s.last_archive_id + 1], visible_at);
            &&& u.messages == s.messages
            &&& u.consumers == s.consumers
            &&& u.is_outstanding(s.consumers[i], s.messages[k]) == s.is_outstanding(
                s.consumers[i],
                s.messages[k],
            )
        }),
{
    let row = s.deliveries[a];
    let id = row.consumer_id;
    let receipts = seq![row.receipt()];
    let ids = seq![s.last_archive_id + 1];
    let t = s.archived(id, receipts, detail, now);
    let consumer = s.consumers[i];
    let message = s.messages[k];
    crate::laws::receipts::law_current_receipt_applies(s, a);
    crate::invariants::lemma_archives_once(s, id, receipts);
    crate::invariants::lemma_archived_wf(s, id, receipts, detail, now);
    law_archiving_removes_exactly(s, id, receipts, detail, now, i, k);
    law_archiving_keeps_the_copy(s, id, receipts, detail, now, 0);
    law_redriving_restores_exactly(t, id, ids, visible_at, i, k);
    let n = s.archives.len() as int;
    let p = crate::model::chosen(id, ids);
    assert(ids[0] == s.last_archive_id + 1);
    assert(p(t.archives[n]));
    if crate::laws::receipts::touches(s, id, receipts, consumer.id, message.id) {
        let b = choose|b: int|
            0 <= b < s.deliveries.len() && crate::model::hit(id, receipts)(
                #[trigger] s.deliveries[b],
            ) && s.deliveries[b].consumer_id == consumer.id && s.deliveries[b].message_id
                == message.id;
        let c = choose|c: int| 0 <= c < receipts.len() && receipts[c] == s.deliveries[b].receipt();
        assert(receipts[c] == row.receipt());
        assert(t.archives[n].message_id == message.id);
        assert(restores(t, id, ids, message.id));
    }
    if consumer.id == id && restores(t, id, ids, message.id) {
        let b = choose|b: int|
            0 <= b < t.archives.len() && p(#[trigger] t.archives[b]) && t.archives[b].message_id
                == message.id;
        let c = choose|c: int| 0 <= c < ids.len() && ids[c] == t.archives[b].id;
        assert(ids[c] == s.last_archive_id + 1);
        if b < n {
            assert(s.archives[b].id <= s.last_archive_id);
        }
        assert(b == n);
        assert(s.deliveries[a].consumer_id == consumer.id);
        assert(s.is_materialized(consumer.id, message.id));
    }
}

/// Pages follow one another: a page, and the page after its last entry, are what
/// one larger page would have shown.
pub proof fn law_pages_follow(s: StoreView, id: int, after: Option<int>, first: nat, second: nat)
    requires
        s.wf(),
        0 < first,
        s.archive_page(id, after, first).len() == first,
    ensures
        s.archive_page(id, after, first + second) == s.archive_page(id, after, first)
            + s.archive_page(id, Some(s.archive_page(id, after, first).last().id), second),
{
    let p = crate::model::listed(id, after);
    let rows = s.archives.filter(p);
    let page = s.archive_page(id, after, first);
    let last = rows[first - 1].id;
    let q = crate::model::listed(id, Some(last));
    let a = seqs::lemma_filter_source(s.archives, p, first - 1);
    assert(page.last().id == last);
    // What follows the page is what the predicate keeps after position `a`.
    seqs::lemma_filter_prefix(s.archives, a + 1, p);
    seqs::lemma_filter_prefix(s.archives, a + 1, q);
    seqs::lemma_filter_step(s.archives, a, p);
    let head = s.archives.take(a + 1);
    let tail = s.archives.skip(a + 1);
    assert forall|b: int| 0 <= b < head.len() implies !q(#[trigger] head[b]) by {
        assert(head[b] == s.archives[b]);
        if b < a {
            assert(s.archives[b].id < s.archives[a].id);
        }
    }
    seqs::lemma_filter_none(head, q);
    assert forall|b: int| 0 <= b < tail.len() implies p(#[trigger] tail[b]) == q(tail[b]) by {
        assert(tail[b] == s.archives[a + 1 + b]);
        assert(s.archives[a].id < s.archives[a + 1 + b].id);
    }
    seqs::lemma_filter_same(tail, p, q);
    assert(head.filter(p).len() == first);
    assert(s.archives.filter(q) =~= tail.filter(p));
    assert(rows =~= head.filter(p) + s.archives.filter(q));
    assert(s.archive_page(id, after, first + second) =~= page + s.archive_page(
        id,
        Some(last),
        second,
    ));
}

/// Purging is bounded, and removes only this consumer's entries from before the
/// given time.
pub proof fn law_purging_is_bounded(s: StoreView, id: int, before_ms: int, max: nat)
    ensures
        s.purged_rows(id, before_ms, max).len() <= max,
        forall|row: ArchiveView|
            #[trigger] s.purged_rows(id, before_ms, max).contains(row) ==> s.archives.contains(row)
                && row.consumer_id == id && row.archived_at_ms < before_ms,
        forall|row: ArchiveView|
            #[trigger] s.purged(id, before_ms, max).archives.contains(row) <==> s.archives.contains(
                row,
            ) && !s.purged_rows(id, before_ms, max).contains(row),
{
    let rows = s.purged_rows(id, before_ms, max);
    let p = crate::model::purgeable(id, before_ms);
    assert forall|row: ArchiveView| #[trigger] rows.contains(row) implies s.archives.contains(row)
        && row.consumer_id == id && row.archived_at_ms < before_ms by {
        let k = choose|k: int| 0 <= k < rows.len() && rows[k] == row;
        let a = seqs::lemma_filter_source(s.archives, p, k);
        assert(s.archives[a] == row);
    }
    assert forall|row: ArchiveView|
        #[trigger] s.purged(id, before_ms, max).archives.contains(row) <==> s.archives.contains(
            row,
        ) && !rows.contains(row) by {
        seqs::lemma_filter_member(s.archives, crate::model::outside(rows), row);
    }
}

} // verus!
