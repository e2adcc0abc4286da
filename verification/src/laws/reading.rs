//! Reading: which rows the work on receipts and archives depends on.
use vstd::prelude::*;

use crate::api::ReceiptView;
use crate::error::ErrorView;
use crate::model::StoreView;
use crate::seqs;
use crate::tables::{ArchiveView, DeliveryRowView};

verus! {

/// Whether `t` holds what a consumer's receipts and archive entries stand for in
/// `s`: its own deliveries and archives, under the same limits.
pub open spec fn is_part(t: StoreView, s: StoreView, id: int) -> bool {
    &&& t.max_batch_size == s.max_batch_size
    &&& t.deliveries == s.deliveries.filter(crate::model::belongs_to(id))
    &&& t.archives == s.archives.filter(crate::model::archived_by(id))
    &&& t.last_archive_id == s.last_archive_id
}

/// Whether two logs hold the same rows of every other consumer.
pub open spec fn same_elsewhere(s: StoreView, t: StoreView, id: int) -> bool {
    let others = crate::model::negate(crate::model::belongs_to(id));
    let other_archives = crate::model::negate(crate::model::archived_by(id));
    &&& t.deliveries.filter(others) == s.deliveries.filter(others)
    &&& t.archives.filter(other_archives) == s.archives.filter(other_archives)
    &&& t.messages == s.messages
    &&& t.consumers == s.consumers
    &&& t.ledger == s.ledger
}

/// A receipt touches the same deliveries, and a chosen entry the same archives, in
/// the part of a log that belongs to their consumer.
proof fn lemma_part_rows(
    s: StoreView,
    t: StoreView,
    id: int,
    receipts: Seq<ReceiptView>,
    ids: Seq<int>,
)
    requires
        is_part(t, s, id),
    ensures
        t.hits(id, receipts) == s.hits(id, receipts),
        t.redriven_rows(id, ids) == s.redriven_rows(id, ids),
        t.rearchives(id, receipts) == s.rearchives(id, receipts),
        t.redelivers(id, ids) == s.redelivers(id, ids),
{
    let mine = crate::model::belongs_to(id);
    let own = crate::model::archived_by(id);
    let hit = crate::model::hit(id, receipts);
    let chosen = crate::model::chosen(id, ids);
    crate::counting::lemma_filter_filter(s.deliveries, mine, hit, hit);
    crate::counting::lemma_filter_filter(s.archives, own, chosen, chosen);
    assert forall|message_id: int| #[trigger] t.is_archived(id, message_id) == s.is_archived(
        id,
        message_id,
    ) by {
        lemma_part_archived(s, t, id, message_id);
    }
    assert forall|message_id: int| #[trigger] t.is_materialized(id, message_id)
        == s.is_materialized(id, message_id) by {
        lemma_part_materialized(s, t, id, message_id);
    }
    let hits = s.hits(id, receipts);
    assert forall|k: int| 0 <= k < hits.len() implies t.is_archived(
        id,
        (#[trigger] hits[k]).message_id,
    ) == s.is_archived(id, hits[k].message_id) by {}
    assert(t.hits(id, receipts) == hits);
}

proof fn lemma_part_archived(s: StoreView, t: StoreView, id: int, message_id: int)
    requires
        t.archives == s.archives.filter(crate::model::archived_by(id)),
    ensures
        t.is_archived(id, message_id) == s.is_archived(id, message_id),
{
    let own = crate::model::archived_by(id);
    if s.is_archived(id, message_id) {
        let a = choose|a: int|
            0 <= a < s.archives.len() && #[trigger] s.archives[a].consumer_id == id
                && s.archives[a].message_id == message_id;
        assert(s.archives.contains(s.archives[a]));
        seqs::lemma_filter_member(s.archives, own, s.archives[a]);
        let k = choose|k: int| 0 <= k < t.archives.len() && t.archives[k] == s.archives[a];
        assert(t.archives[k].consumer_id == id);
    }
    if t.is_archived(id, message_id) {
        let k = choose|k: int|
            0 <= k < t.archives.len() && #[trigger] t.archives[k].consumer_id == id
                && t.archives[k].message_id == message_id;
        let a = seqs::lemma_filter_source(s.archives, own, k);
        assert(s.archives[a].consumer_id == id);
    }
}

proof fn lemma_part_materialized(s: StoreView, t: StoreView, id: int, message_id: int)
    requires
        t.deliveries == s.deliveries.filter(crate::model::belongs_to(id)),
    ensures
        t.is_materialized(id, message_id) == s.is_materialized(id, message_id),
{
    let mine = crate::model::belongs_to(id);
    if s.is_materialized(id, message_id) {
        let a = choose|a: int|
            0 <= a < s.deliveries.len() && #[trigger] s.deliveries[a].consumer_id == id
                && s.deliveries[a].message_id == message_id;
        assert(s.deliveries.contains(s.deliveries[a]));
        seqs::lemma_filter_member(s.deliveries, mine, s.deliveries[a]);
        let k = choose|k: int| 0 <= k < t.deliveries.len() && t.deliveries[k] == s.deliveries[a];
        assert(t.deliveries[k].consumer_id == id);
    }
    if t.is_materialized(id, message_id) {
        let k = choose|k: int|
            0 <= k < t.deliveries.len() && #[trigger] t.deliveries[k].consumer_id == id
                && t.deliveries[k].message_id == message_id;
        let a = seqs::lemma_filter_source(s.deliveries, mine, k);
        assert(s.deliveries[a].consumer_id == id);
    }
}

/// The work on receipts depends on the deliveries of the presenting consumer
/// alone: in that part of the log it is refused alike, touches the same rows, and
/// makes the same of them; and elsewhere it changes nothing.
pub proof fn law_receipts_read_only_their_consumer(
    s: StoreView,
    t: StoreView,
    id: int,
    receipts: Seq<ReceiptView>,
    delay_nanos: nat,
    clock: Result<int, ErrorView>,
    visible_at: int,
)
    requires
        is_part(t, s, id),
    ensures
        t.batch_error(receipts.len()) == s.batch_error(receipts.len()),
        t.nack_time(id, receipts, delay_nanos, clock) == s.nack_time(
            id,
            receipts,
            delay_nanos,
            clock,
        ),
        t.extension_time(receipts.len(), delay_nanos, clock) == s.extension_time(
            receipts.len(),
            delay_nanos,
            clock,
        ),
        t.hits(id, receipts) == s.hits(id, receipts),
        is_part(t.acked(id, receipts), s.acked(id, receipts), id),
        is_part(t.nacked(id, receipts, visible_at), s.nacked(id, receipts, visible_at), id),
        is_part(t.extended(id, receipts, visible_at), s.extended(id, receipts, visible_at), id),
        same_elsewhere(s, s.acked(id, receipts), id),
        same_elsewhere(s, s.nacked(id, receipts, visible_at), id),
        same_elsewhere(s, s.extended(id, receipts, visible_at), id),
{
    let mine = crate::model::belongs_to(id);
    let others = crate::model::negate(mine);
    let hit = crate::model::hit(id, receipts);
    let kept = crate::model::negate(hit);
    lemma_part_rows(s, t, id, receipts, Seq::empty());
    let both = |row: DeliveryRowView| mine(row) && kept(row);
    crate::counting::lemma_filter_filter(s.deliveries, mine, kept, both);
    crate::counting::lemma_filter_filter(s.deliveries, kept, mine, both);
    crate::counting::lemma_filter_filter(s.deliveries, kept, others, others);
    let release = |row: DeliveryRowView|
        if hit(row) {
            row.released(visible_at)
        } else {
            row
        };
    let extend = |row: DeliveryRowView|
        if hit(row) {
            row.extended(visible_at)
        } else {
            row
        };
    lemma_changed_part(s.deliveries, release, id);
    lemma_changed_part(s.deliveries, extend, id);
    assert(s.nacked(id, receipts, visible_at).deliveries =~= s.deliveries.map_values(release));
    assert(t.nacked(id, receipts, visible_at).deliveries =~= t.deliveries.map_values(release));
    assert(s.extended(id, receipts, visible_at).deliveries =~= s.deliveries.map_values(extend));
    assert(t.extended(id, receipts, visible_at).deliveries =~= t.deliveries.map_values(extend));
}

/// Changing rows of one consumer in place.
proof fn lemma_changed_part(
    rows: Seq<DeliveryRowView>,
    change: spec_fn(DeliveryRowView) -> DeliveryRowView,
    id: int,
)
    requires
        forall|row: DeliveryRowView|
            (#[trigger] change(row)).consumer_id == row.consumer_id && (row.consumer_id != id
                ==> change(row) == row),
    ensures
        rows.map_values(change).filter(crate::model::belongs_to(id)) == rows.filter(
            crate::model::belongs_to(id),
        ).map_values(change),
        rows.map_values(change).filter(crate::model::negate(crate::model::belongs_to(id)))
            == rows.filter(crate::model::negate(crate::model::belongs_to(id))),
{
    let mine = crate::model::belongs_to(id);
    let others = crate::model::negate(mine);
    seqs::lemma_filter_map(rows, change, mine, mine);
    seqs::lemma_filter_map(rows, change, others, others);
    let rest = rows.filter(others);
    assert forall|k: int| 0 <= k < rest.len() implies change(#[trigger] rest[k]) == rest[k] by {
        let a = seqs::lemma_filter_source(rows, others, k);
    }
    assert(rest.map_values(change) =~= rest);
}

/// Setting aside, bringing back and purging depend on the deliveries and archives
/// of their consumer alone, and change nothing elsewhere.
pub proof fn law_archives_read_only_their_consumer(
    s: StoreView,
    t: StoreView,
    id: int,
    receipts: Seq<ReceiptView>,
    detail: Option<Seq<char>>,
    now: int,
    ids: Seq<int>,
    delay_nanos: nat,
    clock: Result<int, ErrorView>,
    visible_at: int,
    before_ms: int,
    max: nat,
)
    requires
        is_part(t, s, id),
    ensures
        t.archive_error(id, receipts, clock) == s.archive_error(id, receipts, clock),
        t.redrive_time(id, ids, delay_nanos, clock) == s.redrive_time(id, ids, delay_nanos, clock),
        t.batch_error(max) == s.batch_error(max),
        t.hits(id, receipts) == s.hits(id, receipts),
        t.redriven_rows(id, ids) == s.redriven_rows(id, ids),
        t.purged_rows(id, before_ms, max) == s.purged_rows(id, before_ms, max),
        is_part(t.archived(id, receipts, detail, now), s.archived(id, receipts, detail, now), id),
        is_part(t.redriven(id, ids, visible_at), s.redriven(id, ids, visible_at), id),
        is_part(t.purged(id, before_ms, max), s.purged(id, before_ms, max), id),
        same_elsewhere(s, s.archived(id, receipts, detail, now), id),
        same_elsewhere(s, s.redriven(id, ids, visible_at), id),
        same_elsewhere(s, s.purged(id, before_ms, max), id),
{
    let mine = crate::model::belongs_to(id);
    let others = crate::model::negate(mine);
    let own = crate::model::archived_by(id);
    let other_archives = crate::model::negate(own);
    lemma_part_rows(s, t, id, receipts, ids);
    // Setting aside.
    let kept = crate::model::negate(crate::model::hit(id, receipts));
    let fresh = s.new_archives(id, receipts, detail, now);
    let both = |row: DeliveryRowView| mine(row) && kept(row);
    crate::counting::lemma_filter_filter(s.deliveries, mine, kept, both);
    crate::counting::lemma_filter_filter(s.deliveries, kept, mine, both);
    crate::counting::lemma_filter_filter(s.deliveries, kept, others, others);
    assert(t.new_archives(id, receipts, detail, now) =~= fresh);
    assert forall|k: int| 0 <= k < fresh.len() implies own(#[trigger] fresh[k]) by {
        let a = seqs::lemma_filter_source(s.deliveries, crate::model::hit(id, receipts), k);
    }
    seqs::lemma_filter_all(fresh, own);
    seqs::lemma_filter_none(fresh, other_archives);
    Seq::filter_distributes_over_add(s.archives, fresh, own);
    Seq::filter_distributes_over_add(s.archives, fresh, other_archives);
    assert(s.archives.filter(other_archives) + Seq::<ArchiveView>::empty() =~= s.archives.filter(
        other_archives,
    ));
    // Bringing back.
    let left = crate::model::negate(crate::model::chosen(id, ids));
    let both_archives = |row: ArchiveView| own(row) && left(row);
    crate::counting::lemma_filter_filter(s.archives, own, left, both_archives);
    crate::counting::lemma_filter_filter(s.archives, left, own, both_archives);
    crate::counting::lemma_filter_filter(s.archives, left, other_archives, other_archives);
    let back = s.redriven(id, ids, visible_at).deliveries.skip(s.deliveries.len() as int);
    assert(s.redriven(id, ids, visible_at).deliveries =~= s.deliveries + back);
    assert(t.redriven(id, ids, visible_at).deliveries =~= t.deliveries + back);
    assert forall|k: int| 0 <= k < back.len() implies mine(#[trigger] back[k]) by {
        let a = seqs::lemma_filter_source(s.archives, crate::model::chosen(id, ids), k);
        assert(back[k] == s.redriven(id, ids, visible_at).deliveries[s.deliveries.len() + k]);
    }
    seqs::lemma_filter_all(back, mine);
    seqs::lemma_filter_none(back, others);
    Seq::filter_distributes_over_add(s.deliveries, back, mine);
    Seq::filter_distributes_over_add(s.deliveries, back, others);
    assert(s.deliveries.filter(others) + Seq::<DeliveryRowView>::empty() =~= s.deliveries.filter(
        others,
    ));
    // Purging.
    let old = crate::model::purgeable(id, before_ms);
    crate::counting::lemma_filter_filter(s.archives, own, old, old);
    let rows = s.purged_rows(id, before_ms, max);
    let spared = crate::model::outside(rows);
    let both_spared = |row: ArchiveView| own(row) && spared(row);
    crate::counting::lemma_filter_filter(s.archives, own, spared, both_spared);
    crate::counting::lemma_filter_filter(s.archives, spared, own, both_spared);
    assert forall|a: int| 0 <= a < s.archives.len() implies other_archives(
        #[trigger] s.archives[a],
    ) == (spared(s.archives[a]) && other_archives(s.archives[a])) by {
        if rows.contains(s.archives[a]) {
            let k = choose|k: int| 0 <= k < rows.len() && rows[k] == s.archives[a];
            let b = seqs::lemma_filter_source(s.archives, old, k);
        }
    }
    crate::counting::lemma_filter_filter(s.archives, spared, other_archives, other_archives);
}

} // verus!
