//! Shelving: what setting aside, listing, bringing back and purging do, in terms
//! of their arguments and of the rows before and after.
use vstd::prelude::*;

use crate::api::{
    ArchiveId, ArchivedDelivery, BatchResult, ListArchives, PurgeArchives, PurgeArchivesOutcome,
    Receipt, Retry,
};
use crate::consumer::Consumer;
use crate::error::Error;
use crate::model::StoreView;
use crate::seqs;
use crate::signals::WakeupView;
use crate::storage::LiteFan;
use crate::tables::{ArchiveView, DeliveryRowView};

verus! {

/// Setting a batch aside takes exactly the named deliveries of the presenting
/// consumer out of the deliveries. Each gets an archive entry that keeps its
/// message, its generation and its count, with the reading of the clock and an
/// identifier that none had before. Nothing else changes.
pub proof fn law_archiving_moves_what_is_named(
    consumer: &Consumer,
    fan: &mut LiteFan,
    receipts: &[Receipt],
    now: i64,
    counts: BatchResult,
)
    requires
        old(fan)@.wf(),
        receipts@.len() > 0,
        call_ensures(
            Consumer::archive_batch,
            (consumer, fan, receipts, Ok(now)),
            Ok::<BatchResult, Error>(counts),
        ),
    ensures
        ({
            let s = old(fan)@;
            let t = final(fan)@;
            let n = s.archives.len() as int;
            &&& counts.applied + counts.stale == receipts@.len()
            &&& counts.applied + t.deliveries.len() == s.deliveries.len()
            &&& t.archives.len() == n + counts.applied
            &&& t.last_archive_id == s.last_archive_id + counts.applied
            &&& forall|row: DeliveryRowView| #[trigger]
                t.deliveries.contains(row) <==> s.deliveries.contains(row) && !(row.consumer_id
                    == consumer@.id && exists|k: int|
                    0 <= k < receipts@.len() && (#[trigger] receipts@[k])@.consumer_id
                        == row.consumer_id && receipts@[k]@.message_id == row.message_id
                        && receipts@[k]@.generation == row.generation)
            &&& forall|a: int| 0 <= a < n ==> #[trigger] t.archives[a] == s.archives[a]
            &&& forall|a: int|
                n <= a < t.archives.len() ==> {
                    let entry = #[trigger] t.archives[a];
                    &&& entry.id == s.last_archive_id + 1 + (a - n)
                    &&& entry.consumer_id == consumer@.id
                    &&& entry.archived_at_ms == now
                    &&& entry.detail is None
                    &&& exists|b: int|
                        0 <= b < s.deliveries.len() && (#[trigger] s.deliveries[b]).consumer_id
                            == consumer@.id && s.deliveries[b].message_id == entry.message_id
                            && s.deliveries[b].generation == entry.generation
                            && s.deliveries[b].delivery_count == entry.delivery_count
                            && !t.deliveries.contains(s.deliveries[b])
                }
            &&& forall|a: int, b: int|
                0 <= a < b < t.archives.len() ==> (#[trigger] t.archives[a]).consumer_id != (
                #[trigger] t.archives[b]).consumer_id || t.archives[a].message_id
                    != t.archives[b].message_id
            &&& t == (StoreView {
                deliveries: t.deliveries,
                archives: t.archives,
                last_archive_id: t.last_archive_id,
                ..s
            })
        }),
{
    let s = old(fan)@;
    let t = final(fan)@;
    let id = consumer@.id;
    let n = s.archives.len() as int;
    let views = seqs::views(receipts@);
    let p = crate::model::hit(id, views);
    let q = crate::model::negate(p);
    let hits = s.hits(id, views);
    assert(views.len() == receipts@.len());
    crate::counting::lemma_hits(s, id, views);
    crate::counting::lemma_filter_disjoint(s.deliveries, |row: DeliveryRowView| true, p, q);
    seqs::lemma_filter_all(s.deliveries, |row: DeliveryRowView| true);
    crate::invariants::lemma_archived_wf(s, id, views, None, now as int);
    assert(t == s.archived(id, views, None, now as int));
    assert forall|row: DeliveryRowView| #[trigger]
        t.deliveries.contains(row) <==> s.deliveries.contains(row) && !(row.consumer_id == id
            && exists|k: int|
            0 <= k < receipts@.len() && (#[trigger] receipts@[k])@.consumer_id == row.consumer_id
                && receipts@[k]@.message_id == row.message_id && receipts@[k]@.generation
                == row.generation) by {
        crate::laws::settling::lemma_hit_by_numbers(id, receipts@, row);
        seqs::lemma_filter_member(s.deliveries, q, row);
    }
    assert forall|a: int| n <= a < t.archives.len() implies {
        let entry = #[trigger] t.archives[a];
        &&& entry.id == s.last_archive_id + 1 + (a - n)
        &&& entry.consumer_id == id
        &&& entry.archived_at_ms == now
        &&& entry.detail is None
        &&& exists|b: int|
            0 <= b < s.deliveries.len() && (#[trigger] s.deliveries[b]).consumer_id == id
                && s.deliveries[b].message_id == entry.message_id && s.deliveries[b].generation
                == entry.generation && s.deliveries[b].delivery_count == entry.delivery_count
                && !t.deliveries.contains(s.deliveries[b])
    } by {
        let k = a - n;
        let b = seqs::lemma_filter_source(s.deliveries, p, k);
        assert(t.archives[a] == s.new_archives(id, views, None, now as int)[k]);
        assert(s.deliveries[b] == hits[k]);
        assert(p(s.deliveries[b]));
        seqs::lemma_filter_member(s.deliveries, q, s.deliveries[b]);
        assert(s.deliveries[b].consumer_id == id);
    }
}

/// When setting aside is owed and when it is refused: a batch beyond the limit, a
/// clock that cannot be read, and more entries than there are identifiers left.
/// In a consistent log it does not fail for another reason, and where it fails
/// nothing changes.
pub proof fn law_archiving_is_owed(
    consumer: &Consumer,
    fan: &mut LiteFan,
    receipts: &[Receipt],
    clock: Result<i64, Error>,
    result: Result<BatchResult, Error>,
)
    requires
        old(fan)@.wf(),
        call_ensures(Consumer::archive_batch, (consumer, fan, receipts, clock), result),
    ensures
        ({
            let s = old(fan)@;
            &&& result is Err ==> final(fan)@ == s
            &&& if receipts@.len() == 0 {
                &&& result is Ok
                &&& result->Ok_0.applied == 0
                &&& result->Ok_0.stale == 0
                &&& final(fan)@ == s
            } else if receipts@.len() > s.max_batch_size {
                &&& result matches Err(Error::BatchTooLarge { requested, maximum })
                &&& requested == receipts@.len()
                &&& maximum == s.max_batch_size
            } else if clock is Err {
                result is Err && result->Err_0@ == clock->Err_0@
            } else {
                s.consistent() && s.last_archive_id + receipts@.len() <= i64::MAX ==> result is Ok
            }
        }),
{
    let s = old(fan)@;
    let views = seqs::views(receipts@);
    assert(views.len() == receipts@.len());
    crate::counting::lemma_hits(s, consumer@.id, views);
    if s.consistent() {
        crate::invariants::lemma_archives_once(s, consumer@.id, views);
    }
}

/// Setting one delivery aside, with or without a reason, does what a batch of one
/// does. The reason is recorded, and makes no other difference.
pub proof fn law_one_archived_delivery_is_a_batch(
    consumer: &Consumer,
    receipt: Receipt,
    now: i64,
    fan: &mut LiteFan,
    result: Result<bool, Error>,
    detail: &str,
    detail_fan: &mut LiteFan,
    detail_result: Result<bool, Error>,
    receipts: &[Receipt],
    batch_fan: &mut LiteFan,
    batch_result: Result<BatchResult, Error>,
)
    requires
        old(fan)@.wf(),
        old(fan)@ == old(detail_fan)@,
        old(fan)@ == old(batch_fan)@,
        receipts@.len() == 1,
        receipts@[0] == receipt,
        call_ensures(Consumer::archive, (consumer, fan, receipt, Ok(now)), result),
        call_ensures(
            Consumer::archive_with_detail,
            (consumer, detail_fan, receipt, detail, Ok(now)),
            detail_result,
        ),
        call_ensures(
            Consumer::archive_batch,
            (consumer, batch_fan, receipts, Ok(now)),
            batch_result,
        ),
    ensures
        final(fan)@ == final(batch_fan)@,
        result is Ok <==> batch_result is Ok,
        detail_result is Ok <==> batch_result is Ok,
        result is Ok ==> result->Ok_0 == (batch_result->Ok_0.applied == 1),
        result is Ok ==> detail_result->Ok_0 == result->Ok_0,
        result is Err ==> result->Err_0@ == batch_result->Err_0@ && detail_result->Err_0@
            == batch_result->Err_0@,
        ({
            let t = final(fan)@;
            let u = final(detail_fan)@;
            let n = old(fan)@.archives.len();
            &&& u.archives.len() == t.archives.len()
            &&& forall|a: int|
                0 <= a < u.archives.len() ==> #[trigger] u.archives[a] == if a < n {
                    t.archives[a]
                } else {
                    ArchiveView { detail: Some(detail@), ..t.archives[a] }
                }
            &&& u == (StoreView { archives: u.archives, ..t })
        }),
{
    assert(seqs::views(receipts@) =~= seq![receipt@]);
}

/// One page of an archive: at most as many entries as were asked for, in the order
/// of their identifiers, each an entry of the consumer that follows the given one,
/// with its stored message. Where a fitting entry is not on the page, the page is
/// full and the entry comes later.
pub proof fn law_pages_show_what_follows(
    consumer: &Consumer,
    fan: &LiteFan,
    list: ListArchives,
    page: Vec<ArchivedDelivery>,
)
    requires
        fan@.wf(),
        call_ensures(
            Consumer::archives,
            (consumer, fan, list),
            Ok::<Vec<ArchivedDelivery>, Error>(page),
        ),
    ensures
        ({
            let s = fan@;
            &&& page@.len() <= list.max_archives
            &&& forall|j: int, k: int|
                0 <= j < k < page@.len() ==> (#[trigger] page@[j])@.id < (#[trigger] page@[k])@.id
            &&& forall|j: int|
                0 <= j < page@.len() ==> {
                    let shown = (#[trigger] page@[j])@;
                    &&& s.messages.contains(shown.message)
                    &&& list.after is Some ==> shown.id > list.after->Some_0@
                    &&& exists|a: int|
                        0 <= a < s.archives.len() && (#[trigger] s.archives[a]).consumer_id
                            == consumer@.id && s.archives[a].id == shown.id
                            && s.archives[a].message_id == shown.message.id
                            && s.archives[a].delivery_count == shown.delivery_count
                            && s.archives[a].archived_at_ms == shown.archived_at_ms
                            && s.archives[a].detail == shown.detail
                }
            &&& forall|a: int|
                0 <= a < s.archives.len() && (#[trigger] s.archives[a]).consumer_id == consumer@.id
                    && (list.after is Some ==> s.archives[a].id > list.after->Some_0@) ==> {
                    ||| exists|j: int|
                        0 <= j < page@.len() && (#[trigger] page@[j])@.id == s.archives[a].id
                    ||| page@.len() == list.max_archives && forall|j: int|
                        0 <= j < page@.len() ==> (#[trigger] page@[j])@.id < s.archives[a].id
                }
        }),
{
    let s = fan@;
    let id = consumer@.id;
    let max = list.max_archives as nat;
    let after = match list.after {
        Some(after) => Some(after@),
        None => None,
    };
    let p = crate::model::listed(id, after);
    let rows = s.archives.filter(p);
    let first = crate::model::first(rows, max);
    let shown = s.archive_page(id, after, max);
    assert(seqs::views(page@).len() == page@.len());
    assert forall|j: int| 0 <= j < page@.len() implies {
        &&& (#[trigger] page@[j])@ == s.archived_delivery(rows[j])
        &&& rows[j] == first[j]
    } by {
        assert(seqs::views(page@)[j] == page@[j]@);
        assert(shown[j] == s.archived_delivery(first[j]));
    }
    assert forall|j: int, k: int| 0 <= j < k < page@.len() implies (#[trigger] page@[j])@.id < (
    #[trigger] page@[k])@.id by {
        let (a, b) = seqs::lemma_filter_sources(s.archives, p, j, k);
        assert(s.archives[a].id < s.archives[b].id);
    }
    assert forall|j: int| 0 <= j < page@.len() implies {
        let shown = (#[trigger] page@[j])@;
        &&& s.messages.contains(shown.message)
        &&& list.after is Some ==> shown.id > list.after->Some_0@
        &&& exists|a: int|
            0 <= a < s.archives.len() && (#[trigger] s.archives[a]).consumer_id == id
                && s.archives[a].id == shown.id && s.archives[a].message_id == shown.message.id
                && s.archives[a].delivery_count == shown.delivery_count
                && s.archives[a].archived_at_ms == shown.archived_at_ms && s.archives[a].detail
                == shown.detail
    } by {
        let a = seqs::lemma_filter_source(s.archives, p, j);
        assert(p(s.archives[a]));
        assert(s.has_message(first[j].message_id));
        let m = choose|m: int|
            0 <= m < s.messages.len() && #[trigger] s.messages[m].id == s.archives[a].message_id;
        crate::invariants::lemma_message(s, m);
        assert(s.archives[a].consumer_id == id);
    }
    assert forall|a: int|
        0 <= a < s.archives.len() && (#[trigger] s.archives[a]).consumer_id == id && (
        list.after is Some ==> s.archives[a].id > list.after->Some_0@) implies {
        ||| exists|j: int| 0 <= j < page@.len() && (#[trigger] page@[j])@.id == s.archives[a].id
        ||| page@.len() == list.max_archives && forall|j: int|
            0 <= j < page@.len() ==> (#[trigger] page@[j])@.id < s.archives[a].id
    } by {
        let row = s.archives[a];
        assert(s.archives.contains(row));
        seqs::lemma_filter_member(s.archives, p, row);
        let c = choose|c: int| 0 <= c < rows.len() && rows[c] == row;
        if c < page@.len() {
            assert(page@[c]@.id == row.id);
        } else {
            assert forall|j: int| 0 <= j < page@.len() implies (#[trigger] page@[j])@.id
                < row.id by {
                let (x, y) = seqs::lemma_filter_sources(s.archives, p, j, c);
                assert(s.archives[x].id < s.archives[y].id);
            }
        }
    }
}

/// A page is refused where it asks for more than the limit, and otherwise owed by
/// a consistent log.
pub proof fn law_pages_are_owed(
    consumer: &Consumer,
    fan: &LiteFan,
    list: ListArchives,
    result: Result<Vec<ArchivedDelivery>, Error>,
)
    requires
        fan@.wf(),
        call_ensures(Consumer::archives, (consumer, fan, list), result),
    ensures
        list.max_archives > fan@.max_batch_size ==> {
            &&& result matches Err(Error::BatchTooLarge { requested, maximum })
            &&& requested == list.max_archives
            &&& maximum == fan@.max_batch_size
        },
        list.max_archives <= fan@.max_batch_size && fan@.consistent() ==> result is Ok,
{
    if fan@.consistent() {
        crate::laws::histories::law_consistent_rows_are_in_order(
            fan@,
            consumer@.id,
            0,
            list.max_archives as nat,
            Seq::empty(),
            Seq::empty(),
            match list.after {
                Some(after) => Some(after@),
                None => None,
            },
        );
    }
}

/// Bringing a batch back takes exactly the chosen entries of the consumer out of
/// the archive. Each becomes a delivery again, visible at the reading of the clock
/// plus the whole milliseconds of the delay, with the next generation and a count
/// that starts again. No other delivery changes, and the workers are woken where
/// there is any.
pub proof fn law_redriving_moves_what_is_chosen(
    consumer: &Consumer,
    fan: &mut LiteFan,
    ids: &[ArchiveId],
    retry: Retry,
    now: i64,
    counts: BatchResult,
)
    requires
        old(fan)@.wf(),
        ids@.len() > 0,
        call_ensures(
            Consumer::redrive_batch,
            (consumer, fan, ids, retry, Ok(now)),
            Ok::<BatchResult, Error>(counts),
        ),
    ensures
        ({
            let s = old(fan)@;
            let t = final(fan)@;
            let n = s.deliveries.len() as int;
            let delay_ms = match retry {
                Retry::Immediately => 0,
                Retry::After(delay) => crate::time::duration_nanos(delay) / 1_000_000,
            };
            &&& counts.applied + t.archives.len() == s.archives.len()
            &&& t.deliveries.len() == n + counts.applied
            &&& counts.applied + counts.stale == ids@.len()
            &&& forall|row: ArchiveView| #[trigger]
                t.archives.contains(row) <==> s.archives.contains(row) && !(row.consumer_id
                    == consumer@.id && exists|k: int|
                    0 <= k < ids@.len() && (#[trigger] ids@[k])@ == row.id)
            &&& forall|a: int| 0 <= a < n ==> #[trigger] t.deliveries[a] == s.deliveries[a]
            &&& forall|a: int|
                n <= a < t.deliveries.len() ==> {
                    let row = #[trigger] t.deliveries[a];
                    &&& row.consumer_id == consumer@.id
                    &&& row.visible_at_ms == now + delay_ms
                    &&& row.delivery_count == 0
                    &&& exists|b: int|
                        0 <= b < s.archives.len() && (#[trigger] s.archives[b]).consumer_id
                            == consumer@.id && s.archives[b].message_id == row.message_id
                            && s.archives[b].generation + 1 == row.generation
                            && !t.archives.contains(s.archives[b])
                }
            &&& forall|a: int, b: int|
                0 <= a < b < t.deliveries.len() ==> (#[trigger] t.deliveries[a]).consumer_id != (
                #[trigger] t.deliveries[b]).consumer_id || t.deliveries[a].message_id
                    != t.deliveries[b].message_id
            &&& t == (StoreView {
                deliveries: t.deliveries,
                archives: t.archives,
                wakeups: if counts.applied > 0 {
                    s.wakeups.push(WakeupView::Consumer(consumer@.id))
                } else {
                    s.wakeups
                },
                ..s
            })
        }),
{
    let s = old(fan)@;
    let t = final(fan)@;
    let id = consumer@.id;
    let n = s.deliveries.len() as int;
    let views = seqs::views(ids@);
    let p = crate::model::chosen(id, views);
    let q = crate::model::negate(p);
    let rows = s.redriven_rows(id, views);
    assert(views.len() == ids@.len());
    let visible_at = s.redrive_time(
        id,
        views,
        retry.delay_nanos(),
        Ok(now as int),
    )->Ok_0;
    assert(t == s.redriven(id, views, visible_at));
    crate::invariants::lemma_redriven_wf(s, id, views, visible_at);
    crate::counting::lemma_filter_disjoint(s.archives, |row: ArchiveView| true, p, q);
    seqs::lemma_filter_all(s.archives, |row: ArchiveView| true);
    lemma_chosen_once(s, id, views);
    assert forall|row: ArchiveView| #[trigger] p(row) <==> row.consumer_id == id && exists|k: int|
        0 <= k < ids@.len() && (#[trigger] ids@[k])@ == row.id by {
        if p(row) {
            let k = choose|k: int| 0 <= k < views.len() && views[k] == row.id;
            assert(ids@[k]@ == row.id);
        }
        if exists|k: int| 0 <= k < ids@.len() && (#[trigger] ids@[k])@ == row.id {
            let k = choose|k: int| 0 <= k < ids@.len() && (#[trigger] ids@[k])@ == row.id;
            assert(views[k] == row.id);
        }
    }
    assert forall|row: ArchiveView| #[trigger]
        t.archives.contains(row) <==> s.archives.contains(row) && !(row.consumer_id == id
            && exists|k: int| 0 <= k < ids@.len() && (#[trigger] ids@[k])@ == row.id) by {
        seqs::lemma_filter_member(s.archives, q, row);
        assert(p(row) || !p(row));
    }
    assert forall|a: int| n <= a < t.deliveries.len() implies {
        let row = #[trigger] t.deliveries[a];
        &&& row.consumer_id == id
        &&& row.visible_at_ms == visible_at
        &&& row.delivery_count == 0
        &&& exists|b: int|
            0 <= b < s.archives.len() && (#[trigger] s.archives[b]).consumer_id == id
                && s.archives[b].message_id == row.message_id && s.archives[b].generation + 1
                == row.generation && !t.archives.contains(s.archives[b])
    } by {
        let b = seqs::lemma_filter_source(s.archives, p, a - n);
        assert(s.archives[b] == rows[a - n]);
        assert(p(s.archives[b]));
        seqs::lemma_filter_member(s.archives, q, s.archives[b]);
        assert(s.archives[b].consumer_id == id);
    }
}

/// No more entries are brought back than were asked for.
proof fn lemma_chosen_once(s: StoreView, id: int, ids: Seq<int>)
    requires
        s.archives_wf(),
    ensures
        s.redriven_rows(id, ids).len() <= ids.len(),
    decreases ids.len(),
{
    let p = crate::model::chosen(id, ids);
    if ids.len() == 0 {
        assert forall|a: int| 0 <= a < s.archives.len() implies !p(#[trigger] s.archives[a]) by {}
        seqs::lemma_filter_none(s.archives, p);
    } else {
        let rest = ids.drop_last();
        let q = crate::model::chosen(id, rest);
        let r = |row: ArchiveView| row.id == ids.last();
        lemma_chosen_once(s, id, rest);
        assert forall|a: int| 0 <= a < s.archives.len() && p(#[trigger] s.archives[a]) implies q(
            s.archives[a],
        ) || r(s.archives[a]) by {
            let k = choose|k: int| 0 <= k < ids.len() && ids[k] == s.archives[a].id;
            if k < rest.len() {
                assert(rest[k] == s.archives[a].id);
            }
        }
        seqs::lemma_filter_either(s.archives, p, q, r);
        assert forall|a: int, b: int| 0 <= a < b < s.archives.len() implies !(r(
            #[trigger] s.archives[a],
        ) && r(#[trigger] s.archives[b])) by {
            assert(s.archives[a].id < s.archives[b].id);
        }
        seqs::lemma_filter_unique(s.archives, r);
    }
}

/// When bringing back is owed and when it is refused: a batch beyond the limit, a
/// clock that cannot be read, a time that cannot be stored, and a generation that
/// has no next one. In a consistent log it does not fail for another reason, and
/// where it fails nothing changes.
pub proof fn law_redriving_is_owed(
    consumer: &Consumer,
    fan: &mut LiteFan,
    ids: &[ArchiveId],
    retry: Retry,
    clock: Result<i64, Error>,
    result: Result<BatchResult, Error>,
)
    requires
        old(fan)@.wf(),
        call_ensures(Consumer::redrive_batch, (consumer, fan, ids, retry, clock), result),
    ensures
        ({
            let s = old(fan)@;
            let delay_ms = match retry {
                Retry::Immediately => 0,
                Retry::After(delay) => crate::time::duration_nanos(delay) / 1_000_000,
            };
            &&& result is Err ==> final(fan)@ == s
            &&& if ids@.len() == 0 {
                &&& result is Ok
                &&& result->Ok_0.applied == 0
                &&& result->Ok_0.stale == 0
                &&& final(fan)@ == s
            } else if ids@.len() > s.max_batch_size {
                &&& result matches Err(Error::BatchTooLarge { requested, maximum })
                &&& requested == ids@.len()
                &&& maximum == s.max_batch_size
            } else if clock is Err {
                result is Err && result->Err_0@ == clock->Err_0@
            } else if delay_ms > i64::MAX || clock->Ok_0 + delay_ms > i64::MAX {
                result is Err && result->Err_0 is DurationOutOfRange
            } else {
                s.consistent() && (forall|a: int|
                    0 <= a < s.archives.len() && (#[trigger] s.archives[a]).consumer_id
                        == consumer@.id ==> s.archives[a].generation < i64::MAX) ==> result is Ok
            }
        }),
{
    let s = old(fan)@;
    let views = seqs::views(ids@);
    let id = consumer@.id;
    assert(views.len() == ids@.len());
    if s.consistent() {
        crate::invariants::lemma_redelivers_once(s, id, views);
    }
    let rows = s.redriven_rows(id, views);
    assert forall|k: int| 0 <= k < rows.len() implies exists|a: int|
        0 <= a < s.archives.len() && (#[trigger] s.archives[a]).consumer_id == id && s.archives[a]
            == #[trigger] rows[k] by {
        let a = seqs::lemma_filter_source(s.archives, crate::model::chosen(id, views), k);
        assert(crate::model::chosen(id, views)(s.archives[a]));
        assert(s.archives[a].consumer_id == id);
    }
}

/// Bringing one entry back does what a batch of one does.
pub proof fn law_one_redriven_entry_is_a_batch(
    consumer: &Consumer,
    id: ArchiveId,
    retry: Retry,
    clock: Result<i64, Error>,
    fan: &mut LiteFan,
    result: Result<bool, Error>,
    ids: &[ArchiveId],
    batch_fan: &mut LiteFan,
    batch_result: Result<BatchResult, Error>,
)
    requires
        old(fan)@ == old(batch_fan)@,
        ids@.len() == 1,
        ids@[0] == id,
        call_ensures(Consumer::redrive, (consumer, fan, id, retry, clock), result),
        call_ensures(
            Consumer::redrive_batch,
            (consumer, batch_fan, ids, retry, clock),
            batch_result,
        ),
    ensures
        final(fan)@ == final(batch_fan)@,
        result is Ok <==> batch_result is Ok,
        result is Ok ==> result->Ok_0 == (batch_result->Ok_0.applied == 1),
        result is Err ==> result->Err_0@ == batch_result->Err_0@,
{
    assert(seqs::views(ids@) =~= seq![id@]);
}

/// What purging does to each archive entry. It removes only this consumer's
/// entries from before the given time; and it removes every such entry, unless it
/// has reached its limit with earlier ones. Nothing but archive entries changes,
/// and what is removed is counted.
pub proof fn law_purging_removes_what_is_old(
    consumer: &Consumer,
    fan: &mut LiteFan,
    purge: PurgeArchives,
    outcome: PurgeArchivesOutcome,
    a: int,
)
    requires
        old(fan)@.wf(),
        call_ensures(
            Consumer::purge_archives,
            (consumer, fan, purge),
            Ok::<PurgeArchivesOutcome, Error>(outcome),
        ),
        0 <= a < old(fan)@.archives.len(),
    ensures
        ({
            let s = old(fan)@;
            let t = final(fan)@;
            let row = s.archives[a];
            let due = row.consumer_id == consumer@.id && row.archived_at_ms < purge.before_ms;
            &&& t == (StoreView { archives: t.archives, ..s })
            &&& outcome.deleted_archives <= purge.max_archives
            &&& outcome.deleted_archives + t.archives.len() == s.archives.len()
            &&& forall|other: ArchiveView| #[trigger]
                t.archives.contains(other) ==> s.archives.contains(other)
            &&& !t.archives.contains(row) ==> due
            &&& due && t.archives.contains(row) ==> {
                &&& outcome.deleted_archives == purge.max_archives
                &&& forall|b: int|
                    0 <= b < s.archives.len() && !t.archives.contains(#[trigger] s.archives[b])
                        ==> s.archives[b].id < row.id
            }
        }),
{
    let s = old(fan)@;
    let t = final(fan)@;
    let id = consumer@.id;
    let max = purge.max_archives as nat;
    let before = purge.before_ms as int;
    let row = s.archives[a];
    let p = crate::model::purgeable(id, before);
    let rows = s.archives.filter(p);
    let gone = s.purged_rows(id, before, max);
    crate::laws::archives::law_purging_is_bounded(s, id, before, max);
    assert(s.archives.contains(row));
    lemma_purged_count(s, id, before, max);
    if p(row) && t.archives.contains(row) {
        seqs::lemma_filter_member(s.archives, p, row);
        let c = choose|c: int| 0 <= c < rows.len() && rows[c] == row;
        if rows.len() <= max {
            assert(gone[c] == row);
        } else if c < max {
            assert(gone[c] == row);
        }
        assert forall|b: int|
            0 <= b < s.archives.len() && !t.archives.contains(
                #[trigger] s.archives[b],
            ) implies s.archives[b].id < row.id by {
            assert(s.archives.contains(s.archives[b]));
            let d = choose|d: int| 0 <= d < gone.len() && gone[d] == s.archives[b];
            let (x, y) = seqs::lemma_filter_sources(s.archives, p, d, c);
            assert(s.archives[x].id < s.archives[y].id);
        }
    }
}

/// What is purged and what stays are all the entries.
proof fn lemma_purged_count(s: StoreView, id: int, before_ms: int, max: nat)
    requires
        s.archives_wf(),
    ensures
        s.purged_rows(id, before_ms, max).len() + s.purged(id, before_ms, max).archives.len()
            == s.archives.len(),
{
    let p = crate::model::purgeable(id, before_ms);
    let rows = s.purged_rows(id, before_ms, max);
    let gone = |row: ArchiveView| rows.contains(row);
    let kept = crate::model::outside(rows);
    crate::counting::lemma_filter_disjoint(s.archives, |row: ArchiveView| true, gone, kept);
    seqs::lemma_filter_all(s.archives, |row: ArchiveView| true);
    assert forall|i: int, j: int| 0 <= i < j < s.archives.len() implies #[trigger] s.archives[i]
        != #[trigger] s.archives[j] by {
        assert(s.archives[i].id < s.archives[j].id);
    }
    crate::counting::lemma_members_are_counted(s.archives, p, rows.len() as int);
    assert(rows =~= s.archives.filter(p).take(rows.len() as int));
}

/// Purging more than the limit allows is refused, and changes nothing.
pub proof fn law_purging_is_refused(
    consumer: &Consumer,
    fan: &mut LiteFan,
    purge: PurgeArchives,
    result: Result<PurgeArchivesOutcome, Error>,
)
    requires
        call_ensures(Consumer::purge_archives, (consumer, fan, purge), result),
    ensures
        result is Ok <==> purge.max_archives <= old(fan)@.max_batch_size,
        result is Err ==> {
            &&& result matches Err(Error::BatchTooLarge { requested, maximum })
            &&& requested == purge.max_archives
            &&& maximum == old(fan)@.max_batch_size
            &&& final(fan)@ == old(fan)@
        },
{
}

} // verus!
