//! Setting failed deliveries aside, inspecting them, and bringing them back.
use vstd::prelude::*;

use crate::api::{
    ArchiveId, ArchivedDelivery, ArchivedDeliveryView, BatchResult, ListArchives, PurgeArchives,
    PurgeArchivesOutcome, Receipt, Retry,
};
use crate::consumer::{append_rows, Consumer};
use crate::error::{Error, ErrorView};
use crate::seqs;
use crate::signals::Wakeup;
use crate::storage::{is_hit, keep_flagged, LiteFan};
use crate::tables::{ArchiveRow, ArchiveView, DeliveryRow, DeliveryRowView};

verus! {

/// A reason, read as a sequence.
pub open spec fn detail_view(detail: Option<&str>) -> Option<Seq<char>> {
    match detail {
        Some(detail) => Some(detail@),
        None => None,
    }
}

/// Whether an archive entry belongs to a consumer and is among `ids`.
fn is_chosen(row: &ArchiveRow, consumer_id: i64, ids: &[ArchiveId]) -> (found: bool)
    ensures
        found == crate::model::chosen(consumer_id as int, seqs::views(ids@))(row@),
{
    if row.consumer_id != consumer_id {
        return false;
    }
    let ghost wanted = seqs::views(ids@);
    let mut i: usize = 0;
    while i < ids.len()
        invariant
            i <= ids@.len(),
            row.consumer_id == consumer_id,
            wanted == seqs::views(ids@),
            forall|j: int| 0 <= j < i ==> #[trigger] wanted[j] != row@.id,
        decreases ids@.len() - i,
    {
        assert(wanted[i as int] == ids@[i as int]@);
        if ids[i].get() == row.id {
            assert(wanted.contains(row@.id));
            return true;
        }
        i += 1;
    }
    assert(!wanted.contains(row@.id));
    false
}

impl LiteFan {
    /// Whether a consumer has set any of the messages aside.
    fn any_archived(&self, rows: &Vec<ArchiveRow>) -> (found: bool)
        ensures
            found == exists|k: int|
                0 <= k < rows@.len() && self@.is_archived(
                    (#[trigger] rows@[k])@.consumer_id,
                    rows@[k]@.message_id,
                ),
    {
        let ghost archives = self@.archives;
        let mut i: usize = 0;
        while i < rows.len()
            invariant
                i <= rows@.len(),
                archives == self@.archives,
                forall|k: int|
                    0 <= k < i ==> !self@.is_archived(
                        (#[trigger] rows@[k])@.consumer_id,
                        rows@[k]@.message_id,
                    ),
            decreases rows@.len() - i,
        {
            let row = &rows[i];
            let mut j: usize = 0;
            while j < self.archives.len()
                invariant
                    i < rows@.len(),
                    *row == rows@[i as int],
                    j <= self.archives@.len(),
                    archives == self@.archives,
                    forall|k: int|
                        0 <= k < j ==> (#[trigger] archives[k]).consumer_id != row@.consumer_id
                            || archives[k].message_id != row@.message_id,
                decreases self.archives@.len() - j,
            {
                assert(archives[j as int] == self.archives@[j as int]@);
                if self.archives[j].consumer_id == row.consumer_id && self.archives[j].message_id
                    == row.message_id {
                    assert(archives[j as int].consumer_id == row@.consumer_id);
                    assert(self@.is_archived(rows@[i as int]@.consumer_id, row@.message_id));
                    return true;
                }
                j += 1;
            }
            i += 1;
        }
        false
    }
}

impl Consumer {
    /// Moves the deliveries of current receipts to the archive.
    fn archive_receipts(
        &self,
        fan: &mut LiteFan,
        receipts: &[Receipt],
        detail: Option<&str>,
        clock: Result<i64, Error>,
    ) -> (result: Result<BatchResult, Error>)
        requires
            old(fan)@.wf(),
        ensures
            final(fan)@.wf(),
            receipts@.len() == 0 ==> {
                &&& result is Ok
                &&& result->Ok_0.counts(0, 0)
                &&& final(fan)@ == old(fan)@
            },
            receipts@.len() > 0 ==> match old(fan)@.archive_error(
                self@.id,
                seqs::views(receipts@),
                crate::time::reading(clock),
            ) {
                Some(error) => {
                    &&& result is Err
                    &&& result->Err_0@ == error
                    &&& final(fan)@ == old(fan)@
                },
                None => {
                    &&& result is Ok
                    &&& result->Ok_0.counts(
                        receipts@.len(),
                        old(fan)@.hits(self@.id, seqs::views(receipts@)).len(),
                    )
                    &&& final(fan)@ == old(fan)@.archived(
                        self@.id,
                        seqs::views(receipts@),
                        detail_view(detail),
                        clock->Ok_0 as int,
                    )
                },
            },
    {
        let ghost before = fan@;
        let ghost wanted = seqs::views(receipts@);
        let ghost p = crate::model::hit(self@.id, wanted);
        let ghost keep = crate::model::negate(p);
        let ghost rows = before.deliveries;
        if receipts.len() == 0 {
            return Ok(BatchResult { applied: 0, stale: 0 });
        }
        match fan.ensure_batch_size(receipts.len()) {
            Ok(()) => {},
            Err(error) => {
                return Err(error);
            },
        }
        let now: i64 = match clock {
            Ok(now) => now,
            Err(error) => {
                return Err(error);
            },
        };
        let mut flags: Vec<bool> = Vec::new();
        let mut moved: Vec<ArchiveRow> = Vec::new();
        let mut last: i64 = fan.last_archive_id;
        let ghost fresh = before.new_archives(self@.id, wanted, detail_view(detail), now as int);
        let mut i: usize = 0;
        while i < fan.deliveries.len()
            invariant
                i <= fan.deliveries@.len(),
                *fan == *old(fan),
                before == fan@,
                before.wf(),
                rows == before.deliveries,
                wanted == seqs::views(receipts@),
                p == crate::model::hit(self@.id, wanted),
                keep == crate::model::negate(p),
                fresh == before.new_archives(
                    self@.id,
                    wanted,
                    detail_view(detail),
                    now as int,
                ),
                flags@.len() == i,
                forall|j: int| 0 <= j < i ==> #[trigger] flags@[j] == keep(rows[j]),
                moved@.len() == rows.take(i as int).filter(p).len(),
                moved@.len() <= i,
                last == before.last_archive_id + moved@.len(),
                forall|k: int| 0 <= k < moved@.len() ==> (#[trigger] moved@[k])@ == fresh[k],
                receipts@.len() > 0,
                before.batch_error(receipts@.len()) is None,
                clock is Ok,
                clock->Ok_0 == now,
            decreases fan.deliveries@.len() - i,
        {
            let row = fan.deliveries[i];
            proof {
                seqs::lemma_filter_step(rows, i as int, p);
                seqs::lemma_filter_prefix(rows, i + 1, p);
                assert(rows[i as int] == row@);
            }
            if is_hit(&row, self.id, receipts) {
                let ghost k = moved@.len() as int;
                proof {
                    assert(rows.take(i + 1).filter(p)[k] == row@);
                    assert(before.hits(self@.id, wanted)[k] == row@);
                }
                if last == i64::MAX {
                    return Err(Error::CounterOutOfRange);
                }
                last = last + 1;
                let archived = ArchiveRow {
                    id: last,
                    consumer_id: row.consumer_id,
                    message_id: row.message_id,
                    generation: row.generation,
                    delivery_count: row.delivery_count,
                    archived_at_ms: now,
                    detail: match detail {
                        Some(detail) => Some(detail.to_owned()),
                        None => None,
                    },
                };
                assert(archived@ == fresh[k]);
                moved.push(archived);
                flags.push(false);
            } else {
                flags.push(true);
            }
            i += 1;
        }
        assert(rows.take(i as int) =~= rows);
        let applied: usize = moved.len();
        assert(seqs::views(moved@) =~= fresh);
        let again = fan.any_archived(&moved);
        proof {
            let hits = before.hits(self@.id, wanted);
            assert forall|k: int| 0 <= k < moved@.len() implies {
                &&& (#[trigger] moved@[k])@.consumer_id == self@.id
                &&& moved@[k]@.message_id == hits[k].message_id
            } by {
                let a = seqs::lemma_filter_source(rows, p, k);
            }
            if before.rearchives(self@.id, wanted) {
                let k = choose|k: int|
                    0 <= k < hits.len() && before.is_archived(
                        self@.id,
                        (#[trigger] hits[k]).message_id,
                    );
                assert(before.is_archived(moved@[k]@.consumer_id, moved@[k]@.message_id));
            }
            assert(again == before.rearchives(self@.id, wanted));
        }
        if again {
            return Err(Error::StorageInvariant("a delivery is already archived"));
        }
        keep_flagged(&mut fan.deliveries, &flags, Ghost(keep));
        fan.archives.append(&mut moved);
        fan.last_archive_id = last;
        proof {
            assert(fan@.archives =~= before.archives + fresh);
            crate::invariants::lemma_archived_wf(
                before,
                self@.id,
                wanted,
                detail_view(detail),
                now as int,
            );
            assert(fan@ =~= before.archived(self@.id, wanted, detail_view(detail), now as int));
        }
        Ok(BatchResult { applied, stale: receipts.len().saturating_sub(applied) })
    }

    /// Set one delivery aside. False means its receipt was stale or from another
    /// consumer.
    pub fn archive(&self, fan: &mut LiteFan, receipt: Receipt, clock: Result<i64, Error>) -> (result:
        Result<bool, Error>)
        requires
            old(fan)@.wf(),
        ensures
            final(fan)@.wf(),
            match old(fan)@.archive_error(
                self@.id,
                seq![receipt@],
                crate::time::reading(clock),
            ) {
                Some(error) => {
                    &&& result is Err
                    &&& result->Err_0@ == error
                    &&& final(fan)@ == old(fan)@
                },
                None => {
                    &&& result is Ok
                    &&& result->Ok_0 == (old(fan)@.hits(self@.id, seq![receipt@]).len() == 1)
                    &&& final(fan)@ == old(fan)@.archived(
                        self@.id,
                        seq![receipt@],
                        None,
                        clock->Ok_0 as int,
                    )
                },
            },
    {
        let batch = [receipt];
        assert(seqs::views(batch@) =~= seq![receipt@]);
        match self.archive_receipts(fan, &batch, None, clock) {
            Ok(result) => Ok(result.applied == 1),
            Err(error) => Err(error),
        }
    }

    /// Set one delivery aside and record why.
    pub fn archive_with_detail(
        &self,
        fan: &mut LiteFan,
        receipt: Receipt,
        detail: &str,
        clock: Result<i64, Error>,
    ) -> (result: Result<bool, Error>)
        requires
            old(fan)@.wf(),
        ensures
            final(fan)@.wf(),
            match old(fan)@.archive_error(
                self@.id,
                seq![receipt@],
                crate::time::reading(clock),
            ) {
                Some(error) => {
                    &&& result is Err
                    &&& result->Err_0@ == error
                    &&& final(fan)@ == old(fan)@
                },
                None => {
                    &&& result is Ok
                    &&& result->Ok_0 == (old(fan)@.hits(self@.id, seq![receipt@]).len() == 1)
                    &&& final(fan)@ == old(fan)@.archived(
                        self@.id,
                        seq![receipt@],
                        Some(detail@),
                        clock->Ok_0 as int,
                    )
                },
            },
    {
        let batch = [receipt];
        assert(seqs::views(batch@) =~= seq![receipt@]);
        match self.archive_receipts(fan, &batch, Some(detail), clock) {
            Ok(result) => Ok(result.applied == 1),
            Err(error) => Err(error),
        }
    }

    /// Atomically set deliveries aside.
    pub fn archive_batch(
        &self,
        fan: &mut LiteFan,
        receipts: &[Receipt],
        clock: Result<i64, Error>,
    ) -> (result: Result<BatchResult, Error>)
        requires
            old(fan)@.wf(),
        ensures
            final(fan)@.wf(),
            receipts@.len() == 0 ==> {
                &&& result is Ok
                &&& result->Ok_0.counts(0, 0)
                &&& final(fan)@ == old(fan)@
            },
            receipts@.len() > 0 ==> match old(fan)@.archive_error(
                self@.id,
                seqs::views(receipts@),
                crate::time::reading(clock),
            ) {
                Some(error) => {
                    &&& result is Err
                    &&& result->Err_0@ == error
                    &&& final(fan)@ == old(fan)@
                },
                None => {
                    &&& result is Ok
                    &&& result->Ok_0.counts(
                        receipts@.len(),
                        old(fan)@.hits(self@.id, seqs::views(receipts@)).len(),
                    )
                    &&& final(fan)@ == old(fan)@.archived(
                        self@.id,
                        seqs::views(receipts@),
                        None,
                        clock->Ok_0 as int,
                    )
                },
            },
    {
        self.archive_receipts(fan, receipts, None, clock)
    }

    /// One page of this consumer's archive, in the order of archiving.
    pub fn archives(&self, fan: &LiteFan, list: ListArchives) -> (result: Result<
        Vec<ArchivedDelivery>,
        Error,
    >)
        requires
            fan@.wf(),
        ensures
            match fan@.page_error(
                self@.id,
                match list.after {
                    Some(after) => Some(after@),
                    None => None,
                },
                list.max_archives as nat,
            ) {
                Some(error) => result is Err && result->Err_0@ == error,
                None => {
                    &&& result is Ok
                    &&& seqs::views(result->Ok_0@) == fan@.archive_page(
                        self@.id,
                        match list.after {
                            Some(after) => Some(after@),
                            None => None,
                        },
                        list.max_archives as nat,
                    )
                },
            },
    {
        let ghost store = fan@;
        let ghost after: Option<int> = match list.after {
            Some(after) => Some(after@),
            None => None,
        };
        let ghost max = list.max_archives as nat;
        let ghost rows = store.archives;
        let ghost p = crate::model::listed(self@.id, after);
        let ghost show = |row: ArchiveView| store.archived_delivery(row);
        match fan.ensure_batch_size(list.max_archives) {
            Ok(()) => {},
            Err(error) => {
                return Err(error);
            },
        }
        let mut page: Vec<ArchivedDelivery> = Vec::new();
        let mut i: usize = 0;
        assert(rows.take(0).filter(p).map_values(show) =~= Seq::<ArchivedDeliveryView>::empty());
        while i < fan.archives.len() && page.len() < list.max_archives
            invariant
                i <= fan.archives@.len(),
                page@.len() <= max,
                max == list.max_archives,
                store == fan@,
                store.wf(),
                rows == store.archives,
                after == (match list.after {
                    Some(after) => Some(after@),
                    None => None,
                }),
                p == crate::model::listed(self@.id, after),
                show == (|row: ArchiveView| store.archived_delivery(row)),
                store.batch_error(max) is None,
                seqs::views(page@) == rows.take(i as int).filter(p).map_values(show),
                forall|k: int|
                    0 <= k < rows.take(i as int).filter(p).len() ==> store.has_message(
                        (#[trigger] rows.take(i as int).filter(p)[k]).message_id,
                    ),
            decreases fan.archives@.len() - i,
        {
            let row = &fan.archives[i];
            let ghost earlier = rows.take(i as int).filter(p);
            proof {
                assert(rows[i as int] == row@);
                seqs::lemma_filter_step(rows, i as int, p);
            }
            let follows = match list.after {
                Some(after) => row.id > after.get(),
                None => true,
            };
            if row.consumer_id == self.id && follows {
                let index: usize = match fan.find_message(row.message_id) {
                    Some(index) => index,
                    None => {
                        proof {
                            seqs::lemma_filter_prefix(rows, i + 1, p);
                            let k = earlier.len() as int;
                            assert(seqs::views(page@).len() == earlier.len());
                            assert(rows.take(i + 1).filter(p)[k] == row@);
                            assert(crate::model::first(rows.filter(p), max)[k] == row@);
                        }
                        return Err(
                            Error::StorageInvariant("an archived delivery has no matching message"),
                        );
                    },
                };
                let archived = ArchivedDelivery {
                    id: ArchiveId(row.id),
                    message: fan.messages[index].to_message(),
                    delivery_count: row.delivery_count as u64,
                    archived_at_ms: row.archived_at_ms,
                    detail: match &row.detail {
                        Some(detail) => Some(detail.clone()),
                        None => None,
                    },
                };
                proof {
                    assert(archived@ == show(row@));
                    seqs::lemma_views_push(page@, archived);
                    assert(earlier.push(row@).map_values(show) =~= earlier.map_values(show).push(
                        archived@,
                    ));
                    assert forall|k: int|
                        0 <= k < earlier.push(row@).len() implies store.has_message(
                        (#[trigger] earlier.push(row@)[k]).message_id,
                    ) by {
                        if k < earlier.len() {
                            assert(earlier[k] == earlier.push(row@)[k]);
                        }
                    }
                }
                page.push(archived);
            }
            i += 1;
        }
        proof {
            let kept = rows.take(i as int).filter(p);
            assert(seqs::views(page@).len() == kept.len());
            seqs::lemma_filter_prefix(rows, i as int, p);
            if i == rows.len() {
                assert(rows.take(i as int) =~= rows);
            } else {
                assert(kept.len() == max);
            }
            assert(crate::model::first(rows.filter(p), max) =~= kept);
            assert(seqs::views(page@) =~= store.archive_page(self@.id, after, max));
        }
        Ok(page)
    }

    /// Bring one archived delivery back. False means it is not in this consumer's
    /// archive.
    pub fn redrive(
        &self,
        fan: &mut LiteFan,
        id: ArchiveId,
        retry: Retry,
        clock: Result<i64, Error>,
    ) -> (result: Result<bool, Error>)
        requires
            old(fan)@.wf(),
        ensures
            final(fan)@.wf(),
            match old(fan)@.redrive_time(
                self@.id,
                seq![id@],
                retry.delay_nanos(),
                crate::time::reading(clock),
            ) {
                Err(error) => {
                    &&& result is Err
                    &&& result->Err_0@ == error
                    &&& final(fan)@ == old(fan)@
                },
                Ok(visible_at) => {
                    &&& result is Ok
                    &&& result->Ok_0 == (old(fan)@.redriven_rows(self@.id, seq![id@]).len() == 1)
                    &&& final(fan)@ == old(fan)@.redriven(self@.id, seq![id@], visible_at)
                },
            },
    {
        let batch = [id];
        assert(seqs::views(batch@) =~= seq![id@]);
        match self.redrive_batch(fan, &batch, retry, clock) {
            Ok(result) => Ok(result.applied == 1),
            Err(error) => Err(error),
        }
    }

    /// Atomically bring archived deliveries back after a shared delay.
    pub fn redrive_batch(
        &self,
        fan: &mut LiteFan,
        ids: &[ArchiveId],
        retry: Retry,
        clock: Result<i64, Error>,
    ) -> (result: Result<BatchResult, Error>)
        requires
            old(fan)@.wf(),
        ensures
            final(fan)@.wf(),
            ids@.len() == 0 ==> {
                &&& result is Ok
                &&& result->Ok_0.counts(0, 0)
                &&& final(fan)@ == old(fan)@
            },
            ids@.len() > 0 ==> match old(fan)@.redrive_time(
                self@.id,
                seqs::views(ids@),
                retry.delay_nanos(),
                crate::time::reading(clock),
            ) {
                Err(error) => {
                    &&& result is Err
                    &&& result->Err_0@ == error
                    &&& final(fan)@ == old(fan)@
                },
                Ok(visible_at) => {
                    &&& result is Ok
                    &&& result->Ok_0.counts(
                        ids@.len(),
                        old(fan)@.redriven_rows(self@.id, seqs::views(ids@)).len(),
                    )
                    &&& final(fan)@ == old(fan)@.redriven(
                        self@.id,
                        seqs::views(ids@),
                        visible_at,
                    )
                },
            },
    {
        let ghost before = fan@;
        let ghost wanted = seqs::views(ids@);
        let ghost p = crate::model::chosen(self@.id, wanted);
        let ghost keep = crate::model::negate(p);
        let ghost rows = before.archives;
        if ids.len() == 0 {
            return Ok(BatchResult { applied: 0, stale: 0 });
        }
        let visible_at: i64 = match fan.release_span(ids.len(), retry, clock) {
            Ok(span) => span.until,
            Err(error) => {
                return Err(error);
            },
        };
        let ghost back = |row: ArchiveView|
            DeliveryRowView {
                consumer_id: row.consumer_id,
                message_id: row.message_id,
                visible_at_ms: visible_at as int,
                generation: row.generation + 1,
                delivery_count: 0,
            };
        let mut flags: Vec<bool> = Vec::new();
        let mut moved: Vec<DeliveryRow> = Vec::new();
        let mut i: usize = 0;
        assert(rows.take(0).filter(p).map_values(back) =~= Seq::<DeliveryRowView>::empty());
        while i < fan.archives.len()
            invariant
                i <= fan.archives@.len(),
                *fan == *old(fan),
                before == fan@,
                before.wf(),
                rows == before.archives,
                wanted == seqs::views(ids@),
                p == crate::model::chosen(self@.id, wanted),
                keep == crate::model::negate(p),
                back == (|row: ArchiveView|
                    DeliveryRowView {
                        consumer_id: row.consumer_id,
                        message_id: row.message_id,
                        visible_at_ms: visible_at as int,
                        generation: row.generation + 1,
                        delivery_count: 0,
                    }),
                flags@.len() == i,
                forall|j: int| 0 <= j < i ==> #[trigger] flags@[j] == keep(rows[j]),
                seqs::views(moved@) == rows.take(i as int).filter(p).map_values(back),
                forall|j: int|
                    0 <= j < rows.take(i as int).filter(p).len() ==> (#[trigger] rows.take(
                        i as int,
                    ).filter(p)[j]).generation < i64::MAX,
                ids@.len() > 0,
                before.release_time(
                    ids@.len(),
                    retry.delay_nanos(),
                    crate::time::reading(clock),
                ) == Ok::<int, ErrorView>(visible_at as int),
            decreases fan.archives@.len() - i,
        {
            let row = &fan.archives[i];
            let ghost earlier = rows.take(i as int).filter(p);
            proof {
                seqs::lemma_filter_step(rows, i as int, p);
                assert(rows[i as int] == row@);
            }
            if is_chosen(row, self.id, ids) {
                if row.generation == i64::MAX {
                    proof {
                        seqs::lemma_filter_prefix(rows, i + 1, p);
                        let k = earlier.len() as int;
                        assert(rows.take(i + 1).filter(p)[k] == row@);
                        assert(before.redriven_rows(self@.id, wanted)[k] == row@);
                    }
                    return Err(Error::CounterOutOfRange);
                }
                let delivery = DeliveryRow {
                    consumer_id: row.consumer_id,
                    message_id: row.message_id,
                    visible_at_ms: visible_at,
                    generation: row.generation + 1,
                    delivery_count: 0,
                };
                proof {
                    assert(delivery@ == back(row@));
                    seqs::lemma_views_push(moved@, delivery);
                    assert(earlier.push(row@).map_values(back) =~= earlier.map_values(back).push(
                        delivery@,
                    ));
                    assert forall|j: int| 0 <= j < earlier.push(row@).len() implies (
                    #[trigger] earlier.push(row@)[j]).generation < i64::MAX by {
                        if j < earlier.len() {
                            assert(earlier[j] == earlier.push(row@)[j]);
                        }
                    }
                }
                moved.push(delivery);
                flags.push(false);
            } else {
                flags.push(true);
            }
            i += 1;
        }
        let applied: usize = moved.len();
        let ghost after = before.redriven(self@.id, wanted, visible_at as int);
        proof {
            assert(rows.take(i as int) =~= rows);
            assert(seqs::views(moved@).len() == before.redriven_rows(self@.id, wanted).len());
            assert forall|k: int| 0 <= k < moved@.len() implies {
                &&& (#[trigger] moved@[k])@.consumer_id == self@.id
                &&& moved@[k]@.message_id == before.redriven_rows(self@.id, wanted)[k].message_id
            } by {
                assert(seqs::views(moved@)[k] == moved@[k]@);
                let a = seqs::lemma_filter_source(rows, p, k);
            }
        }
        let outstanding = fan.any_materialized(&moved);
        proof {
            if before.redelivers(self@.id, wanted) {
                let chosen = before.redriven_rows(self@.id, wanted);
                let k = choose|k: int|
                    0 <= k < chosen.len() && before.is_materialized(
                        self@.id,
                        (#[trigger] chosen[k]).message_id,
                    );
                assert(before.is_materialized(moved@[k]@.consumer_id, moved@[k]@.message_id));
            }
            assert(outstanding == before.redelivers(self@.id, wanted));
        }
        if outstanding {
            return Err(Error::StorageInvariant("an archived delivery is still outstanding"));
        }
        append_rows(&mut fan.deliveries, &moved);
        keep_flagged(&mut fan.archives, &flags, Ghost(keep));
        if applied > 0 {
            fan.wake(Wakeup::Consumer(self.id));
        }
        proof {
            crate::invariants::lemma_redriven_wf(before, self@.id, wanted, visible_at as int);
            assert(fan@.deliveries =~= after.deliveries);
            assert(fan@ =~= after);
        }
        Ok(BatchResult { applied, stale: ids.len().saturating_sub(applied) })
    }

    /// Delete a bounded number of this consumer's old archive entries.
    pub fn purge_archives(&self, fan: &mut LiteFan, purge: PurgeArchives) -> (result: Result<
        PurgeArchivesOutcome,
        Error,
    >)
        requires
            old(fan)@.wf(),
        ensures
            final(fan)@.wf(),
            match old(fan)@.batch_error(purge.max_archives as nat) {
                Some(error) => {
                    &&& result is Err
                    &&& result->Err_0@ == error
                    &&& final(fan)@ == old(fan)@
                },
                None => {
                    &&& result is Ok
                    &&& result->Ok_0.deleted_archives == old(fan)@.purged_rows(
                        self@.id,
                        purge.before_ms as int,
                        purge.max_archives as nat,
                    ).len()
                    &&& final(fan)@ == old(fan)@.purged(
                        self@.id,
                        purge.before_ms as int,
                        purge.max_archives as nat,
                    )
                },
            },
    {
        let ghost before = fan@;
        let ghost max = purge.max_archives as nat;
        let ghost rows = before.archives;
        let ghost p = crate::model::purgeable(self@.id, purge.before_ms as int);
        let ghost doomed = before.purged_rows(self@.id, purge.before_ms as int, max);
        let ghost kept = crate::model::outside(doomed);
        match fan.ensure_batch_size(purge.max_archives) {
            Ok(()) => {},
            Err(error) => {
                return Err(error);
            },
        }
        proof {
            assert forall|a: int, b: int| 0 <= a < b < rows.len() implies #[trigger] rows[a]
                != #[trigger] rows[b] by {
                assert(before.archives[a].id < before.archives[b].id);
            }
        }
        let mut deleted_archives: usize = 0;
        let mut flags: Vec<bool> = Vec::new();
        let mut i: usize = 0;
        while i < fan.archives.len()
            invariant
                i <= fan.archives@.len(),
                *fan == *old(fan),
                before == fan@,
                rows == before.archives,
                max == purge.max_archives,
                p == crate::model::purgeable(self@.id, purge.before_ms as int),
                doomed == before.purged_rows(self@.id, purge.before_ms as int, max),
                kept == crate::model::outside(doomed),
                forall|a: int, b: int|
                    0 <= a < b < rows.len() ==> #[trigger] rows[a] != #[trigger] rows[b],
                flags@.len() == i,
                deleted_archives == crate::model::first(rows.take(i as int).filter(p), max).len(),
                forall|j: int| 0 <= j < i ==> #[trigger] flags@[j] == kept(rows[j]),
            decreases fan.archives@.len() - i,
        {
            let row = &fan.archives[i];
            proof {
                assert(rows[i as int] == row@);
                seqs::lemma_filter_step(rows, i as int, p);
                seqs::lemma_first_member(rows, p, max, i as int);
            }
            if deleted_archives < purge.max_archives && row.consumer_id == self.id
                && row.archived_at_ms < purge.before_ms {
                deleted_archives += 1;
                flags.push(false);
            } else {
                flags.push(true);
            }
            i += 1;
        }
        assert(rows.take(i as int) =~= rows);
        keep_flagged(&mut fan.archives, &flags, Ghost(kept));
        proof {
            crate::invariants::lemma_purged_wf(before, self@.id, purge.before_ms as int, max);
            assert(fan@ =~= before.purged(self@.id, purge.before_ms as int, max));
        }
        Ok(PurgeArchivesOutcome { deleted_archives })
    }
}

} // verus!
