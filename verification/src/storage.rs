//! The log's tables and the helpers that its operations share.
use std::time::Duration;

use vstd::prelude::*;

use crate::api::{ConsumerSnapshot, ConsumerState, Filter, MessageView, Receipt};
use crate::error::Error;
use crate::model::StoreView;
use crate::seqs;
use crate::signals::Wakeup;
use crate::tables::{
    ArchiveRow, ConsumerRow, DeliveryRow, DeliveryRowView, LedgerRow, MessageRow,
};

verus! {

/// A fan-out log: its tables, and the limits that it was opened with.
#[derive(Debug)]
pub struct LiteFan {
    pub(crate) max_batch_size: usize,
    pub(crate) cross_process_poll_interval: Duration,
    pub(crate) idempotency_window_ms: i64,
    pub(crate) messages: Vec<MessageRow>,
    pub(crate) consumers: Vec<ConsumerRow>,
    pub(crate) deliveries: Vec<DeliveryRow>,
    pub(crate) ledger: Vec<LedgerRow>,
    pub(crate) archives: Vec<ArchiveRow>,
    pub(crate) last_message_id: i64,
    pub(crate) last_consumer_id: i64,
    pub(crate) last_archive_id: i64,
    pub(crate) wakeups: Vec<Wakeup>,
}

impl View for LiteFan {
    type V = StoreView;

    open(crate) spec fn view(&self) -> StoreView {
        StoreView {
            max_batch_size: self.max_batch_size as nat,
            poll_interval_nanos: crate::time::duration_nanos(self.cross_process_poll_interval),
            idempotency_window_ms: self.idempotency_window_ms as int,
            messages: seqs::views(self.messages@),
            consumers: seqs::views(self.consumers@),
            deliveries: seqs::views(self.deliveries@),
            ledger: seqs::views(self.ledger@),
            archives: seqs::views(self.archives@),
            last_message_id: self.last_message_id as int,
            last_consumer_id: self.last_consumer_id as int,
            last_archive_id: self.last_archive_id as int,
            wakeups: seqs::views(self.wakeups@),
        }
    }
}

impl LiteFan {
    /// Refuses a batch that is larger than the configured limit.
    pub fn ensure_batch_size(&self, requested: usize) -> (result: Result<(), Error>)
        ensures
            match self@.batch_error(requested as nat) {
                Some(error) => result is Err && result->Err_0@ == error,
                None => result is Ok,
            },
    {
        if requested > self.max_batch_size {
            Err(Error::BatchTooLarge { requested, maximum: self.max_batch_size })
        } else {
            Ok(())
        }
    }
}

impl LiteFan {
    /// The position of a consumer in its table.
    pub(crate) fn find_consumer(&self, id: i64) -> (found: Option<usize>)
        requires
            self@.consumers_wf(),
        ensures
            match found {
                Some(i) => {
                    &&& i < self.consumers@.len()
                    &&& self@.has_consumer(id as int)
                    &&& self@.consumer_index(id as int) == i
                    &&& self@.consumer(id as int) == self.consumers@[i as int]@
                },
                None => !self@.has_consumer(id as int),
            },
    {
        let ghost consumers = self@.consumers;
        let mut i: usize = 0;
        while i < self.consumers.len()
            invariant
                i <= self.consumers@.len(),
                consumers == self@.consumers,
                self@.consumers_wf(),
                forall|j: int| 0 <= j < i ==> (#[trigger] consumers[j]).id != id,
            decreases self.consumers@.len() - i,
        {
            assert(consumers[i as int] == self.consumers@[i as int]@);
            if self.consumers[i].id == id {
                proof {
                    crate::invariants::lemma_consumer(self@, i as int);
                }
                return Some(i);
            }
            i += 1;
        }
        None
    }

    /// The position of a named consumer in its table.
    pub(crate) fn find_named(&self, name: &String) -> (found: Option<usize>)
        requires
            self@.consumers_wf(),
        ensures
            match found {
                Some(i) => {
                    &&& i < self.consumers@.len()
                    &&& self@.has_name(name@)
                    &&& self@.named(name@) == self.consumers@[i as int]@
                },
                None => !self@.has_name(name@),
            },
    {
        let ghost consumers = self@.consumers;
        let mut i: usize = 0;
        while i < self.consumers.len()
            invariant
                i <= self.consumers@.len(),
                consumers == self@.consumers,
                self@.consumers_wf(),
                forall|j: int| 0 <= j < i ==> (#[trigger] consumers[j]).name != name@,
            decreases self.consumers@.len() - i,
        {
            assert(consumers[i as int] == self.consumers@[i as int]@);
            if self.consumers[i].name == *name {
                proof {
                    crate::invariants::lemma_named(self@, i as int);
                }
                return Some(i);
            }
            i += 1;
        }
        None
    }

    /// The position of a message in its table.
    pub(crate) fn find_message(&self, id: i64) -> (found: Option<usize>)
        requires
            self@.messages_wf(),
        ensures
            match found {
                Some(i) => {
                    &&& i < self.messages@.len()
                    &&& self@.has_message(id as int)
                    &&& self@.message(id as int) == self.messages@[i as int]@
                },
                None => !self@.has_message(id as int),
            },
    {
        let ghost messages = self@.messages;
        let mut i: usize = 0;
        while i < self.messages.len()
            invariant
                i <= self.messages@.len(),
                messages == self@.messages,
                self@.messages_wf(),
                forall|j: int| 0 <= j < i ==> (#[trigger] messages[j]).id != id,
            decreases self.messages@.len() - i,
        {
            assert(messages[i as int] == self.messages@[i as int]@);
            if self.messages[i].id == id {
                proof {
                    crate::invariants::lemma_message(self@, i as int);
                }
                return Some(i);
            }
            i += 1;
        }
        None
    }

    /// Raises a wakeup.
    pub(crate) fn wake(&mut self, wakeup: Wakeup)
        ensures
            final(self)@ == (StoreView {
                wakeups: old(self)@.wakeups.push(wakeup@),
                ..old(self)@
            }),
    {
        let ghost before = self@;
        self.wakeups.push(wakeup);
        assert(self@.wakeups =~= before.wakeups.push(wakeup@));
        assert(self@ =~= (StoreView { wakeups: before.wakeups.push(wakeup@), ..before }));
    }

    /// The highest identifier among the retained messages, or zero.
    pub(crate) fn high_water(&self) -> (id: i64)
        ensures
            id == self@.high_water(),
    {
        let n: usize = self.messages.len();
        if n == 0 {
            0
        } else {
            assert(self@.messages.last() == self.messages@[n - 1]@);
            self.messages[n - 1].id
        }
    }

    /// How far a consumer may scan.
    pub(crate) fn scan_limit(&self, consumer: &ConsumerRow) -> (limit: i64)
        ensures
            limit == self@.scan_limit(consumer@),
    {
        match consumer.drain_cursor {
            Some(limit) => limit,
            None => self.high_water(),
        }
    }

    /// When the first delivery of a consumer is visible.
    pub(crate) fn earliest_visible(&self, id: i64) -> (earliest: Option<i64>)
        ensures
            crate::model::is_least(
                crate::tables::widen(earliest),
                self@.visible_times(id as int),
            ),
    {
        let ghost rows = self@.deliveries;
        let ghost p = crate::model::belongs_to(id as int);
        let ghost time = |row: DeliveryRowView| row.visible_at_ms;
        let mut earliest: Option<i64> = None;
        let mut i: usize = 0;
        assert(rows.take(0).filter(p).map_values(time) =~= Seq::<int>::empty());
        while i < self.deliveries.len()
            invariant
                i <= self.deliveries@.len(),
                rows == self@.deliveries,
                p == crate::model::belongs_to(id as int),
                time == (|row: DeliveryRowView| row.visible_at_ms),
                crate::model::is_least(
                    crate::tables::widen(earliest),
                    rows.take(i as int).filter(p).map_values(time),
                ),
            decreases self.deliveries@.len() - i,
        {
            let row = self.deliveries[i];
            let ghost times = rows.take(i as int).filter(p).map_values(time);
            proof {
                assert(rows[i as int] == row@);
                seqs::lemma_filter_step(rows, i as int, p);
            }
            if row.consumer_id == id {
                proof {
                    assert(rows.take(i + 1).filter(p).map_values(time) =~= times.push(
                        row@.visible_at_ms,
                    ));
                    lemma_least_push(times, crate::tables::widen(earliest), row@.visible_at_ms);
                }
                match earliest {
                    Some(time) if time <= row.visible_at_ms => {},
                    _ => {
                        earliest = Some(row.visible_at_ms);
                    },
                }
            }
            i += 1;
        }
        assert(rows.take(i as int) =~= rows);
        assert(self@.visible_times(id as int) =~= rows.filter(p).map_values(time));
        earliest
    }
}

impl LiteFan {
    /// Whether a consumer has claimed the message and not yet let go of it.
    pub(crate) fn is_materialized(&self, consumer_id: i64, message_id: i64) -> (found: bool)
        ensures
            found == self@.is_materialized(consumer_id as int, message_id as int),
    {
        let ghost rows = self@.deliveries;
        let mut i: usize = 0;
        while i < self.deliveries.len()
            invariant
                i <= self.deliveries@.len(),
                rows == self@.deliveries,
                forall|j: int|
                    0 <= j < i ==> (#[trigger] rows[j]).consumer_id != consumer_id
                        || rows[j].message_id != message_id,
            decreases self.deliveries@.len() - i,
        {
            let row = self.deliveries[i];
            assert(rows[i as int] == row@);
            if row.consumer_id == consumer_id && row.message_id == message_id {
                assert(rows[i as int].consumer_id == consumer_id);
                return true;
            }
            i += 1;
        }
        false
    }

    /// The number of deliveries of a consumer, the number of visible ones, and
    /// when the next hidden one becomes visible.
    fn count_deliveries(&self, id: i64, now: i64) -> (counts: (u64, u64, Option<i64>))
        ensures
            counts.0 == self@.deliveries.filter(crate::model::belongs_to(id as int)).len(),
            counts.1 == self@.deliveries.filter(
                crate::model::visible(id as int, now as int),
            ).len(),
            counts.1 <= counts.0,
            crate::model::is_least(
                crate::tables::widen(counts.2),
                self@.hidden_times(id as int, now as int),
            ),
    {
        let ghost rows = self@.deliveries;
        let ghost mine = crate::model::belongs_to(id as int);
        let ghost seen = crate::model::visible(id as int, now as int);
        let ghost unseen = crate::model::hidden(id as int, now as int);
        let ghost time = |row: DeliveryRowView| row.visible_at_ms;
        let mut materialized: u64 = 0;
        let mut visible: u64 = 0;
        let mut next: Option<i64> = None;
        let mut i: usize = 0;
        assert(rows.take(0).filter(unseen).map_values(time) =~= Seq::<int>::empty());
        while i < self.deliveries.len()
            invariant
                i <= self.deliveries@.len(),
                rows == self@.deliveries,
                mine == crate::model::belongs_to(id as int),
                seen == crate::model::visible(id as int, now as int),
                unseen == crate::model::hidden(id as int, now as int),
                time == (|row: DeliveryRowView| row.visible_at_ms),
                materialized == rows.take(i as int).filter(mine).len(),
                visible == rows.take(i as int).filter(seen).len(),
                visible <= materialized <= i,
                crate::model::is_least(
                    crate::tables::widen(next),
                    rows.take(i as int).filter(unseen).map_values(time),
                ),
            decreases self.deliveries@.len() - i,
        {
            let row = self.deliveries[i];
            let ghost times = rows.take(i as int).filter(unseen).map_values(time);
            proof {
                assert(rows[i as int] == row@);
                seqs::lemma_filter_step(rows, i as int, mine);
                seqs::lemma_filter_step(rows, i as int, seen);
                seqs::lemma_filter_step(rows, i as int, unseen);
            }
            if row.consumer_id == id {
                materialized += 1;
                if row.visible_at_ms <= now {
                    visible += 1;
                } else {
                    proof {
                        assert(rows.take(i + 1).filter(unseen).map_values(time) =~= times.push(
                            row@.visible_at_ms,
                        ));
                        lemma_least_push(times, crate::tables::widen(next), row@.visible_at_ms);
                    }
                    match next {
                        Some(time) if time <= row.visible_at_ms => {},
                        _ => {
                            next = Some(row.visible_at_ms);
                        },
                    }
                }
            }
            i += 1;
        }
        assert(rows.take(i as int) =~= rows);
        assert(self@.hidden_times(id as int, now as int) =~= rows.filter(unseen).map_values(time));
        (materialized, visible, next)
    }

    /// The number of messages ahead of a consumer that are meant for it, and the
    /// publish time of its oldest outstanding message.
    fn count_messages(&self, consumer: &ConsumerRow) -> (counts: (u64, Option<i64>))
        ensures
            counts.0 == self@.unscanned(consumer@).len(),
            crate::model::is_least(
                crate::tables::widen(counts.1),
                self@.outstanding_times(consumer@),
            ),
    {
        let ghost rows = self@.messages;
        let ghost ahead = consumer@.wanted();
        let ghost owed = self@.outstanding_for(consumer@);
        let ghost time = |message: MessageView| message.published_at_ms;
        let mut unscanned: u64 = 0;
        let mut oldest: Option<i64> = None;
        let mut i: usize = 0;
        assert(rows.take(0).filter(owed).map_values(time) =~= Seq::<int>::empty());
        while i < self.messages.len()
            invariant
                i <= self.messages@.len(),
                rows == self@.messages,
                ahead == consumer@.wanted(),
                owed == self@.outstanding_for(consumer@),
                time == (|message: MessageView| message.published_at_ms),
                unscanned == rows.take(i as int).filter(ahead).len(),
                unscanned <= i,
                crate::model::is_least(
                    crate::tables::widen(oldest),
                    rows.take(i as int).filter(owed).map_values(time),
                ),
            decreases self.messages@.len() - i,
        {
            let message = &self.messages[i];
            let ghost times = rows.take(i as int).filter(owed).map_values(time);
            proof {
                assert(rows[i as int] == message@);
                seqs::lemma_filter_step(rows, i as int, ahead);
                seqs::lemma_filter_step(rows, i as int, owed);
            }
            let wanted = wants(consumer, message);
            if wanted {
                unscanned += 1;
            }
            if wanted || self.is_materialized(consumer.id, message.id) {
                proof {
                    assert(rows.take(i + 1).filter(owed).map_values(time) =~= times.push(
                        message@.published_at_ms,
                    ));
                    lemma_least_push(
                        times,
                        crate::tables::widen(oldest),
                        message@.published_at_ms,
                    );
                }
                match oldest {
                    Some(time) if time <= message.published_at_ms => {},
                    _ => {
                        oldest = Some(message.published_at_ms);
                    },
                }
            }
            i += 1;
        }
        assert(rows.take(i as int) =~= rows);
        assert(self@.outstanding_times(consumer@) =~= rows.filter(owed).map_values(time));
        (unscanned, oldest)
    }

    /// The number of deliveries that a consumer has set aside.
    pub(crate) fn count_archives(&self, id: i64) -> (count: u64)
        ensures
            count == self@.archives.filter(crate::model::archived_by(id as int)).len(),
    {
        let ghost rows = self@.archives;
        let ghost p = crate::model::archived_by(id as int);
        let mut count: u64 = 0;
        let mut i: usize = 0;
        while i < self.archives.len()
            invariant
                i <= self.archives@.len(),
                rows == self@.archives,
                p == crate::model::archived_by(id as int),
                count == rows.take(i as int).filter(p).len(),
                count <= i,
            decreases self.archives@.len() - i,
        {
            proof {
                assert(rows[i as int] == self.archives@[i as int]@);
                seqs::lemma_filter_step(rows, i as int, p);
            }
            if self.archives[i].consumer_id == id {
                count += 1;
            }
            i += 1;
        }
        assert(rows.take(i as int) =~= rows);
        count
    }

    /// The number of unacknowledged copies of a consumer, materialized or not.
    pub(crate) fn count_outstanding(&self, consumer: &ConsumerRow) -> (result: Result<u64, Error>)
        ensures
            match result {
                Ok(count) => count == self@.outstanding(consumer@),
                Err(error) => error == Error::CounterOutOfRange && self@.outstanding(consumer@)
                    > u64::MAX,
            },
    {
        let (materialized, _, _) = self.count_deliveries(consumer.id, 0);
        let (unscanned, _) = self.count_messages(consumer);
        match materialized.checked_add(unscanned) {
            Some(count) => Ok(count),
            None => Err(Error::CounterOutOfRange),
        }
    }

    /// What a consumer looks like at `now`.
    pub(crate) fn consumer_snapshot(&self, consumer: &ConsumerRow, now: i64) -> (result: Result<
        ConsumerSnapshot,
        Error,
    >)
        ensures
            match result {
                Ok(snapshot) => snapshot.describes(self@, consumer@, now as int),
                Err(error) => error == Error::CounterOutOfRange && self@.outstanding(consumer@)
                    > u64::MAX,
            },
    {
        let (materialized, visible, next_ready_at_ms) = self.count_deliveries(consumer.id, now);
        let (unscanned, oldest_outstanding_at_ms) = self.count_messages(consumer);
        let outstanding: u64 = match materialized.checked_add(unscanned) {
            Some(outstanding) => outstanding,
            None => {
                return Err(Error::CounterOutOfRange);
            },
        };
        Ok(
            ConsumerSnapshot {
                name: consumer.name.clone(),
                filter: consumer.filter.clone(),
                state: if consumer.draining_at_ms.is_some() {
                    ConsumerState::Draining
                } else {
                    ConsumerState::Active
                },
                created_at_ms: consumer.created_at_ms,
                draining_at_ms: consumer.draining_at_ms,
                outstanding,
                ready: visible + unscanned,
                next_ready_at_ms,
                oldest_outstanding_at_ms,
                archived: self.count_archives(consumer.id),
            },
        )
    }
}

/// Keeps the flagged rows, in their order.
pub(crate) fn keep_flagged<T: View>(
    rows: &mut Vec<T>,
    flags: &Vec<bool>,
    Ghost(p): Ghost<spec_fn(T::V) -> bool>,
)
    requires
        flags@.len() == old(rows)@.len(),
        forall|i: int|
            0 <= i < flags@.len() ==> #[trigger] flags@[i] == p(seqs::views(old(rows)@)[i]),
    ensures
        seqs::views(final(rows)@) == seqs::views(old(rows)@).filter(p),
{
    let ghost all = rows@;
    let ghost before = seqs::views(all);
    let mut i: usize = 0;
    let mut k: usize = 0;
    assert(rows@ =~= all.skip(0));
    while i < flags.len()
        invariant
            i <= flags@.len(),
            flags@.len() == all.len(),
            before == seqs::views(all),
            forall|i: int| 0 <= i < flags@.len() ==> #[trigger] flags@[i] == p(before[i]),
            k <= i,
            k <= rows@.len(),
            rows@.skip(k as int) == all.skip(i as int),
            seqs::views(rows@.take(k as int)) == before.take(i as int).filter(p),
        decreases flags@.len() - i,
    {
        proof {
            assert(rows@.skip(k as int).len() == all.skip(i as int).len());
            assert(rows@.skip(k as int)[0] == all.skip(i as int)[0]);
            assert(before[i as int] == all[i as int]@);
            seqs::lemma_filter_step(before, i as int, p);
        }
        let ghost earlier = rows@;
        if flags[i] {
            proof {
                assert(rows@.take(k + 1) =~= rows@.take(k as int).push(rows@[k as int]));
                seqs::lemma_views_push(rows@.take(k as int), rows@[k as int]);
                assert(rows@.skip(k + 1) =~= rows@.skip(k as int).skip(1));
            }
            k += 1;
        } else {
            rows.remove(k);
            proof {
                assert(rows@.take(k as int) =~= earlier.take(k as int));
                assert(rows@.skip(k as int) =~= earlier.skip(k as int).skip(1));
            }
        }
        assert(all.skip(i + 1) =~= all.skip(i as int).skip(1));
        i += 1;
    }
    assert(rows@.skip(k as int).len() == 0);
    assert(rows@.take(k as int) =~= rows@);
    assert(before.take(i as int) =~= before);
}

/// The least number after one more has been looked at.
pub proof fn lemma_least_push(numbers: Seq<int>, least: Option<int>, number: int)
    requires
        crate::model::is_least(least, numbers),
    ensures
        crate::model::is_least(
            match least {
                Some(least) if least <= number => Some(least),
                _ => Some(number),
            },
            numbers.push(number),
        ),
{
    let more = numbers.push(number);
    assert(more[numbers.len() as int] == number);
    if let Some(l) = least {
        let k = choose|k: int| 0 <= k < numbers.len() && numbers[k] == l;
        assert(more[k] == l);
        assert forall|i: int| 0 <= i < more.len() && l <= number implies l
            <= #[trigger] more[i] by {
            if i < numbers.len() {
                assert(numbers[i] == more[i]);
            }
        }
        assert forall|i: int| 0 <= i < more.len() && l > number implies number
            <= #[trigger] more[i] by {
            if i < numbers.len() {
                assert(numbers[i] == more[i]);
            }
        }
    } else {
        assert(more =~= seq![number]);
    }
}

/// Whether two byte strings are the same.
pub(crate) fn same_bytes(left: &[u8], right: &[u8]) -> (same: bool)
    ensures
        same == (left@ == right@),
{
    if left.len() != right.len() {
        return false;
    }
    let mut i: usize = 0;
    while i < left.len()
        invariant
            i <= left@.len(),
            left@.len() == right@.len(),
            left@.take(i as int) == right@.take(i as int),
        decreases left@.len() - i,
    {
        if left[i] != right[i] {
            return false;
        }
        assert(left@.take(i + 1) =~= left@.take(i as int).push(left@[i as int]));
        assert(right@.take(i + 1) =~= right@.take(i as int).push(right@[i as int]));
        i += 1;
    }
    assert(left@.take(i as int) =~= left@);
    assert(right@.take(i as int) =~= right@);
    true
}

/// Whether two filters let the same topics through.
pub(crate) fn same_filter(left: &Filter, right: &Filter) -> (same: bool)
    ensures
        same == (left@ == right@),
{
    match (left, right) {
        (Filter::All, Filter::All) => true,
        (Filter::Topic(left), Filter::Topic(right)) => *left == *right,
        _ => false,
    }
}

/// Whether two optional texts are the same.
pub(crate) fn same_text(left: &Option<String>, right: &Option<String>) -> (same: bool)
    ensures
        same == (match (*left, *right) {
            (Some(left), Some(right)) => left@ == right@,
            (None, None) => true,
            _ => false,
        }),
{
    match (left, right) {
        (Some(left), Some(right)) => *left == *right,
        (None, None) => true,
        _ => false,
    }
}

/// Whether a filter lets a topic through.
pub(crate) fn topic_passes(filter: &Filter, topic: &Option<String>) -> (passes: bool)
    ensures
        passes == crate::model::topic_matches(
            filter@,
            match *topic {
                Some(topic) => Some(topic@),
                None => None,
            },
        ),
{
    match filter {
        Filter::All => true,
        Filter::Topic(wanted) => match topic {
            Some(topic) => *topic == *wanted,
            None => false,
        },
    }
}

/// Whether a message is still ahead of a consumer and meant for it.
pub(crate) fn wants(consumer: &ConsumerRow, message: &MessageRow) -> (wanted: bool)
    ensures
        wanted == consumer@.wants(message@),
{
    if message.id <= consumer.scan_cursor {
        return false;
    }
    if let Some(limit) = consumer.drain_cursor {
        if message.id > limit {
            return false;
        }
    }
    topic_passes(&consumer.filter, &message.topic)
}

/// Whether the current receipt of a row is among `receipts`, presented by the
/// consumer that the row belongs to.
pub(crate) fn is_hit(row: &DeliveryRow, consumer_id: i64, receipts: &[Receipt]) -> (found: bool)
    ensures
        found == crate::model::hit(consumer_id as int, seqs::views(receipts@))(row@),
{
    if row.consumer_id != consumer_id {
        return false;
    }
    let ghost wanted = seqs::views(receipts@);
    let mut i: usize = 0;
    while i < receipts.len()
        invariant
            i <= receipts@.len(),
            row.consumer_id == consumer_id,
            wanted == seqs::views(receipts@),
            forall|j: int| 0 <= j < i ==> #[trigger] wanted[j] != row@.receipt(),
        decreases receipts@.len() - i,
    {
        let receipt = receipts[i];
        assert(wanted[i as int] == receipt@);
        if receipt.consumer_id == row.consumer_id && receipt.message_id == row.message_id
            && receipt.generation == row.generation {
            assert(wanted[i as int] == row@.receipt());
            assert(wanted.contains(row@.receipt()));
            return true;
        }
        assert(wanted[i as int] != row@.receipt());
        i += 1;
    }
    assert(!wanted.contains(row@.receipt()));
    false
}

} // verus!
