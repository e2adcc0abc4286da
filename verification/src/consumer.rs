//! Durable consumer creation, leasing, acknowledgement, and draining.
use std::time::Duration;

use vstd::prelude::*;

use crate::api::{
    BatchResult, ConsumerSnapshot, Delivery, DeliveryView, Filter, MessageView, Poll, Receipt, Retry,
};
use crate::error::{Error, ErrorView};
use crate::model::StoreView;
use crate::seqs;
use crate::signals::Wakeup;
use crate::storage::{is_hit, same_filter, wants, LiteFan};
use crate::tables::{ConsumerRow, DeliveryRow, DeliveryRowView};
use crate::time::{add_duration, duration_ms, duration_until_ms, Span};

verus! {

/// A handle, with its name and filter read as sequences.
pub struct HandleView {
    pub id: int,
    pub name: Seq<char>,
    pub filter: Option<Seq<char>>,
}

/// A cloneable handle to one durable consumer identity.
#[derive(Clone, Debug)]
pub struct Consumer {
    pub(crate) id: i64,
    pub(crate) name: String,
    pub(crate) filter: Filter,
}

impl View for Consumer {
    type V = HandleView;

    open(crate) spec fn view(&self) -> HandleView {
        HandleView { id: self.id as int, name: self.name@, filter: self.filter@ }
    }
}

/// Builder for a durable named consumer. A new consumer starts at messages
/// published after it is opened.
#[derive(Clone, Debug)]
pub struct ConsumerBuilder {
    pub(crate) name: String,
    pub(crate) filter: Filter,
}

/// What a builder asks for.
pub struct BuilderView {
    pub name: Seq<char>,
    pub filter: Option<Seq<char>>,
}

impl View for ConsumerBuilder {
    type V = BuilderView;

    open(crate) spec fn view(&self) -> BuilderView {
        BuilderView { name: self.name@, filter: self.filter@ }
    }
}

impl ConsumerBuilder {
    /// A consumer of every message.
    pub(crate) fn new(name: String) -> (builder: Self)
        ensures
            builder@ == (BuilderView { name: name@, filter: None }),
    {
        ConsumerBuilder { name, filter: Filter::All }
    }

    /// Receive only what passes `filter`.
    pub fn filter(self, filter: Filter) -> (builder: Self)
        ensures
            builder@ == (BuilderView { filter: filter@, ..self@ }),
    {
        ConsumerBuilder { name: self.name, filter }
    }

    /// Opens the consumer of this name, creating it where it does not exist.
    pub fn open(self, fan: &mut LiteFan, clock: Result<i64, Error>) -> (result: Result<
        Consumer,
        Error,
    >)
        requires
            old(fan)@.wf(),
        ensures
            final(fan)@.wf(),
            match old(fan)@.open_outcome(
                self@.name,
                self@.filter,
                crate::time::reading(clock),
            ) {
                Err(error) => {
                    &&& result is Err
                    &&& result->Err_0@ == error
                    &&& final(fan)@ == old(fan)@
                },
                Ok(id) => {
                    &&& result is Ok
                    &&& result->Ok_0@ == (HandleView {
                        id,
                        name: self@.name,
                        filter: self@.filter,
                    })
                    &&& final(fan)@ == old(fan)@.opened(
                        self@.name,
                        self@.filter,
                        clock->Ok_0 as int,
                    )
                },
            },
    {
        let ghost before = fan@;
        if self.name.as_str().is_empty() {
            return Err(Error::EmptyConsumerName);
        }
        let now: i64 = match clock {
            Ok(now) => now,
            Err(error) => {
                return Err(error);
            },
        };
        match fan.find_named(&self.name) {
            Some(index) => {
                if same_filter(&fan.consumers[index].filter, &self.filter) {
                    Ok(
                        Consumer {
                            id: fan.consumers[index].id,
                            name: self.name,
                            filter: self.filter,
                        },
                    )
                } else {
                    Err(Error::ConsumerConfigurationMismatch { name: self.name })
                }
            },
            None => {
                if fan.last_consumer_id == i64::MAX {
                    return Err(Error::CounterOutOfRange);
                }
                if fan.high_water() < 0 {
                    return Err(Error::StorageInvariant("a scan cursor cannot be negative"));
                }
                let id: i64 = fan.last_consumer_id + 1;
                let row = ConsumerRow {
                    id,
                    name: self.name.clone(),
                    filter: self.filter.clone(),
                    created_at_ms: now,
                    draining_at_ms: None,
                    scan_cursor: fan.high_water(),
                    drain_cursor: None,
                };
                proof {
                    seqs::lemma_views_push(fan.consumers@, row);
                    crate::invariants::lemma_opened_wf(
                        before,
                        self@.name,
                        self@.filter,
                        now as int,
                    );
                }
                fan.consumers.push(row);
                fan.last_consumer_id = id;
                assert(fan@ =~= before.opened(self@.name, self@.filter, now as int));
                Ok(Consumer { id, name: self.name, filter: self.filter })
            },
        }
    }
}

impl BatchResult {
    /// Whether the result counts `applied` of `requested` receipts as applied.
    pub open spec fn counts(self, requested: nat, applied: nat) -> bool {
        &&& self.applied == applied
        &&& self.stale == if applied < requested {
            requested - applied
        } else {
            0
        }
    }
}

/// Appends copies of `more` to `rows`.
pub(crate) fn append_rows(rows: &mut Vec<DeliveryRow>, more: &Vec<DeliveryRow>)
    ensures
        seqs::views(final(rows)@) == seqs::views(old(rows)@) + seqs::views(more@),
        final(rows)@ == old(rows)@ + more@,
{
    let mut i: usize = 0;
    while i < more.len()
        invariant
            i <= more@.len(),
            rows@ == old(rows)@ + more@.take(i as int),
        decreases more@.len() - i,
    {
        rows.push(more[i]);
        assert(more@.take(i + 1) =~= more@.take(i as int).push(more@[i as int]));
        i += 1;
    }
    assert(more@.take(i as int) =~= more@);
    assert(seqs::views(old(rows)@ + more@) =~= seqs::views(old(rows)@) + seqs::views(more@));
}

/// What one attempt to claim messages found.
#[derive(Debug)]
pub struct Claim {
    pub deliveries: Vec<Delivery>,
    /// When the next delivery is visible, where nothing was claimed.
    pub next_visible_at: Option<i64>,
    /// Whether the consumer has stopped receiving new messages.
    pub draining: bool,
}

impl Claim {
    /// Whether this is what a claim at `now` hands out, and `after` is the log
    /// that it leaves.
    pub open spec fn describes(
        self,
        before: StoreView,
        after: StoreView,
        id: int,
        now: int,
        max: nat,
        lease_ms: int,
    ) -> bool {
        let deadline = now + lease_ms;
        &&& self.draining == before.consumer(id).draining_at_ms is Some
        &&& if before.idle(id, now) {
            &&& after == before
            &&& self.deliveries@.len() == 0
            &&& crate::model::is_least(
                crate::tables::widen(self.next_visible_at),
                before.visible_times(id),
            )
        } else {
            &&& after == before.claimed(id, now, max, deadline)
            &&& seqs::views(self.deliveries@) == before.claimed_deliveries(id, now, max, deadline)
            &&& if self.deliveries@.len() > 0 {
                self.next_visible_at is None
            } else if after.consumer(id).scan_cursor < after.scan_limit(after.consumer(id)) {
                self.next_visible_at matches Some(time) && time == now
            } else {
                crate::model::is_least(
                    crate::tables::widen(self.next_visible_at),
                    after.visible_times(id),
                )
            }
        }
    }
}

impl LiteFan {
    /// The number of visible deliveries that are retried before `row`.
    fn rank(&self, id: i64, now: i64, row: &DeliveryRow) -> (rank: usize)
        ensures
            rank == self@.rank(id as int, now as int, row@),
    {
        let ghost rows = self@.deliveries;
        let ghost p = crate::model::visible(id as int, now as int);
        let ghost q = crate::model::ahead_of(row@);
        let mut rank: usize = 0;
        let mut i: usize = 0;
        while i < self.deliveries.len()
            invariant
                i <= self.deliveries@.len(),
                rank <= i,
                rows == self@.deliveries,
                p == crate::model::visible(id as int, now as int),
                q == crate::model::ahead_of(row@),
                rank == rows.take(i as int).filter(p).filter(q).len(),
            decreases self.deliveries@.len() - i,
        {
            let other = self.deliveries[i];
            proof {
                assert(rows[i as int] == other@);
                seqs::lemma_filter_step(rows, i as int, p);
                seqs::lemma_filter_push(rows.take(i as int).filter(p), other@, q);
            }
            if other.consumer_id == id && other.visible_at_ms <= now && (other.visible_at_ms
                < row.visible_at_ms || (other.visible_at_ms == row.visible_at_ms
                && other.message_id < row.message_id)) {
                rank += 1;
            }
            i += 1;
        }
        assert(rows.take(i as int) =~= rows);
        rank
    }

    /// Leases the visible deliveries that come first. Yields the table with the
    /// new leases in it, and the leases themselves.
    fn lease_retries(&self, id: i64, now: i64, max: usize, deadline: i64) -> (result: Result<
        (Vec<DeliveryRow>, Vec<DeliveryRow>),
        Error,
    >)
        ensures
            result matches Ok((table, leases)) ==> {
                &&& forall|i: int|
                    0 <= i < self@.retries(id as int, now as int, max as nat).len() ==> {
                        let row = #[trigger] self@.retries(id as int, now as int, max as nat)[i];
                        row.generation < i64::MAX && row.delivery_count < i64::MAX
                    }
                &&& seqs::views(table@) == self@.deliveries.map_values(
                    |row: DeliveryRowView|
                        if self@.retried(id as int, now as int, max as nat)(row) {
                            row.leased(deadline as int)
                        } else {
                            row
                        },
                )
                &&& seqs::views(leases@) == self@.retries(
                    id as int,
                    now as int,
                    max as nat,
                ).map_values(|row: DeliveryRowView| row.leased(deadline as int))
            },
            result matches Err(error) ==> {
                &&& error == Error::CounterOutOfRange
                &&& exists|i: int|
                    0 <= i < self@.retries(id as int, now as int, max as nat).len() && {
                        let row = #[trigger] self@.retries(id as int, now as int, max as nat)[i];
                        row.generation == i64::MAX || row.delivery_count == i64::MAX
                    }
            },
    {
        let ghost rows = self@.deliveries;
        let ghost p = self@.retried(id as int, now as int, max as nat);
        let ghost lease = |row: DeliveryRowView| row.leased(deadline as int);
        let mut table: Vec<DeliveryRow> = Vec::new();
        let mut leases: Vec<DeliveryRow> = Vec::new();
        let mut i: usize = 0;
        assert(rows.take(0).filter(p).map_values(lease) =~= Seq::<DeliveryRowView>::empty());
        while i < self.deliveries.len()
            invariant
                i <= self.deliveries@.len(),
                rows == self@.deliveries,
                p == self@.retried(id as int, now as int, max as nat),
                lease == (|row: DeliveryRowView| row.leased(deadline as int)),
                table@.len() == i,
                forall|j: int|
                    0 <= j < i ==> (#[trigger] table@[j])@ == if p(rows[j]) {
                        rows[j].leased(deadline as int)
                    } else {
                        rows[j]
                    },
                seqs::views(leases@) == rows.take(i as int).filter(p).map_values(lease),
                forall|j: int|
                    0 <= j < rows.take(i as int).filter(p).len() ==> {
                        let row = #[trigger] rows.take(i as int).filter(p)[j];
                        row.generation < i64::MAX && row.delivery_count < i64::MAX
                    },
            decreases self.deliveries@.len() - i,
        {
            let row = self.deliveries[i];
            let ghost earlier = rows.take(i as int).filter(p);
            proof {
                assert(rows[i as int] == row@);
                seqs::lemma_filter_step(rows, i as int, p);
            }
            if row.consumer_id == id && row.visible_at_ms <= now && self.rank(id, now, &row) < max {
                assert(p(row@));
                if row.generation == i64::MAX || row.delivery_count == i64::MAX {
                    proof {
                        seqs::lemma_filter_prefix(rows, i + 1, p);
                        let k = earlier.len() as int;
                        assert(rows.take(i + 1).filter(p)[k] == row@);
                        assert(self@.retries(id as int, now as int, max as nat)[k] == row@);
                    }
                    return Err(Error::CounterOutOfRange);
                }
                let leased = DeliveryRow {
                    consumer_id: row.consumer_id,
                    message_id: row.message_id,
                    visible_at_ms: deadline,
                    generation: row.generation + 1,
                    delivery_count: row.delivery_count + 1,
                };
                assert(leased@ == row@.leased(deadline as int));
                proof {
                    seqs::lemma_views_push(leases@, leased);
                    assert(earlier.push(row@).map_values(lease) =~= earlier.map_values(lease).push(
                        leased@,
                    ));
                    assert forall|j: int| 0 <= j < earlier.push(row@).len() implies {
                        let kept = #[trigger] earlier.push(row@)[j];
                        kept.generation < i64::MAX && kept.delivery_count < i64::MAX
                    } by {
                        if j < earlier.len() {
                            assert(earlier[j] == earlier.push(row@)[j]);
                        }
                    }
                }
                leases.push(leased);
                table.push(leased);
            } else {
                assert(!p(row@));
                table.push(row);
            }
            i += 1;
        }
        assert(rows.take(i as int) =~= rows);
        assert(seqs::views(table@) =~= rows.map_values(
            |row: DeliveryRowView|
                if self@.retried(id as int, now as int, max as nat)(row) {
                    row.leased(deadline as int)
                } else {
                    row
                },
        ));
        assert(seqs::views(leases@) =~= self@.retries(
            id as int,
            now as int,
            max as nat,
        ).map_values(|row: DeliveryRowView| row.leased(deadline as int)));
        Ok((table, leases))
    }

    /// The deliveries that materialize the first `room` messages ahead of a
    /// consumer that are meant for it.
    fn lease_fresh(&self, consumer: &ConsumerRow, room: usize, deadline: i64) -> (leases: Vec<
        DeliveryRow,
    >)
        ensures
            seqs::views(leases@) == crate::model::first(
                self@.messages.filter(consumer@.wanted()),
                room as nat,
            ).map_values(
                |message: MessageView|
                    crate::model::first_delivery(consumer@.id, message, deadline as int),
            ),
    {
        let ghost messages = self@.messages;
        let ghost p = consumer@.wanted();
        let ghost lease = |message: MessageView|
            crate::model::first_delivery(consumer@.id, message, deadline as int);
        let mut leases: Vec<DeliveryRow> = Vec::new();
        let mut i: usize = 0;
        assert(messages.take(0).filter(p).map_values(lease) =~= Seq::<DeliveryRowView>::empty());
        while i < self.messages.len() && leases.len() < room
            invariant
                i <= self.messages@.len(),
                leases@.len() <= room,
                messages == self@.messages,
                p == consumer@.wanted(),
                lease == (|message: MessageView|
                    crate::model::first_delivery(consumer@.id, message, deadline as int)),
                seqs::views(leases@) == messages.take(i as int).filter(p).map_values(lease),
            decreases self.messages@.len() - i,
        {
            let ghost earlier = messages.take(i as int).filter(p);
            let message = &self.messages[i];
            proof {
                assert(messages[i as int] == message@);
                seqs::lemma_filter_step(messages, i as int, p);
            }
            if wants(consumer, message) {
                let row = DeliveryRow {
                    consumer_id: consumer.id,
                    message_id: message.id,
                    visible_at_ms: deadline,
                    generation: 1,
                    delivery_count: 1,
                };
                proof {
                    seqs::lemma_views_push(leases@, row);
                    assert(earlier.push(message@).map_values(lease) =~= earlier.map_values(
                        lease,
                    ).push(row@));
                }
                leases.push(row);
            }
            i += 1;
        }
        proof {
            let kept = messages.take(i as int).filter(p);
            assert(seqs::views(leases@).len() == kept.len());
            seqs::lemma_filter_prefix(messages, i as int, p);
            if i == messages.len() {
                assert(messages.take(i as int) =~= messages);
            } else {
                assert(kept.len() == room);
            }
            assert(crate::model::first(messages.filter(p), room as nat) =~= kept);
            assert(seqs::views(leases@) =~= crate::model::first(
                messages.filter(p),
                room as nat,
            ).map_values(
                |message: MessageView|
                    crate::model::first_delivery(consumer@.id, message, deadline as int),
            ));
        }
        leases
    }

    /// Whether any of the rows stands for a copy that is already among the
    /// deliveries.
    pub(crate) fn any_materialized(&self, rows: &Vec<DeliveryRow>) -> (found: bool)
        ensures
            found == exists|k: int|
                0 <= k < rows@.len() && self@.is_materialized(
                    (#[trigger] rows@[k])@.consumer_id,
                    rows@[k]@.message_id,
                ),
    {
        let mut i: usize = 0;
        while i < rows.len()
            invariant
                i <= rows@.len(),
                forall|k: int|
                    0 <= k < i ==> !self@.is_materialized(
                        (#[trigger] rows@[k])@.consumer_id,
                        rows@[k]@.message_id,
                    ),
            decreases rows@.len() - i,
        {
            if self.is_materialized(rows[i].consumer_id, rows[i].message_id) {
                assert(self@.is_materialized(
                    rows@[i as int]@.consumer_id,
                    rows@[i as int]@.message_id,
                ));
                return true;
            }
            i += 1;
        }
        false
    }

    /// Whether the message of any of the rows is gone.
    fn any_without_message(&self, rows: &Vec<DeliveryRow>) -> (found: bool)
        requires
            self@.messages_wf(),
        ensures
            found == exists|k: int|
                0 <= k < rows@.len() && !self@.has_message((#[trigger] rows@[k])@.message_id),
    {
        let mut i: usize = 0;
        while i < rows.len()
            invariant
                i <= rows@.len(),
                self@.messages_wf(),
                forall|k: int|
                    0 <= k < i ==> self@.has_message((#[trigger] rows@[k])@.message_id),
            decreases rows@.len() - i,
        {
            if self.find_message(rows[i].message_id).is_none() {
                assert(!self@.has_message(rows@[i as int]@.message_id));
                return true;
            }
            i += 1;
        }
        false
    }

    /// The lease of a message.
    fn find_lease(leases: &Vec<DeliveryRow>, message_id: i64) -> (found: Option<usize>)
        ensures
            match found {
                Some(i) => i < leases@.len() && leases@[i as int].message_id == message_id,
                None => !crate::model::is_leased(seqs::views(leases@), message_id as int),
            },
    {
        let mut i: usize = 0;
        while i < leases.len()
            invariant
                i <= leases@.len(),
                forall|j: int| 0 <= j < i ==> (#[trigger] leases@[j]).message_id != message_id,
            decreases leases@.len() - i,
        {
            if leases[i].message_id == message_id {
                return Some(i);
            }
            i += 1;
        }
        None
    }

    /// A delivery for every leased message, in the order of the messages.
    fn hand_out(&self, leases: &Vec<DeliveryRow>) -> (deliveries: Vec<Delivery>)
        requires
            forall|i: int, j: int|
                0 <= i < j < leases@.len() ==> (#[trigger] leases@[i]).message_id != (
                #[trigger] leases@[j]).message_id,
            forall|i: int| 0 <= i < leases@.len() ==> (#[trigger] leases@[i]).delivery_count >= 0,
        ensures
            seqs::views(deliveries@) == self@.messages.filter(
                crate::model::leased_in(seqs::views(leases@)),
            ).map_values(
                |message: MessageView|
                    crate::model::handed_out(seqs::views(leases@), message),
            ),
    {
        let ghost messages = self@.messages;
        let ghost rows = seqs::views(leases@);
        let ghost p = crate::model::leased_in(rows);
        let ghost give = |message: MessageView| crate::model::handed_out(rows, message);
        let mut deliveries: Vec<Delivery> = Vec::new();
        let mut i: usize = 0;
        assert(messages.take(0).filter(p).map_values(give) =~= Seq::<DeliveryView>::empty());
        while i < self.messages.len()
            invariant
                i <= self.messages@.len(),
                messages == self@.messages,
                rows == seqs::views(leases@),
                p == crate::model::leased_in(rows),
                give == (|message: MessageView| crate::model::handed_out(rows, message)),
                forall|i: int, j: int|
                    0 <= i < j < leases@.len() ==> (#[trigger] leases@[i]).message_id != (
                    #[trigger] leases@[j]).message_id,
                forall|i: int|
                    0 <= i < leases@.len() ==> (#[trigger] leases@[i]).delivery_count >= 0,
                seqs::views(deliveries@) == messages.take(i as int).filter(p).map_values(give),
            decreases self.messages@.len() - i,
        {
            let ghost earlier = messages.take(i as int).filter(p);
            let message = &self.messages[i];
            proof {
                assert(messages[i as int] == message@);
                seqs::lemma_filter_step(messages, i as int, p);
            }
            if let Some(k) = Self::find_lease(leases, message.id) {
                let lease = leases[k];
                let delivery = Delivery {
                    message: message.to_message(),
                    delivery_count: lease.delivery_count as u64,
                    receipt: lease.receipt(),
                };
                proof {
                    assert(rows[k as int].message_id == message@.id);
                    let c = choose|c: int|
                        0 <= c < rows.len() && #[trigger] rows[c].message_id == message@.id;
                    assert(leases@[c].message_id == leases@[k as int].message_id);
                    assert(c == k);
                    assert(delivery@ == give(message@));
                    seqs::lemma_views_push(deliveries@, delivery);
                    assert(earlier.push(message@).map_values(give) =~= earlier.map_values(
                        give,
                    ).push(delivery@));
                }
                deliveries.push(delivery);
            }
            i += 1;
        }
        assert(messages.take(i as int) =~= messages);
        assert(seqs::views(deliveries@) =~= messages.filter(p).map_values(
            |message: MessageView| crate::model::handed_out(seqs::views(leases@), message),
        ));
        deliveries
    }
}

/// What a poll does next.
#[derive(Debug)]
pub enum PollStep {
    /// The poll is over with these deliveries.
    Return(Vec<Delivery>),
    /// Nothing could be claimed yet.
    Wait { next_visible_at: Option<i64> },
}

impl PollStep {
    /// Whether this is how a poll goes on after a claim: it ends with what was
    /// claimed, or empty-handed once a draining consumer has nothing left.
    pub open spec fn follows(self, claim: Claim) -> bool {
        if claim.deliveries@.len() > 0 {
            self == PollStep::Return(claim.deliveries)
        } else if claim.draining && claim.next_visible_at is None {
            self matches PollStep::Return(deliveries) && deliveries@.len() == 0
        } else {
            self == (PollStep::Wait { next_visible_at: claim.next_visible_at })
        }
    }
}

impl Claim {
    /// How a poll goes on.
    pub fn step(self) -> (step: PollStep)
        ensures
            step.follows(self),
    {
        if self.deliveries.len() > 0 {
            PollStep::Return(self.deliveries)
        } else if self.draining && self.next_visible_at.is_none() {
            PollStep::Return(Vec::new())
        } else {
            PollStep::Wait { next_visible_at: self.next_visible_at }
        }
    }
}

impl LiteFan {
    /// When deliveries that are given back now become visible, where the request
    /// is not refused.
    pub fn release_span(
        &self,
        requested: usize,
        retry: Retry,
        clock: Result<i64, Error>,
    ) -> (result: Result<Span, Error>)
        ensures
            crate::time::is_span(
                result,
                clock,
                self@.release_time(
                    requested as nat,
                    retry.delay_nanos(),
                    crate::time::reading(clock),
                ),
            ),
    {
        match self.ensure_batch_size(requested) {
            Ok(()) => {},
            Err(error) => {
                return Err(error);
            },
        }
        let now: i64 = match clock {
            Ok(now) => now,
            Err(error) => {
                return Err(error);
            },
        };
        match add_duration(now, retry.delay()) {
            Ok(until) => Ok(Span { now, until }),
            Err(error) => Err(error),
        }
    }

    /// Until when deliveries that are extended now stay hidden, where the request
    /// is not refused.
    pub fn extension_span(
        &self,
        requested: usize,
        visibility_timeout: Duration,
        clock: Result<i64, Error>,
    ) -> (result: Result<Span, Error>)
        ensures
            crate::time::is_span(
                result,
                clock,
                self@.extension_time(
                    requested as nat,
                    crate::time::duration_nanos(visibility_timeout),
                    crate::time::reading(clock),
                ),
            ),
    {
        match self.ensure_batch_size(requested) {
            Ok(()) => {},
            Err(error) => {
                return Err(error);
            },
        }
        let timeout_ms: i64 = match duration_ms(visibility_timeout) {
            Ok(timeout_ms) => timeout_ms,
            Err(error) => {
                return Err(error);
            },
        };
        if timeout_ms == 0 {
            return Err(Error::InvalidVisibilityTimeout);
        }
        let now: i64 = match clock {
            Ok(now) => now,
            Err(error) => {
                return Err(error);
            },
        };
        match add_duration(now, visibility_timeout) {
            Ok(until) => Ok(Span { now, until }),
            Err(error) => Err(error),
        }
    }

    /// For how many milliseconds a poll leases, where it is not refused.
    pub fn lease_ms(&self, poll: Poll, deadline_fits: bool) -> (result: Result<i64, Error>)
        ensures
            match self@.poll_refusal(
                poll.max_messages as nat,
                crate::time::duration_nanos(poll.visibility_timeout),
                deadline_fits,
            ) {
                Some(error) => result is Err && result->Err_0@ == error,
                None => result is Ok && result->Ok_0 == crate::time::whole_ms(
                    poll.visibility_timeout,
                ),
            },
    {
        match self.ensure_batch_size(poll.max_messages) {
            Ok(()) => {},
            Err(error) => {
                return Err(error);
            },
        }
        let lease_ms: i64 = match duration_ms(poll.visibility_timeout) {
            Ok(lease_ms) => lease_ms,
            Err(error) => {
                return Err(error);
            },
        };
        if lease_ms == 0 {
            return Err(Error::InvalidVisibilityTimeout);
        }
        if !deadline_fits {
            return Err(Error::InvalidPoll("wait is too large"));
        }
        Ok(lease_ms)
    }

    /// How long an empty-handed poll sleeps before it looks again: `None` where
    /// it may wait no longer.
    pub fn wait(
        &self,
        next_visible_at: Option<i64>,
        remaining: Duration,
        clock: Result<i64, Error>,
    ) -> (result: Result<Option<Duration>, Error>)
        ensures
            ({
                let remaining_nanos = crate::time::duration_nanos(remaining);
                if remaining_nanos == 0 {
                    result is Ok && result->Ok_0 is None
                } else if next_visible_at is Some && clock is Err {
                    result is Err && result->Err_0 == clock->Err_0
                } else {
                    &&& result is Ok
                    &&& result->Ok_0 matches Some(sleep)
                    &&& crate::time::duration_nanos(sleep) == self@.sleep_nanos(
                        crate::tables::widen(next_visible_at),
                        remaining_nanos,
                        clock->Ok_0 as int,
                    )
                }
            }),
    {
        if remaining.is_zero() {
            return Ok(None);
        }
        let mut sleep = remaining;
        if self.cross_process_poll_interval.as_nanos() <= sleep.as_nanos() {
            sleep = self.cross_process_poll_interval;
        }
        if let Some(time) = next_visible_at {
            let now: i64 = match clock {
                Ok(now) => now,
                Err(error) => {
                    return Err(error);
                },
            };
            let until_visible = duration_until_ms(time, now);
            if until_visible.as_nanos() < sleep.as_nanos() {
                sleep = until_visible;
            }
        }
        Ok(Some(sleep))
    }
}

impl Consumer {
    /// The identifier that wakeups for this consumer carry.
    pub fn id(&self) -> (id: i64)
        ensures
            id == self@.id,
    {
        self.id
    }

    pub fn name(&self) -> (name: &str)
        ensures
            name@ == self@.name,
    {
        self.name.as_str()
    }

    pub fn filter(&self) -> (filter: &Filter)
        ensures
            filter@ == self@.filter,
    {
        &self.filter
    }

    /// Permanently stop future fan-out while preserving outstanding deliveries.
    ///
    /// Returns true when this call performed the active-to-draining transition.
    pub fn begin_draining(&self, fan: &mut LiteFan, clock: Result<i64, Error>) -> (result: Result<
        bool,
        Error,
    >)
        requires
            old(fan)@.wf(),
        ensures
            final(fan)@.wf(),
            match old(fan)@.drain_outcome(self@.id, self@.name, crate::time::reading(clock)) {
                Err(error) => {
                    &&& result is Err
                    &&& result->Err_0@ == error
                    &&& final(fan)@ == old(fan)@
                },
                Ok(changed) => {
                    &&& result is Ok
                    &&& result->Ok_0 == changed
                    &&& final(fan)@ == if changed {
                        old(fan)@.drained(self@.id, clock->Ok_0 as int)
                    } else {
                        old(fan)@
                    }
                },
            },
    {
        let ghost before = fan@;
        let now: i64 = match clock {
            Ok(now) => now,
            Err(error) => {
                return Err(error);
            },
        };
        let index: usize = match fan.find_consumer(self.id) {
            Some(index) => index,
            None => {
                return Err(self.deleted_error());
            },
        };
        if fan.consumers[index].draining_at_ms.is_some() {
            return Ok(false);
        }
        let scan_cursor: i64 = fan.consumers[index].scan_cursor;
        let high_water: i64 = fan.high_water();
        let limit: i64 = if scan_cursor < high_water {
            high_water
        } else {
            scan_cursor
        };
        proof {
            crate::invariants::lemma_drained_wf(before, self@.id, now as int);
        }
        fan.consumers[index].draining_at_ms = Some(now);
        fan.consumers[index].drain_cursor = Some(limit);
        fan.wake(Wakeup::Consumer(self.id));
        assert(fan@ =~= before.drained(self@.id, now as int));
        Ok(true)
    }

    /// Inspect this consumer's durable state and outstanding work.
    pub fn snapshot(&self, fan: &LiteFan, clock: Result<i64, Error>) -> (result: Result<
        ConsumerSnapshot,
        Error,
    >)
        requires
            fan@.wf(),
        ensures
            match fan@.snapshot_error(self@.id, self@.name, crate::time::reading(clock)) {
                Some(error) => result is Err && result->Err_0@ == error,
                None => result is Ok && result->Ok_0.describes(
                    fan@,
                    fan@.consumer(self@.id),
                    clock->Ok_0 as int,
                ),
            },
    {
        let now: i64 = match clock {
            Ok(now) => now,
            Err(error) => {
                return Err(error);
            },
        };
        match fan.find_consumer(self.id) {
            Some(index) => fan.consumer_snapshot(&fan.consumers[index], now),
            None => Err(self.deleted_error()),
        }
    }

    /// One attempt to poll: claim what can be claimed, or say how to go on.
    /// `deadline_fits` tells whether the end of `poll.wait` can be represented.
    pub fn poll(
        &self,
        fan: &mut LiteFan,
        poll: Poll,
        deadline_fits: bool,
        clock: Result<i64, Error>,
    ) -> (result: Result<PollStep, Error>)
        requires
            old(fan)@.wf(),
        ensures
            final(fan)@.wf(),
            poll.max_messages == 0 ==> {
                &&& result is Ok
                &&& result->Ok_0 matches PollStep::Return(deliveries)
                &&& deliveries@.len() == 0
                &&& final(fan)@ == old(fan)@
            },
            poll.max_messages > 0 ==> match old(fan)@.poll_refusal(
                poll.max_messages as nat,
                crate::time::duration_nanos(poll.visibility_timeout),
                deadline_fits,
            ) {
                Some(error) => {
                    &&& result is Err
                    &&& result->Err_0@ == error
                    &&& final(fan)@ == old(fan)@
                },
                None => match old(fan)@.claim_error(
                    self@.id,
                    self@.name,
                    poll.max_messages as nat,
                    crate::time::whole_ms(poll.visibility_timeout) as int,
                    crate::time::reading(clock),
                ) {
                    Some(error) => {
                        &&& result is Err
                        &&& result->Err_0@ == error
                        &&& final(fan)@ == old(fan)@
                    },
                    None => match old(fan)@.hand_out_error(
                        self@.id,
                        clock->Ok_0 as int,
                        poll.max_messages as nat,
                    ) {
                        Some(error) => {
                            &&& result is Err
                            &&& result->Err_0@ == error
                            &&& final(fan)@ == old(fan)@.claimed(
                                self@.id,
                                clock->Ok_0 as int,
                                poll.max_messages as nat,
                                clock->Ok_0 + crate::time::whole_ms(poll.visibility_timeout),
                            )
                        },
                        None => {
                            &&& result is Ok
                            &&& exists|claim: Claim|
                                #[trigger] claim.describes(
                                    old(fan)@,
                                    final(fan)@,
                                    self@.id,
                                    clock->Ok_0 as int,
                                    poll.max_messages as nat,
                                    crate::time::whole_ms(poll.visibility_timeout) as int,
                                ) && result->Ok_0.follows(claim)
                        },
                    },
                },
            },
    {
        if poll.max_messages == 0 {
            return Ok(PollStep::Return(Vec::new()));
        }
        let lease_ms: i64 = match fan.lease_ms(poll, deadline_fits) {
            Ok(lease_ms) => lease_ms,
            Err(error) => {
                return Err(error);
            },
        };
        match self.claim(fan, poll.max_messages, lease_ms, clock) {
            Ok(claim) => Ok(claim.step()),
            Err(error) => Err(error),
        }
    }

    /// The error of a handle whose consumer is gone.
    fn deleted_error(&self) -> (error: Error)
        ensures
            error@ == (ErrorView::ConsumerDeleted { name: self@.name }),
    {
        Error::ConsumerDeleted { name: self.name.clone() }
    }

    /// Leases up to `max_messages` messages until `lease_ms` from now: visible
    /// deliveries first, then messages ahead of the consumer. The leases stand
    /// even where one of them turns out to have no message.
    pub fn claim(
        &self,
        fan: &mut LiteFan,
        max_messages: usize,
        lease_ms: i64,
        clock: Result<i64, Error>,
    ) -> (result: Result<Claim, Error>)
        requires
            old(fan)@.wf(),
        ensures
            final(fan)@.wf(),
            match old(fan)@.claim_error(
                self@.id,
                self@.name,
                max_messages as nat,
                lease_ms as int,
                crate::time::reading(clock),
            ) {
                Some(error) => {
                    &&& result is Err
                    &&& result->Err_0@ == error
                    &&& final(fan)@ == old(fan)@
                },
                None => match old(fan)@.hand_out_error(
                    self@.id,
                    clock->Ok_0 as int,
                    max_messages as nat,
                ) {
                    Some(error) => {
                        &&& result is Err
                        &&& result->Err_0@ == error
                        &&& final(fan)@ == old(fan)@.claimed(
                            self@.id,
                            clock->Ok_0 as int,
                            max_messages as nat,
                            clock->Ok_0 + lease_ms,
                        )
                    },
                    None => {
                        &&& result is Ok
                        &&& result->Ok_0.describes(
                            old(fan)@,
                            final(fan)@,
                            self@.id,
                            clock->Ok_0 as int,
                            max_messages as nat,
                            lease_ms as int,
                        )
                    },
                },
            },
    {
        let ghost before = fan@;
        let ghost id = self@.id;
        let now: i64 = match clock {
            Ok(now) => now,
            Err(error) => {
                return Err(error);
            },
        };
        let index: usize = match fan.find_consumer(self.id) {
            Some(index) => index,
            None => {
                return Err(self.deleted_error());
            },
        };
        let draining = fan.consumers[index].draining_at_ms.is_some();
        let scan_cursor: i64 = fan.consumers[index].scan_cursor;
        let limit: i64 = fan.scan_limit(&fan.consumers[index]);
        let earliest = fan.earliest_visible(self.id);
        proof {
            crate::claims::lemma_earliest(
                before,
                id,
                now as int,
                crate::tables::widen(earliest),
            );
        }
        let retry_ready = match earliest {
            Some(time) => time <= now,
            None => false,
        };
        if !retry_ready && scan_cursor >= limit {
            proof {
                crate::claims::lemma_nothing_retried(before, id, now as int, max_messages as nat);
            }
            return Ok(
                Claim { deliveries: Vec::new(), next_visible_at: earliest, draining },
            );
        }
        let deadline: i64 = match now.checked_add(lease_ms) {
            Some(deadline) => deadline,
            None => {
                return Err(Error::DurationOutOfRange);
            },
        };
        if max_messages as u128 > i64::MAX as u128 {
            return Err(Error::InvalidPoll("max_messages is too large"));
        }
        let (table, retries) = match fan.lease_retries(self.id, now, max_messages, deadline) {
            Ok(leased) => leased,
            Err(error) => {
                return Err(error);
            },
        };
        let ghost max = max_messages as nat;
        let room: usize = max_messages.saturating_sub(retries.len());
        let fresh = fan.lease_fresh(&fan.consumers[index], room, deadline);
        let new_cursor: i64 = if room == 0 || scan_cursor >= limit {
            scan_cursor
        } else if fresh.len() < room {
            limit
        } else {
            fresh[fresh.len() - 1].message_id
        };
        proof {
            assert(seqs::views(retries@).len() == before.retries(id, now as int, max).len());
            assert(seqs::views(fresh@).len() == before.fresh(id, now as int, max).len());
            if room > 0 && fresh.len() >= room {
                assert(seqs::views(fresh@)[fresh.len() - 1] == fresh@[fresh.len() - 1]@);
            }
            assert(new_cursor == before.advanced_cursor(id, now as int, max));
        }
        proof {
            let rows = seqs::views(fresh@);
            assert forall|k: int| 0 <= k < fresh@.len() implies {
                &&& (#[trigger] fresh@[k])@.consumer_id == id
                &&& fresh@[k]@.message_id == before.fresh(id, now as int, max)[k].id
            } by {
                assert(rows[k] == fresh@[k]@);
            }
            assert forall|k: int| 0 <= k < retries@.len() implies (
            #[trigger] retries@[k])@.message_id == before.retries(
                id,
                now as int,
                max,
            )[k].message_id by {
                assert(seqs::views(retries@)[k] == retries@[k]@);
            }
        }
        let colliding = fan.any_materialized(&fresh);
        proof {
            if before.collides(id, now as int, max) {
                let k = choose|k: int|
                    0 <= k < before.fresh(id, now as int, max).len() && before.is_materialized(
                        id,
                        (#[trigger] before.fresh(id, now as int, max)[k]).id,
                    );
                assert(before.is_materialized(fresh@[k]@.consumer_id, fresh@[k]@.message_id));
            }
            assert(colliding == before.collides(id, now as int, max));
        }
        if colliding {
            return Err(Error::StorageInvariant("a new delivery already exists"));
        }
        let dangling = fan.any_without_message(&retries);
        proof {
            if before.dangles(id, now as int, max) {
                let k = choose|k: int|
                    0 <= k < before.retries(id, now as int, max).len() && !before.has_message(
                        (#[trigger] before.retries(id, now as int, max)[k]).message_id,
                    );
                assert(!before.has_message(retries@[k]@.message_id));
            }
            assert(dangling == before.dangles(id, now as int, max));
        }
        let mut leases = retries;
        append_rows(&mut leases, &fresh);
        let mut deliveries_after = table;
        append_rows(&mut deliveries_after, &fresh);
        proof {
            assert(seqs::views(leases@) =~= before.leases(id, now as int, max, deadline as int));
            crate::claims::lemma_leases_distinct(before, id, now as int, max, deadline as int);
            assert forall|i: int, j: int|
                0 <= i < j < leases@.len() implies (#[trigger] leases@[i]).message_id != (
            #[trigger] leases@[j]).message_id by {
                assert(seqs::views(leases@)[i] == leases@[i]@);
                assert(seqs::views(leases@)[j] == leases@[j]@);
            }
            assert forall|i: int|
                0 <= i < leases@.len() implies (#[trigger] leases@[i]).delivery_count >= 0 by {
                assert(seqs::views(leases@)[i] == leases@[i]@);
                if i < before.retries(id, now as int, max).len() {
                    let a = crate::claims::lemma_retry_source(before, id, now as int, max, i);
                    assert(before.deliveries[a].delivery_count >= 0);
                }
            }
        }
        let deliveries = fan.hand_out(&leases);
        fan.deliveries = deliveries_after;
        fan.consumers[index].scan_cursor = new_cursor;
        proof {
            crate::claims::lemma_claimed_wf(before, id, now as int, max, deadline as int);
            assert(fan@ =~= before.claimed(id, now as int, max, deadline as int));
        }
        if dangling {
            return Err(Error::StorageInvariant("a claimed delivery has no matching message"));
        }
        let next_visible_at: Option<i64> = if deliveries.len() > 0 {
            None
        } else if new_cursor < limit {
            Some(now)
        } else {
            fan.earliest_visible(self.id)
        };
        Ok(Claim { deliveries, next_visible_at, draining })
    }

    /// Atomically acknowledge receipts.
    pub fn ack_batch(&self, fan: &mut LiteFan, receipts: &[Receipt]) -> (result: Result<
        BatchResult,
        Error,
    >)
        requires
            old(fan)@.wf(),
        ensures
            final(fan)@.wf(),
            match old(fan)@.batch_error(receipts@.len()) {
                Some(error) => {
                    &&& result is Err
                    &&& result->Err_0@ == error
                    &&& final(fan)@ == old(fan)@
                },
                None => {
                    &&& result is Ok
                    &&& result->Ok_0.counts(
                        receipts@.len(),
                        old(fan)@.hits(self@.id, seqs::views(receipts@)).len(),
                    )
                    &&& final(fan)@ == old(fan)@.acked(self@.id, seqs::views(receipts@))
                },
            },
    {
        let ghost before = fan@;
        let ghost wanted = seqs::views(receipts@);
        let ghost p = crate::model::hit(self@.id, wanted);
        let ghost keep = crate::model::negate(p);
        match fan.ensure_batch_size(receipts.len()) {
            Ok(()) => {},
            Err(error) => {
                return Err(error);
            },
        }
        let mut kept: Vec<DeliveryRow> = Vec::new();
        let mut applied: usize = 0;
        let mut i: usize = 0;
        while i < fan.deliveries.len()
            invariant
                i <= fan.deliveries@.len(),
                *fan == *old(fan),
                before == fan@,
                wanted == seqs::views(receipts@),
                p == crate::model::hit(self@.id, wanted),
                keep == crate::model::negate(p),
                seqs::views(kept@) == before.deliveries.take(i as int).filter(keep),
                applied == before.deliveries.take(i as int).filter(p).len(),
                applied <= i,
            decreases fan.deliveries@.len() - i,
        {
            let row = fan.deliveries[i];
            proof {
                seqs::lemma_filter_step(before.deliveries, i as int, p);
                seqs::lemma_filter_step(before.deliveries, i as int, keep);
                seqs::lemma_views_push(kept@, row);
                assert(before.deliveries[i as int] == row@);
            }
            if is_hit(&row, self.id, receipts) {
                applied += 1;
            } else {
                kept.push(row);
            }
            i += 1;
        }
        fan.deliveries = kept;
        proof {
            assert(before.deliveries.take(i as int) =~= before.deliveries);
            crate::invariants::lemma_fewer_deliveries(before, keep);
            assert(fan@ =~= before.acked(self@.id, wanted));
        }
        Ok(BatchResult { applied, stale: receipts.len().saturating_sub(applied) })
    }

    /// Acknowledge one receipt. False means it was stale or from another consumer.
    pub fn ack(&self, fan: &mut LiteFan, receipt: Receipt) -> (result: Result<bool, Error>)
        requires
            old(fan)@.wf(),
        ensures
            final(fan)@.wf(),
            result is Ok,
            result->Ok_0 == (old(fan)@.hits(self@.id, seq![receipt@]).len() == 1),
            final(fan)@ == old(fan)@.acked(self@.id, seq![receipt@]),
    {
        let batch = [receipt];
        assert(seqs::views(batch@) =~= seq![receipt@]);
        match self.ack_batch(fan, &batch) {
            Ok(result) => Ok(result.applied == 1),
            Err(error) => Err(error),
        }
    }

    /// Atomically release receipts after a shared delay.
    pub fn nack_batch(
        &self,
        fan: &mut LiteFan,
        receipts: &[Receipt],
        retry: Retry,
        clock: Result<i64, Error>,
    ) -> (result: Result<BatchResult, Error>)
        requires
            old(fan)@.wf(),
        ensures
            final(fan)@.wf(),
            receipts@.len() == 0 ==> {
                &&& result is Ok
                &&& result->Ok_0.counts(0, 0)
                &&& final(fan)@ == old(fan)@
            },
            receipts@.len() > 0 ==> match old(fan)@.nack_time(
                self@.id,
                seqs::views(receipts@),
                retry.delay_nanos(),
                crate::time::reading(clock),
            ) {
                Err(error) => {
                    &&& result is Err
                    &&& result->Err_0@ == error
                    &&& final(fan)@ == old(fan)@
                },
                Ok(visible_at) => {
                    &&& result is Ok
                    &&& result->Ok_0.counts(
                        receipts@.len(),
                        old(fan)@.hits(self@.id, seqs::views(receipts@)).len(),
                    )
                    &&& final(fan)@ == old(fan)@.nacked(
                        self@.id,
                        seqs::views(receipts@),
                        visible_at,
                    )
                },
            },
    {
        let ghost before = fan@;
        let ghost wanted = seqs::views(receipts@);
        let ghost p = crate::model::hit(self@.id, wanted);
        let ghost rows = before.deliveries;
        if receipts.len() == 0 {
            return Ok(BatchResult { applied: 0, stale: 0 });
        }
        let visible_at: i64 = match fan.release_span(receipts.len(), retry, clock) {
            Ok(span) => span.until,
            Err(error) => {
                return Err(error);
            },
        };
        let mut table: Vec<DeliveryRow> = Vec::new();
        let mut applied: usize = 0;
        let mut i: usize = 0;
        while i < fan.deliveries.len()
            invariant
                i <= fan.deliveries@.len(),
                *fan == *old(fan),
                before == fan@,
                rows == before.deliveries,
                wanted == seqs::views(receipts@),
                p == crate::model::hit(self@.id, wanted),
                table@.len() == i,
                applied <= i,
                forall|j: int|
                    0 <= j < i ==> (#[trigger] table@[j])@ == if p(rows[j]) {
                        rows[j].released(visible_at as int)
                    } else {
                        rows[j]
                    },
                applied == rows.take(i as int).filter(p).len(),
                forall|j: int|
                    0 <= j < rows.take(i as int).filter(p).len() ==> (#[trigger] rows.take(
                        i as int,
                    ).filter(p)[j]).generation < i64::MAX,
                receipts@.len() > 0,
                before.release_time(
                    receipts@.len(),
                    retry.delay_nanos(),
                    crate::time::reading(clock),
                ) == Ok::<int, ErrorView>(visible_at as int),
                before.wf(),
            decreases fan.deliveries@.len() - i,
        {
            let row = fan.deliveries[i];
            let ghost earlier = rows.take(i as int).filter(p);
            proof {
                seqs::lemma_filter_step(rows, i as int, p);
                assert(rows[i as int] == row@);
            }
            if is_hit(&row, self.id, receipts) {
                if row.generation == i64::MAX {
                    proof {
                        seqs::lemma_filter_prefix(rows, i + 1, p);
                        let k = earlier.len() as int;
                        assert(rows.take(i + 1).filter(p)[k] == row@);
                        assert(before.hits(self@.id, wanted)[k] == row@);
                    }
                    return Err(Error::CounterOutOfRange);
                }
                let released = DeliveryRow {
                    visible_at_ms: visible_at,
                    generation: row.generation + 1,
                    ..row
                };
                assert(released@ == row@.released(visible_at as int));
                proof {
                    assert forall|j: int| 0 <= j < earlier.push(row@).len() implies (
                    #[trigger] earlier.push(row@)[j]).generation < i64::MAX by {
                        if j < earlier.len() {
                            assert(earlier[j] == earlier.push(row@)[j]);
                        }
                    }
                }
                table.push(released);
                applied += 1;
            } else {
                table.push(row);
            }
            i += 1;
        }
        let ghost after = before.nacked(self@.id, wanted, visible_at as int);
        proof {
            assert(rows.take(i as int) =~= rows);
            assert(seqs::views(table@) =~= after.deliveries);
            crate::invariants::lemma_nacked_wf(before, self@.id, wanted, visible_at as int);
        }
        fan.deliveries = table;
        if applied > 0 {
            fan.wake(Wakeup::Consumer(self.id));
        }
        assert(fan@ =~= after);
        Ok(BatchResult { applied, stale: receipts.len().saturating_sub(applied) })
    }

    /// Release one receipt for retry. False means it was stale or from another
    /// consumer.
    pub fn nack(
        &self,
        fan: &mut LiteFan,
        receipt: Receipt,
        retry: Retry,
        clock: Result<i64, Error>,
    ) -> (result: Result<bool, Error>)
        requires
            old(fan)@.wf(),
        ensures
            final(fan)@.wf(),
            match old(fan)@.nack_time(
                self@.id,
                seq![receipt@],
                retry.delay_nanos(),
                crate::time::reading(clock),
            ) {
                Err(error) => {
                    &&& result is Err
                    &&& result->Err_0@ == error
                    &&& final(fan)@ == old(fan)@
                },
                Ok(visible_at) => {
                    &&& result is Ok
                    &&& result->Ok_0 == (old(fan)@.hits(self@.id, seq![receipt@]).len() == 1)
                    &&& final(fan)@ == old(fan)@.nacked(self@.id, seq![receipt@], visible_at)
                },
            },
    {
        let batch = [receipt];
        assert(seqs::views(batch@) =~= seq![receipt@]);
        match self.nack_batch(fan, &batch, retry, clock) {
            Ok(result) => Ok(result.applied == 1),
            Err(error) => Err(error),
        }
    }

    /// Atomically extend current delivery attempts to one shared deadline.
    ///
    /// The receipt generation does not change, so successfully extended
    /// receipts remain valid for acknowledgement.
    pub fn extend_visibility_batch(
        &self,
        fan: &mut LiteFan,
        receipts: &[Receipt],
        visibility_timeout: Duration,
        clock: Result<i64, Error>,
    ) -> (result: Result<BatchResult, Error>)
        requires
            old(fan)@.wf(),
        ensures
            final(fan)@.wf(),
            receipts@.len() == 0 ==> {
                &&& result is Ok
                &&& result->Ok_0.counts(0, 0)
                &&& final(fan)@ == old(fan)@
            },
            receipts@.len() > 0 ==> match old(fan)@.extension_time(
                receipts@.len(),
                crate::time::duration_nanos(visibility_timeout),
                crate::time::reading(clock),
            ) {
                Err(error) => {
                    &&& result is Err
                    &&& result->Err_0@ == error
                    &&& final(fan)@ == old(fan)@
                },
                Ok(visible_at) => {
                    &&& result is Ok
                    &&& result->Ok_0.counts(
                        receipts@.len(),
                        old(fan)@.hits(self@.id, seqs::views(receipts@)).len(),
                    )
                    &&& final(fan)@ == old(fan)@.extended(
                        self@.id,
                        seqs::views(receipts@),
                        visible_at,
                    )
                },
            },
    {
        let ghost before = fan@;
        let ghost wanted = seqs::views(receipts@);
        let ghost p = crate::model::hit(self@.id, wanted);
        let ghost rows = before.deliveries;
        if receipts.len() == 0 {
            return Ok(BatchResult { applied: 0, stale: 0 });
        }
        let visible_at: i64 = match fan.extension_span(
            receipts.len(),
            visibility_timeout,
            clock,
        ) {
            Ok(span) => span.until,
            Err(error) => {
                return Err(error);
            },
        };
        let mut table: Vec<DeliveryRow> = Vec::new();
        let mut applied: usize = 0;
        let mut i: usize = 0;
        while i < fan.deliveries.len()
            invariant
                i <= fan.deliveries@.len(),
                *fan == *old(fan),
                before == fan@,
                rows == before.deliveries,
                wanted == seqs::views(receipts@),
                p == crate::model::hit(self@.id, wanted),
                table@.len() == i,
                applied <= i,
                forall|j: int|
                    0 <= j < i ==> (#[trigger] table@[j])@ == if p(rows[j]) {
                        rows[j].extended(visible_at as int)
                    } else {
                        rows[j]
                    },
                applied == rows.take(i as int).filter(p).len(),
            decreases fan.deliveries@.len() - i,
        {
            let row = fan.deliveries[i];
            proof {
                seqs::lemma_filter_step(rows, i as int, p);
                assert(rows[i as int] == row@);
            }
            if is_hit(&row, self.id, receipts) {
                let extended = DeliveryRow {
                    visible_at_ms: if row.visible_at_ms < visible_at {
                        visible_at
                    } else {
                        row.visible_at_ms
                    },
                    ..row
                };
                assert(extended@ == row@.extended(visible_at as int));
                table.push(extended);
                applied += 1;
            } else {
                table.push(row);
            }
            i += 1;
        }
        let ghost after = before.extended(self@.id, wanted, visible_at as int);
        proof {
            assert(rows.take(i as int) =~= rows);
            assert(seqs::views(table@) =~= after.deliveries);
            crate::invariants::lemma_extended_wf(before, self@.id, wanted, visible_at as int);
        }
        fan.deliveries = table;
        assert(fan@ =~= after);
        Ok(BatchResult { applied, stale: receipts.len().saturating_sub(applied) })
    }

    /// Extend one current delivery attempt's visibility deadline.
    pub fn extend_visibility(
        &self,
        fan: &mut LiteFan,
        receipt: Receipt,
        visibility_timeout: Duration,
        clock: Result<i64, Error>,
    ) -> (result: Result<bool, Error>)
        requires
            old(fan)@.wf(),
        ensures
            final(fan)@.wf(),
            match old(fan)@.extension_time(
                1,
                crate::time::duration_nanos(visibility_timeout),
                crate::time::reading(clock),
            ) {
                Err(error) => {
                    &&& result is Err
                    &&& result->Err_0@ == error
                    &&& final(fan)@ == old(fan)@
                },
                Ok(visible_at) => {
                    &&& result is Ok
                    &&& result->Ok_0 == (old(fan)@.hits(self@.id, seq![receipt@]).len() == 1)
                    &&& final(fan)@ == old(fan)@.extended(self@.id, seq![receipt@], visible_at)
                },
            },
    {
        let batch = [receipt];
        assert(seqs::views(batch@) =~= seq![receipt@]);
        match self.extend_visibility_batch(fan, &batch, visibility_timeout, clock) {
            Ok(result) => Ok(result.applied == 1),
            Err(error) => Err(error),
        }
    }
}

} // verus!
