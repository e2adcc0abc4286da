//! Store-wide publishing, inspection, deletion, and retention operations.
use vstd::prelude::*;

use crate::api::{
    ConsumerSnapshot, DeleteMode, DeleteOutcome, MessageId, MessageView, Prune, PruneOutcome,
    Publish, PublishOutcome, StoreSnapshot,
};
use crate::consumer::ConsumerBuilder;
use crate::error::Error;
use crate::model::StoreView;
use crate::names::name_before;
use crate::seqs;
use crate::signals::{notify_publishes, Wakeup};
use crate::storage::{keep_flagged, same_bytes, wants, LiteFan};
use crate::tables::{LedgerRow, MessageRow};
use crate::time::Span;

verus! {

/// The position of an idempotency key in the ledger.
fn find_key(ledger: &Vec<LedgerRow>, key: &[u8]) -> (found: Option<usize>)
    ensures
        match found {
            Some(i) => i < ledger@.len() && ledger@[i as int]@.key == key@,
            None => forall|j: int|
                0 <= j < ledger@.len() ==> (#[trigger] seqs::views(ledger@)[j]).key != key@,
        },
{
    let ghost rows = seqs::views(ledger@);
    let mut i: usize = 0;
    while i < ledger.len()
        invariant
            i <= ledger@.len(),
            rows == seqs::views(ledger@),
            forall|j: int| 0 <= j < i ==> (#[trigger] rows[j]).key != key@,
        decreases ledger@.len() - i,
    {
        assert(rows[i as int] == ledger@[i as int]@);
        if same_bytes(ledger[i].key.as_slice(), key) {
            return Some(i);
        }
        i += 1;
    }
    None
}

/// Whether any message of a batch carries an idempotency key.
fn any_key(messages: &[Publish<'_>]) -> (found: bool)
    ensures
        found == crate::model::has_keys(seqs::views(messages@)),
{
    let ghost batch = seqs::views(messages@);
    let mut i: usize = 0;
    while i < messages.len()
        invariant
            i <= messages@.len(),
            batch == seqs::views(messages@),
            forall|j: int| 0 <= j < i ==> (#[trigger] batch[j]).idempotency_key is None,
        decreases messages@.len() - i,
    {
        assert(batch[i as int] == messages@[i as int]@);
        if messages[i].idempotency_key.is_some() {
            assert(batch[i as int].idempotency_key is Some);
            return true;
        }
        i += 1;
    }
    false
}

impl LiteFan {
    /// A copy of the ledger, without the keys that have expired at `now` where
    /// `purge` is set.
    fn copy_ledger(&self, purge: bool, now: i64) -> (ledger: Vec<LedgerRow>)
        ensures
            seqs::views(ledger@) == if purge {
                self@.without_expired(now as int).ledger
            } else {
                self@.ledger
            },
    {
        let ghost rows = self@.ledger;
        let ghost p = crate::model::unexpired(now as int);
        let mut ledger: Vec<LedgerRow> = Vec::new();
        let mut i: usize = 0;
        while i < self.ledger.len()
            invariant
                i <= self.ledger@.len(),
                rows == self@.ledger,
                p == crate::model::unexpired(now as int),
                seqs::views(ledger@) == if purge {
                    rows.take(i as int).filter(p)
                } else {
                    rows.take(i as int)
                },
            decreases self.ledger@.len() - i,
        {
            let row = &self.ledger[i];
            proof {
                assert(rows[i as int] == row@);
                seqs::lemma_filter_step(rows, i as int, p);
                assert(rows.take(i + 1) =~= rows.take(i as int).push(row@));
            }
            if !purge || row.expires_at_ms > now {
                let key = row.key.clone();
                assert(key@ =~= row.key@);
                let copy = LedgerRow {
                    key,
                    message_id: row.message_id,
                    expires_at_ms: row.expires_at_ms,
                };
                proof {
                    seqs::lemma_views_push(ledger@, copy);
                }
                ledger.push(copy);
            }
            i += 1;
        }
        assert(rows.take(i as int) =~= rows);
        ledger
    }

    /// The time of a publish and the expiry of its idempotency keys, where the
    /// batch is not refused. Without a key there is nothing to expire.
    pub fn publish_span(&self, messages: &[Publish<'_>], clock: Result<i64, Error>) -> (result:
        Result<Span, Error>)
        requires
            self@.wf(),
        ensures
            match self@.publish_refusal(seqs::views(messages@), crate::time::reading(clock)) {
                Some(error) => result is Err && result->Err_0@ == error,
                None => {
                    &&& result is Ok
                    &&& clock is Ok
                    &&& result->Ok_0.now == clock->Ok_0
                    &&& result->Ok_0.until == if crate::model::has_keys(seqs::views(messages@)) {
                        self@.expiry(clock->Ok_0 as int)
                    } else {
                        clock->Ok_0 as int
                    }
                },
            },
    {
        match self.ensure_batch_size(messages.len()) {
            Ok(()) => {},
            Err(error) => {
                return Err(error);
            },
        }
        let now: i64 = match clock {
            Ok(now) => now,
            Err(error) => {
                return Err(error);
            },
        };
        if !any_key(messages) {
            return Ok(Span { now, until: now });
        }
        match now.checked_add(self.idempotency_window_ms) {
            Some(until) => Ok(Span { now, until }),
            None => Err(Error::DurationOutOfRange),
        }
    }

    /// Publish one message. An unexpired idempotency key is a no-op.
    pub fn publish(&mut self, message: Publish<'_>, clock: Result<i64, Error>) -> (result: Result<
        PublishOutcome,
        Error,
    >)
        requires
            old(self)@.wf(),
        ensures
            final(self)@.wf(),
            match old(self)@.publish_error(seq![message@], crate::time::reading(clock)) {
                Some(error) => {
                    &&& result is Err
                    &&& result->Err_0@ == error
                    &&& final(self)@ == old(self)@
                },
                None => {
                    let now = clock->Ok_0 as int;
                    &&& result is Ok
                    &&& result->Ok_0@ == old(self)@.publish_base(
                        seq![message@],
                        now,
                    ).publish_one_outcome(message@)
                    &&& final(self)@ == old(self)@.published(seq![message@], now)
                },
            },
    {
        let batch = [message];
        assert(seqs::views(batch@) =~= seq![message@]);
        match self.publish_batch(&batch, clock) {
            Ok(outcomes) => {
                proof {
                    let base = old(self)@.publish_base(seq![message@], clock->Ok_0 as int);
                    let expires_at = old(self)@.expiry(clock->Ok_0 as int);
                    reveal_with_fuel(StoreView::publish_outcomes, 2);
                    assert(seq![message@].drop_last() =~= Seq::empty());
                    assert(base.publish_outcomes(
                        seq![message@],
                        clock->Ok_0 as int,
                        expires_at,
                    ) =~= seq![base.publish_one_outcome(message@)]);
                    assert(seqs::views(outcomes@)[0] == outcomes@[0]@);
                }
                Ok(outcomes[0])
            },
            Err(error) => Err(error),
        }
    }

    /// Atomically publish a batch.
    pub fn publish_batch(&mut self, messages: &[Publish<'_>], clock: Result<i64, Error>) -> (result:
        Result<Vec<PublishOutcome>, Error>)
        requires
            old(self)@.wf(),
        ensures
            final(self)@.wf(),
            messages@.len() == 0 ==> {
                &&& result is Ok
                &&& result->Ok_0@.len() == 0
                &&& final(self)@ == old(self)@
            },
            messages@.len() > 0 ==> match old(self)@.publish_error(
                seqs::views(messages@),
                crate::time::reading(clock),
            ) {
                Some(error) => {
                    &&& result is Err
                    &&& result->Err_0@ == error
                    &&& final(self)@ == old(self)@
                },
                None => {
                    let batch = seqs::views(messages@);
                    let now = clock->Ok_0 as int;
                    &&& result is Ok
                    &&& seqs::views(result->Ok_0@) == old(self)@.publish_base(
                        batch,
                        now,
                    ).publish_outcomes(batch, now, old(self)@.expiry(now))
                    &&& final(self)@ == old(self)@.published(batch, now)
                },
            },
    {
        let ghost before = self@;
        let ghost batch = seqs::views(messages@);
        if messages.len() == 0 {
            return Ok(Vec::new());
        }
        let span = match self.publish_span(messages, clock) {
            Ok(span) => span,
            Err(error) => {
                return Err(error);
            },
        };
        let now: i64 = span.now;
        let expires_at: i64 = span.until;
        let keyed = any_key(messages);
        let ghost base = before.publish_base(batch, now as int);
        let ghost expiry = before.expiry(now as int);
        proof {
            crate::invariants::lemma_without_expired_wf(before, now as int);
        }
        let mut ledger = self.copy_ledger(keyed, now);
        let mut added: Vec<MessageRow> = Vec::new();
        let mut topics: Vec<Option<&str>> = Vec::new();
        let mut outcomes: Vec<PublishOutcome> = Vec::new();
        let mut last: i64 = self.last_message_id;
        let ghost mut log = base;
        let mut i: usize = 0;
        proof {
            assert(batch.take(0) =~= Seq::empty());
            assert(log.messages =~= before.messages + seqs::views(added@));
        }
        while i < messages.len()
            invariant
                i <= messages@.len(),
                *self == *old(self),
                before == self@,
                before.wf(),
                batch == seqs::views(messages@),
                messages@.len() > 0,
                before.publish_refusal(batch, crate::time::reading(clock)) is None,
                clock is Ok,
                clock->Ok_0 == now,
                keyed == crate::model::has_keys(batch),
                expiry == before.expiry(now as int),
                keyed ==> expires_at == expiry,
                base == before.publish_base(batch, now as int),
                log == base.published_all(batch.take(i as int), now as int, expiry),
                log.wf(),
                log.messages == before.messages + seqs::views(added@),
                log.ledger == seqs::views(ledger@),
                log.last_message_id == last,
                log == (StoreView {
                    messages: log.messages,
                    ledger: log.ledger,
                    last_message_id: log.last_message_id,
                    ..before
                }),
                topics@.len() == added@.len(),
                crate::signals::topic_views(topics@) == seqs::views(added@).map_values(
                    |message: MessageView| message.topic,
                ),
                seqs::views(outcomes@) == base.publish_outcomes(
                    batch.take(i as int),
                    now as int,
                    expiry,
                ),
            decreases messages@.len() - i,
        {
            let message = messages[i];
            let ghost next = log.published_one(message@, now as int, expiry);
            proof {
                assert(batch[i as int] == message@);
                assert(batch.take(i + 1).drop_last() =~= batch.take(i as int));
                assert(batch.take(i + 1).last() == message@);
            }
            let found: Option<usize> = match message.idempotency_key {
                Some(key) => {
                    assert(batch[i as int].idempotency_key is Some);
                    find_key(&ledger, key)
                },
                None => None,
            };
            proof {
                if let Some(k) = found {
                    assert(log.ledger[k as int] == ledger@[k as int]@);
                    crate::invariants::lemma_key(log, k as int);
                }
            }
            let known: Option<i64> = match found {
                Some(k) => ledger[k].message_id,
                None => None,
            };
            assert(crate::tables::widen(known) == log.message_of_key(message@.idempotency_key));
            match known {
                Some(id) => {
                    let outcome = PublishOutcome::Duplicate { id: MessageId(id) };
                    proof {
                        seqs::lemma_views_push(outcomes@, outcome);
                    }
                    outcomes.push(outcome);
                },
                None => {
                    if last == i64::MAX {
                        proof {
                            crate::invariants::lemma_published_last(
                                base,
                                batch,
                                i + 1,
                                now as int,
                                expiry,
                            );
                        }
                        return Err(Error::CounterOutOfRange);
                    }
                    proof {
                        crate::invariants::lemma_published_one_wf(
                            log,
                            message@,
                            now as int,
                            expiry,
                        );
                    }
                    last = last + 1;
                    let topic = match message.topic {
                        Some(topic) => Some(topic.to_owned()),
                        None => None,
                    };
                    let row = MessageRow {
                        id: last,
                        topic,
                        body: vstd::slice::slice_to_vec(message.body),
                        published_at_ms: now,
                    };
                    let outcome = PublishOutcome::Published { id: MessageId(last) };
                    proof {
                        seqs::lemma_views_push(outcomes@, outcome);
                        seqs::lemma_views_push(added@, row);
                        assert(next.messages =~= before.messages + seqs::views(added@.push(row)));
                        assert(crate::signals::topic_views(topics@.push(message.topic))
                            =~= crate::signals::topic_views(topics@).push(message@.topic));
                        assert(seqs::views(added@.push(row)).map_values(
                            |message: MessageView| message.topic,
                        ) =~= seqs::views(added@).map_values(
                            |message: MessageView| message.topic,
                        ).push(message@.topic));
                    }
                    added.push(row);
                    topics.push(message.topic);
                    outcomes.push(outcome);
                    match found {
                        Some(k) => {
                            ledger[k].message_id = Some(last);
                        },
                        None => {
                            if let Some(key) = message.idempotency_key {
                                let row = LedgerRow {
                                    key: vstd::slice::slice_to_vec(key),
                                    message_id: Some(last),
                                    expires_at_ms: expires_at,
                                };
                                proof {
                                    seqs::lemma_views_push(ledger@, row);
                                }
                                ledger.push(row);
                            }
                        },
                    }
                    assert(next.ledger =~= seqs::views(ledger@));
                },
            }
            proof {
                log = next;
            }
            i += 1;
        }
        assert(batch.take(i as int) =~= batch);
        let ghost inserted = seqs::views(added@);
        assert(log.messages.skip(before.messages.len() as int) =~= inserted);
        let woken = added.len() > 0;
        self.messages.append(&mut added);
        self.ledger = ledger;
        self.last_message_id = last;
        assert(self@ =~= log);
        if woken {
            let mut wakeups = notify_publishes(&topics);
            let ghost raised = seqs::views(wakeups@);
            self.wakeups.append(&mut wakeups);
            assert(self@.wakeups =~= before.wakeups + raised);
        }
        proof {
            crate::invariants::lemma_wakeups(log, self@.wakeups);
            assert(self@ =~= before.published(batch, now as int));
        }
        Ok(outcomes)
    }
}

/// Whether snapshots stand in the order of their names.
pub open spec fn in_order(snapshots: Seq<ConsumerSnapshot>) -> bool {
    forall|i: int, j: int|
        0 <= i < j < snapshots.len() ==> crate::model::name_before(
            (#[trigger] snapshots[i]).name@,
            (#[trigger] snapshots[j]).name@,
        )
}

/// Inserts a snapshot where the order of the names puts it.
fn insert_in_order(snapshots: &mut Vec<ConsumerSnapshot>, snapshot: ConsumerSnapshot) -> (position:
    usize)
    requires
        in_order(old(snapshots)@),
        forall|k: int|
            0 <= k < old(snapshots)@.len() ==> (#[trigger] old(snapshots)@[k]).name@
                != snapshot.name@,
    ensures
        position <= old(snapshots)@.len(),
        final(snapshots)@ == old(snapshots)@.insert(position as int, snapshot),
        in_order(final(snapshots)@),
{
    let ghost earlier = snapshots@;
    let mut position: usize = 0;
    while position < snapshots.len() && !name_before(&snapshot.name, &snapshots[position].name)
        invariant
            position <= snapshots@.len(),
            *snapshots == *old(snapshots),
            earlier == snapshots@,
            forall|k: int|
                0 <= k < position ==> !crate::model::name_before(
                    snapshot.name@,
                    (#[trigger] earlier[k]).name@,
                ),
        decreases snapshots@.len() - position,
    {
        position += 1;
    }
    snapshots.insert(position, snapshot);
    proof {
        let n = position as int;
        let name = snapshot.name@;
        assert forall|i: int, j: int|
            0 <= i < j < snapshots@.len() implies crate::model::name_before(
            (#[trigger] snapshots@[i]).name@,
            (#[trigger] snapshots@[j]).name@,
        ) by {
            let a = if i < n {
                i
            } else {
                i - 1
            };
            let b = if j < n {
                j
            } else {
                j - 1
            };
            if i == n {
                assert(snapshots@[j] == earlier[b]);
                if b > n {
                    crate::names::lemma_name_order(name, earlier[n].name@, earlier[b].name@);
                }
            } else if j == n {
                assert(snapshots@[i] == earlier[i]);
                crate::names::lemma_names_total(earlier[i].name@, name);
            } else {
                assert(snapshots@[i] == earlier[a]);
                assert(snapshots@[j] == earlier[b]);
            }
        }
    }
    position
}

/// The totals only grow with the number of consumers.
proof fn lemma_totals(s: StoreView, i: int, n: int)
    requires
        0 <= i <= n,
    ensures
        s.total_outstanding(i) <= s.total_outstanding(n),
        s.total_archived(i) <= s.total_archived(n),
    decreases n,
{
    if i < n {
        lemma_totals(s, i, n - 1);
    }
}

impl LiteFan {
    /// Delete a durable consumer identity under an explicit safety policy.
    pub fn delete_consumer(&mut self, name: &str, mode: DeleteMode) -> (result: Result<
        DeleteOutcome,
        Error,
    >)
        requires
            old(self)@.wf(),
        ensures
            final(self)@.wf(),
            match old(self)@.delete_error(name@, mode) {
                Some(error) => {
                    &&& result is Err
                    &&& result->Err_0@ == error
                    &&& final(self)@ == old(self)@
                },
                None => {
                    let consumer = old(self)@.named(name@);
                    &&& result is Ok
                    &&& result->Ok_0.discarded_deliveries == old(self)@.outstanding(consumer)
                    &&& result->Ok_0.discarded_archives == old(self)@.archives.filter(
                        crate::model::archived_by(consumer.id),
                    ).len()
                    &&& final(self)@ == old(self)@.without_consumer(consumer.id)
                },
            },
    {
        let ghost before = self@;
        let name = String::from(name);
        let index: usize = match self.find_named(&name) {
            Some(index) => index,
            None => {
                return Err(Error::ConsumerNotFound { name });
            },
        };
        let id: i64 = self.consumers[index].id;
        let outstanding: u64 = match self.count_outstanding(&self.consumers[index]) {
            Ok(outstanding) => outstanding,
            Err(error) => {
                return Err(error);
            },
        };
        let archived: u64 = self.count_archives(id);
        if let DeleteMode::DrainedOnly = mode {
            if self.consumers[index].draining_at_ms.is_none() {
                return Err(Error::ConsumerNotDraining { name });
            }
            if outstanding > 0 {
                return Err(Error::ConsumerNotEmpty { name, outstanding });
            }
        }
        let discard_archives = matches!(mode, DeleteMode::DiscardAll);
        if !discard_archives && archived > 0 {
            return Err(Error::ConsumerHasArchives { name, archived });
        }
        let ghost others = crate::model::other_than(id as int);
        let ghost rows = crate::model::negate(crate::model::belongs_to(id as int));
        let ghost archives = crate::model::negate(crate::model::archived_by(id as int));
        proof {
            assert(before.consumers[index as int] == self.consumers@[index as int]@);
            assert forall|j: int| 0 <= j < before.consumers.len() && j != index implies others(
                #[trigger] before.consumers[j],
            ) by {
                if j < index {
                    assert(before.consumers[j].id < before.consumers[index as int].id);
                } else {
                    assert(before.consumers[index as int].id < before.consumers[j].id);
                }
            }
            seqs::lemma_filter_remove(before.consumers, index as int, others);
        }
        self.consumers.remove(index);
        assert(self@.consumers =~= before.consumers.remove(index as int));
        let mut flags: Vec<bool> = Vec::new();
        let mut i: usize = 0;
        while i < self.deliveries.len()
            invariant
                i <= self.deliveries@.len(),
                flags@.len() == i,
                rows == crate::model::negate(crate::model::belongs_to(id as int)),
                forall|j: int|
                    0 <= j < i ==> #[trigger] flags@[j] == rows(
                        seqs::views(self.deliveries@)[j],
                    ),
            decreases self.deliveries@.len() - i,
        {
            flags.push(self.deliveries[i].consumer_id != id);
            i += 1;
        }
        keep_flagged(&mut self.deliveries, &flags, Ghost(rows));
        let mut flags: Vec<bool> = Vec::new();
        let mut i: usize = 0;
        while i < self.archives.len()
            invariant
                i <= self.archives@.len(),
                flags@.len() == i,
                archives == crate::model::negate(crate::model::archived_by(id as int)),
                forall|j: int|
                    0 <= j < i ==> #[trigger] flags@[j] == archives(
                        seqs::views(self.archives@)[j],
                    ),
            decreases self.archives@.len() - i,
        {
            flags.push(self.archives[i].consumer_id != id);
            i += 1;
        }
        keep_flagged(&mut self.archives, &flags, Ghost(archives));
        self.wake(Wakeup::Consumer(id));
        proof {
            crate::invariants::lemma_without_consumer_wf(before, id as int);
            assert(self@ =~= before.without_consumer(id as int));
        }
        Ok(
            DeleteOutcome {
                discarded_deliveries: outstanding,
                discarded_archives: archived,
            },
        )
    }

    /// Whether any consumer still has a use for the message.
    fn is_referenced(&self, message: &MessageRow) -> (referenced: bool)
        ensures
            referenced == self@.is_referenced(message@),
    {
        let ghost store = self@;
        let mut i: usize = 0;
        while i < self.deliveries.len()
            invariant
                i <= self.deliveries@.len(),
                store == self@,
                forall|j: int|
                    0 <= j < i ==> #[trigger] store.deliveries[j].message_id != message@.id,
            decreases self.deliveries@.len() - i,
        {
            assert(store.deliveries[i as int] == self.deliveries@[i as int]@);
            if self.deliveries[i].message_id == message.id {
                assert(store.deliveries[i as int].message_id == message@.id);
                return true;
            }
            i += 1;
        }
        let mut i: usize = 0;
        while i < self.archives.len()
            invariant
                i <= self.archives@.len(),
                store == self@,
                forall|j: int|
                    0 <= j < i ==> #[trigger] store.archives[j].message_id != message@.id,
            decreases self.archives@.len() - i,
        {
            assert(store.archives[i as int] == self.archives@[i as int]@);
            if self.archives[i].message_id == message.id {
                assert(store.archives[i as int].message_id == message@.id);
                return true;
            }
            i += 1;
        }
        let mut i: usize = 0;
        while i < self.consumers.len()
            invariant
                i <= self.consumers@.len(),
                store == self@,
                forall|j: int| 0 <= j < i ==> !(#[trigger] store.consumers[j].wants(message@)),
            decreases self.consumers@.len() - i,
        {
            assert(store.consumers[i as int] == self.consumers@[i as int]@);
            if wants(&self.consumers[i], message) {
                assert(store.consumers[i as int].wants(message@));
                return true;
            }
            i += 1;
        }
        false
    }

    /// Delete a bounded number of old messages no consumer still references.
    pub fn prune_messages(&mut self, prune: Prune) -> (result: Result<PruneOutcome, Error>)
        requires
            old(self)@.wf(),
        ensures
            final(self)@.wf(),
            match old(self)@.batch_error(prune.max_messages as nat) {
                Some(error) => {
                    &&& result is Err
                    &&& result->Err_0@ == error
                    &&& final(self)@ == old(self)@
                },
                None => {
                    &&& result is Ok
                    &&& result->Ok_0.deleted_messages == old(self)@.doomed(
                        prune.before_ms as int,
                        prune.max_messages as nat,
                    ).len()
                    &&& final(self)@ == old(self)@.pruned(
                        prune.before_ms as int,
                        prune.max_messages as nat,
                    )
                },
            },
    {
        let ghost before = self@;
        let ghost max = prune.max_messages as nat;
        let ghost rows = before.messages;
        let ghost p = before.prunable(prune.before_ms as int);
        let ghost doomed = before.doomed(prune.before_ms as int, max);
        let ghost kept = crate::model::outside(doomed);
        match self.ensure_batch_size(prune.max_messages) {
            Ok(()) => {},
            Err(error) => {
                return Err(error);
            },
        }
        proof {
            assert forall|a: int, b: int| 0 <= a < b < rows.len() implies #[trigger] rows[a]
                != #[trigger] rows[b] by {
                assert(before.messages[a].id < before.messages[b].id);
            }
        }
        let mut deleted_messages: usize = 0;
        let mut flags: Vec<bool> = Vec::new();
        let mut i: usize = 0;
        while i < self.messages.len()
            invariant
                i <= self.messages@.len(),
                *self == *old(self),
                before == self@,
                rows == before.messages,
                max == prune.max_messages,
                p == before.prunable(prune.before_ms as int),
                doomed == before.doomed(prune.before_ms as int, max),
                kept == crate::model::outside(doomed),
                forall|a: int, b: int|
                    0 <= a < b < rows.len() ==> #[trigger] rows[a] != #[trigger] rows[b],
                flags@.len() == i,
                deleted_messages == crate::model::first(rows.take(i as int).filter(p), max).len(),
                forall|j: int| 0 <= j < i ==> #[trigger] flags@[j] == kept(rows[j]),
            decreases self.messages@.len() - i,
        {
            let message = &self.messages[i];
            proof {
                assert(rows[i as int] == message@);
                seqs::lemma_filter_step(rows, i as int, p);
                seqs::lemma_first_member(rows, p, max, i as int);
            }
            if deleted_messages < prune.max_messages && message.published_at_ms < prune.before_ms
                && !self.is_referenced(message) {
                deleted_messages += 1;
                flags.push(false);
            } else {
                flags.push(true);
            }
            i += 1;
        }
        assert(rows.take(i as int) =~= rows);
        keep_flagged(&mut self.messages, &flags, Ghost(kept));
        proof {
            crate::invariants::lemma_pruned_wf(before, prune.before_ms as int, max);
            assert(self@ =~= before.pruned(prune.before_ms as int, max));
        }
        Ok(PruneOutcome { deleted_messages })
    }

    /// Inspect all durable state at one time.
    pub fn snapshot(&self, clock: Result<i64, Error>) -> (result: Result<StoreSnapshot, Error>)
        requires
            self@.wf(),
        ensures
            match self@.store_snapshot_error(crate::time::reading(clock)) {
                Some(error) => result is Err && result->Err_0@ == error,
                None => result is Ok && result->Ok_0.describes(self@, clock->Ok_0 as int),
            },
    {
        let ghost store = self@;
        let now: i64 = match clock {
            Ok(now) => now,
            Err(error) => {
                return Err(error);
            },
        };
        let mut consumers: Vec<ConsumerSnapshot> = Vec::new();
        let mut outstanding_deliveries: u64 = 0;
        let mut archived_deliveries: u64 = 0;
        let mut i: usize = 0;
        while i < self.consumers.len()
            invariant
                i <= self.consumers@.len(),
                store == self@,
                store.wf(),
                clock is Ok,
                clock->Ok_0 == now,
                outstanding_deliveries == store.total_outstanding(i as int),
                archived_deliveries == store.total_archived(i as int),
                consumers@.len() == i,
                in_order(consumers@),
                forall|k: int|
                    0 <= k < i ==> {
                        let snapshot = #[trigger] consumers@[k];
                        &&& store.has_name(snapshot.name@)
                        &&& snapshot.describes(store, store.named(snapshot.name@), now as int)
                        &&& exists|j: int|
                            0 <= j < i && #[trigger] store.consumers[j].name == snapshot.name@
                    },
            decreases self.consumers@.len() - i,
        {
            let consumer = &self.consumers[i];
            proof {
                assert(store.consumers[i as int] == consumer@);
                lemma_totals(store, i + 1, store.consumers.len() as int);
                crate::invariants::lemma_named(store, i as int);
            }
            let snapshot = match self.consumer_snapshot(consumer, now) {
                Ok(snapshot) => snapshot,
                Err(error) => {
                    return Err(error);
                },
            };
            outstanding_deliveries = match outstanding_deliveries.checked_add(
                snapshot.outstanding,
            ) {
                Some(total) => total,
                None => {
                    return Err(Error::CounterOutOfRange);
                },
            };
            archived_deliveries = match archived_deliveries.checked_add(snapshot.archived) {
                Some(total) => total,
                None => {
                    return Err(Error::CounterOutOfRange);
                },
            };
            let ghost earlier = consumers@;
            proof {
                assert forall|k: int| 0 <= k < earlier.len() implies (#[trigger] earlier[k]).name@
                    != snapshot.name@ by {
                    let j = choose|j: int|
                        0 <= j < i && #[trigger] store.consumers[j].name == earlier[k].name@;
                    assert(store.consumers[j].name != store.consumers[i as int].name);
                }
            }
            let position = insert_in_order(&mut consumers, snapshot);
            proof {
                assert forall|k: int| 0 <= k < i + 1 implies {
                    let snapshot = #[trigger] consumers@[k];
                    &&& store.has_name(snapshot.name@)
                    &&& snapshot.describes(store, store.named(snapshot.name@), now as int)
                    &&& exists|j: int|
                        0 <= j < i + 1 && #[trigger] store.consumers[j].name == snapshot.name@
                } by {
                    if k == position {
                        assert(store.consumers[i as int].name == consumers@[k].name@);
                    } else {
                        let old_k = if k < position {
                            k
                        } else {
                            k - 1
                        };
                        assert(consumers@[k] == earlier[old_k]);
                    }
                }
            }
            i += 1;
        }
        Ok(
            StoreSnapshot {
                retained_messages: self.messages.len() as u64,
                idempotency_keys: self.ledger.len() as u64,
                outstanding_deliveries,
                archived_deliveries,
                consumers,
            },
        )
    }

    /// Begin opening or creating a durable named consumer.
    pub fn consumer(&self, name: impl Into<String>) -> (builder: ConsumerBuilder)
        ensures
            builder@.filter is None,
            exists|text: String|
                {
                    &&& #[trigger] call_ensures(<_ as Into<String>>::into, (name,), text)
                    &&& builder@.name == text@
                },
    {
        ConsumerBuilder::new(name.into())
    }

    /// Largest slice accepted by a batch operation.
    pub fn max_batch_size(&self) -> (size: usize)
        ensures
            size == self@.max_batch_size,
    {
        self.max_batch_size
    }
}

} // verus!
