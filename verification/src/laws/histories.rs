//! Histories: what holds over any sequence of operations.
use vstd::prelude::*;

use crate::api::{DeleteMode, MessageView, PublishOutcomeView, PublishView, ReceiptView};
use crate::error::ErrorView;
use crate::model::StoreView;
use crate::tables::LedgerView;

verus! {

/// One operation on the log that takes effect, with the times that it computed
/// from the clock.
#[allow(inconsistent_fields)]
pub enum Operation {
    Open { name: Seq<char>, filter: Option<Seq<char>>, now: int },
    Drain { id: int, now: int },
    Delete { id: int },
    Publish { batch: Seq<PublishView>, now: int },
    Claim { id: int, now: int, max: nat, deadline: int },
    Ack { id: int, receipts: Seq<ReceiptView> },
    Nack { id: int, receipts: Seq<ReceiptView>, visible_at: int },
    Extend { id: int, receipts: Seq<ReceiptView>, visible_at: int },
    Archive { id: int, receipts: Seq<ReceiptView>, detail: Option<Seq<char>>, now: int },
    Redrive { id: int, ids: Seq<int>, visible_at: int },
    Purge { id: int, before_ms: int, max: nat },
    Prune { before_ms: int, max: nat },
    TakeWakeups,
}

impl Operation {
    /// Whether the operation can take place. Every operation that takes effect can.
    pub open spec fn possible(self, s: StoreView) -> bool {
        match self {
            Operation::Open { name, filter, now } => s.open_outcome(name, filter, Ok(now)) is Ok,
            Operation::Drain { id, .. } => s.has_consumer(id),
            Operation::Delete { id } => s.has_consumer(id),
            Operation::Publish { batch, now } => s.publish_error(batch, Ok(now)) is None,
            Operation::Claim { id, now, max, .. } => s.has_consumer(id) && !s.collides(
                id,
                now,
                max,
            ),
            Operation::Redrive { id, ids, .. } => !s.redelivers(id, ids),
            Operation::Archive { id, receipts, now, .. } => s.archive_error(
                id,
                receipts,
                Ok(now),
            ) is None,
            _ => true,
        }
    }

    /// The log after the operation.
    pub open spec fn done(self, s: StoreView) -> StoreView {
        match self {
            Operation::Open { name, filter, now } => s.opened(name, filter, now),
            Operation::Drain { id, now } => if s.consumer(id).draining_at_ms is None {
                s.drained(id, now)
            } else {
                s
            },
            Operation::Delete { id } => s.without_consumer(id),
            Operation::Publish { batch, now } => s.published(batch, now),
            Operation::Claim { id, now, max, deadline } => if s.idle(id, now) {
                s
            } else {
                s.claimed(id, now, max, deadline)
            },
            Operation::Ack { id, receipts } => s.acked(id, receipts),
            Operation::Nack { id, receipts, visible_at } => s.nacked(id, receipts, visible_at),
            Operation::Extend { id, receipts, visible_at } => s.extended(id, receipts, visible_at),
            Operation::Archive { id, receipts, detail, now } => s.archived(
                id,
                receipts,
                detail,
                now,
            ),
            Operation::Redrive { id, ids, visible_at } => s.redriven(id, ids, visible_at),
            Operation::Purge { id, before_ms, max } => s.purged(id, before_ms, max),
            Operation::Prune { before_ms, max } => s.pruned(before_ms, max),
            Operation::TakeWakeups => StoreView { wakeups: Seq::empty(), ..s },
        }
    }
}

/// Draining, deleting and claiming are possible wherever the log's functions
/// report no error. For opening, publishing, archiving and redriving that is the
/// definition.
pub proof fn law_successes_are_possible(
    s: StoreView,
    id: int,
    name: Seq<char>,
    mode: DeleteMode,
    now: int,
    max: nat,
    lease_ms: int,
)
    requires
        s.wf(),
    ensures
        s.drain_outcome(id, name, Ok(now)) is Ok ==> (Operation::Drain { id, now }).possible(s),
        s.delete_error(name, mode) is None ==> (Operation::Delete {
            id: s.named(name).id,
        }).possible(s),
        s.claim_error(id, name, max, lease_ms, Ok(now)) is None ==> (Operation::Claim {
            id,
            now,
            max,
            deadline: now + lease_ms,
        }).possible(s),
{
    if s.has_name(name) {
        let i = choose|i: int|
            0 <= i < s.consumers.len() && #[trigger] s.consumers[i].name == name;
        crate::invariants::lemma_named(s, i);
        crate::invariants::lemma_consumer(s, i);
    }
    if s.has_consumer(id) && s.idle(id, now) {
        let index = s.consumer_index(id);
        assert(s.consumers[index].id == id);
        crate::claims::lemma_nothing_ahead(s, index);
    }
}

/// The log after a history.
pub open spec fn run(s: StoreView, history: Seq<Operation>) -> StoreView
    decreases history.len(),
{
    if history.len() == 0 {
        s
    } else {
        history.last().done(run(s, history.drop_last()))
    }
}

/// Whether every operation of a history can take place when its turn comes.
pub open spec fn runs(s: StoreView, history: Seq<Operation>) -> bool {
    forall|p: int|
        0 <= p < history.len() ==> (#[trigger] history[p]).possible(run(s, history.take(p)))
}

/// One more operation of a history.
pub proof fn lemma_run_step(s: StoreView, history: Seq<Operation>, n: int)
    requires
        0 <= n < history.len(),
    ensures
        run(s, history.take(n + 1)) == history[n].done(run(s, history.take(n))),
{
    assert(history.take(n + 1).drop_last() =~= history.take(n));
    assert(history.take(n + 1).last() == history[n]);
}

/// Every operation keeps the tables well-formed, and a consistent log consistent.
pub proof fn law_operations_keep_consistency(s: StoreView, op: Operation)
    requires
        s.wf(),
        op.possible(s),
    ensures
        op.done(s).wf(),
        s.consistent() ==> op.done(s).consistent(),
{
    match op {
        Operation::Open { name, filter, now } => {
            if !s.has_name(name) {
                crate::invariants::lemma_opened_wf(s, name, filter, now);
            }
        },
        Operation::Drain { id, now } => {
            if s.consumer(id).draining_at_ms is None {
                crate::invariants::lemma_drained_wf(s, id, now);
            }
        },
        Operation::Delete { id } => {
            crate::invariants::lemma_without_consumer_wf(s, id);
        },
        Operation::Publish { batch, now } => {
            crate::laws::publishing::law_publishing_keeps_consistency(s, batch, now);
        },
        Operation::Claim { id, now, max, deadline } => {
            crate::claims::lemma_claimed_wf(s, id, now, max, deadline);
        },
        Operation::Ack { id, receipts } => {
            crate::invariants::lemma_fewer_deliveries(
                s,
                crate::model::negate(crate::model::hit(id, receipts)),
            );
        },
        Operation::Nack { id, receipts, visible_at } => {
            crate::invariants::lemma_nacked_wf(s, id, receipts, visible_at);
        },
        Operation::Extend { id, receipts, visible_at } => {
            crate::invariants::lemma_extended_wf(s, id, receipts, visible_at);
        },
        Operation::Archive { id, receipts, detail, now } => {
            crate::invariants::lemma_archived_wf(s, id, receipts, detail, now);
        },
        Operation::Redrive { id, ids, visible_at } => {
            crate::invariants::lemma_redriven_wf(s, id, ids, visible_at);
        },
        Operation::Purge { id, before_ms, max } => {
            crate::invariants::lemma_purged_wf(s, id, before_ms, max);
        },
        Operation::Prune { before_ms, max } => {
            crate::invariants::lemma_pruned_wf(s, before_ms, max);
        },
        Operation::TakeWakeups => {
            crate::invariants::lemma_wakeups(s, Seq::empty());
        },
    }
}

/// The tables stay well-formed throughout a history, and a consistent log stays
/// consistent.
pub proof fn law_histories_keep_consistency(s: StoreView, history: Seq<Operation>, n: int)
    requires
        s.wf(),
        runs(s, history),
        0 <= n <= history.len(),
    ensures
        run(s, history.take(n)).wf(),
        s.consistent() ==> run(s, history.take(n)).consistent(),
    decreases n,
{
    if n == 0 {
        assert(history.take(0) =~= Seq::empty());
    } else {
        law_histories_keep_consistency(s, history, n - 1);
        lemma_run_step(s, history, n - 1);
        assert(history[n - 1].possible(run(s, history.take(n - 1))));
        law_operations_keep_consistency(run(s, history.take(n - 1)), history[n - 1]);
    }
}

/// A consistent log has no rows to complain of: opening, claiming, setting aside,
/// listing and bringing back do not fail for what the tables hold.
pub proof fn law_consistent_rows_are_in_order(
    s: StoreView,
    id: int,
    now: int,
    max: nat,
    receipts: Seq<ReceiptView>,
    ids: Seq<int>,
    after: Option<int>,
)
    requires
        s.consistent(),
    ensures
        s.high_water() >= 0,
        !s.collides(id, now, max),
        !s.dangles(id, now, max),
        !s.rearchives(id, receipts),
        !s.redelivers(id, ids),
        s.page_error(id, after, max) == s.batch_error(max),
{
    crate::invariants::lemma_high_water_agrees(s);
    crate::claims::lemma_claim_agrees(s, id, now, max);
    crate::invariants::lemma_archives_once(s, id, receipts);
    crate::invariants::lemma_redelivers_once(s, id, ids);
    let p = crate::model::listed(id, after);
    let rows = crate::model::first(s.archives.filter(p), max);
    assert forall|k: int| 0 <= k < rows.len() implies s.has_message(
        (#[trigger] rows[k]).message_id,
    ) by {
        let a = crate::seqs::lemma_filter_source(s.archives, p, k);
        assert(s.is_copy(s.archives[a].consumer_id, s.archives[a].message_id));
    }
}

/// Identifiers are never taken back.
pub proof fn law_identifiers_only_grow(s: StoreView, op: Operation)
    requires
        s.wf(),
        op.possible(s),
    ensures
        op.done(s).last_message_id >= s.last_message_id,
        op.done(s).last_consumer_id >= s.last_consumer_id,
        op.done(s).last_archive_id >= s.last_archive_id,
{
    if let Operation::Publish { batch, now } = op {
        crate::laws::publishing::law_publishing_appends(s, batch, now);
    }
}

// Draining
/// Whether a draining consumer still drains, to the same end.
pub open spec fn still_draining(s: StoreView, t: StoreView, id: int) -> bool {
    &&& t.has_consumer(id)
    &&& t.consumer(id).draining_at_ms == s.consumer(id).draining_at_ms
    &&& t.consumer(id).drain_cursor == s.consumer(id).drain_cursor
}

/// Draining is irreversible: beginning again changes nothing, and no other
/// operation but the deletion of the consumer ends it or moves its limit.
pub proof fn law_draining_is_irreversible(s: StoreView, op: Operation, id: int, name: Seq<char>)
    requires
        s.wf(),
        op.possible(s),
        s.has_consumer(id),
        s.consumer(id).draining_at_ms is Some,
        op != (Operation::Delete { id }),
    ensures
        still_draining(s, op.done(s), id),
        forall|now: int|
            #[trigger] s.drain_outcome(id, name, Ok(now)) == Ok::<bool, ErrorView>(false),
{
    let t = op.done(s);
    let i = s.consumer_index(id);
    assert(s.consumers[i].id == id);
    law_operations_keep_consistency(s, op);
    match op {
        Operation::Delete { id: other } => {
            crate::invariants::lemma_other_consumer(s, other, id);
        },
        Operation::Publish { batch, now } => {
            crate::laws::publishing::law_publishing_appends(s, batch, now);
            assert(t.consumers[i].id == id);
            crate::invariants::lemma_consumer(t, i);
        },
        _ => {
            assert(t.consumers[i].id == id);
            crate::invariants::lemma_consumer(t, i);
        },
    }
}

/// Draining lasts: whatever happens, a draining consumer keeps its limit until it
/// is deleted.
pub proof fn law_draining_lasts(s: StoreView, history: Seq<Operation>, id: int, n: int)
    requires
        s.wf(),
        runs(s, history),
        s.has_consumer(id),
        s.consumer(id).draining_at_ms is Some,
        forall|p: int|
            0 <= p < history.len() ==> #[trigger] history[p] != (Operation::Delete { id }),
        0 <= n <= history.len(),
    ensures
        still_draining(s, run(s, history.take(n)), id),
    decreases n,
{
    if n == 0 {
        assert(history.take(0) =~= Seq::empty());
    } else {
        law_draining_lasts(s, history, id, n - 1);
        law_histories_keep_consistency(s, history, n - 1);
        lemma_run_step(s, history, n - 1);
        let t = run(s, history.take(n - 1));
        assert(history[n - 1].possible(t));
        law_draining_is_irreversible(t, history[n - 1], id, Seq::empty());
    }
}

// Idempotency keys
/// Only publishing touches the idempotency keys: every other operation leaves
/// them as they are.
pub proof fn law_only_publishing_touches_keys(s: StoreView, op: Operation)
    requires
        op !is Publish,
    ensures
        op.done(s).ledger == s.ledger,
{
}

/// Whether a history publishes nothing new under a key.
pub open spec fn only_duplicates_in(s: StoreView, history: Seq<Operation>, key: Seq<u8>) -> bool {
    forall|p: int|
        0 <= p < history.len() ==> (#[trigger] history[p] matches Operation::Publish {
            batch,
            now,
        } ==> crate::laws::publishing::only_duplicates(
            run(s, history.take(p)),
            batch,
            now,
            key,
        ))
}

/// Whether every publish of a history that carries a key reads an earlier time.
pub open spec fn keyed_before(history: Seq<Operation>, time: int) -> bool {
    forall|p: int|
        0 <= p < history.len() ==> (#[trigger] history[p] matches Operation::Publish {
            batch,
            now,
        } ==> crate::model::has_keys(batch) ==> now < time)
}

/// An entry lives on through a history until it expires.
proof fn lemma_entry_lives(s: StoreView, history: Seq<Operation>, entry: LedgerView, n: int)
    requires
        s.wf(),
        runs(s, history),
        keyed_before(history, entry.expires_at_ms),
        0 <= n <= history.len(),
        s.ledger.contains(entry),
        entry.message_id is Some,
    ensures
        run(s, history.take(n)).ledger.contains(entry),
    decreases n,
{
    if n == 0 {
        assert(history.take(0) =~= Seq::empty());
    } else {
        lemma_entry_lives(s, history, entry, n - 1);
        law_histories_keep_consistency(s, history, n - 1);
        lemma_run_step(s, history, n - 1);
        let t = run(s, history.take(n - 1));
        let op = history[n - 1];
        assert(op.possible(t));
        if let Operation::Publish { batch, now } = op {
            assert(history[n - 1] is Publish);
            let k = choose|k: int| 0 <= k < t.ledger.len() && t.ledger[k] == entry;
            crate::laws::publishing::lemma_entry_kept(t, batch, now, k);
        } else {
            law_only_publishing_touches_keys(t, op);
        }
    }
}

/// A history that publishes nothing new under a key brings no entry for it.
proof fn lemma_no_entry_comes(s: StoreView, history: Seq<Operation>, key: Seq<u8>, n: int)
    requires
        only_duplicates_in(s, history, key),
        0 <= n <= history.len(),
    ensures
        forall|k: int|
            0 <= k < run(s, history.take(n)).ledger.len() && (#[trigger] run(
                s,
                history.take(n),
            ).ledger[k]).key == key ==> s.ledger.contains(run(s, history.take(n)).ledger[k]),
    decreases n,
{
    if n == 0 {
        assert(history.take(0) =~= Seq::empty());
    } else {
        lemma_no_entry_comes(s, history, key, n - 1);
        lemma_run_step(s, history, n - 1);
        let t = run(s, history.take(n - 1));
        let u = run(s, history.take(n));
        let op = history[n - 1];
        assert forall|k: int|
            0 <= k < u.ledger.len() && (#[trigger] u.ledger[k]).key
                == key implies s.ledger.contains(u.ledger[k]) by {
            if let Operation::Publish { batch, now } = op {
                assert(history[n - 1] is Publish);
                crate::laws::publishing::lemma_no_new_entry(t, batch, now, key, k);
            } else {
                law_only_publishing_touches_keys(t, op);
                assert(t.ledger[k] == u.ledger[k]);
            }
            let j = choose|j: int| 0 <= j < t.ledger.len() && t.ledger[j] == u.ledger[k];
            assert(t.ledger[j].key == key);
        }
    }
}

/// Identifiers are never taken back over a history.
pub proof fn lemma_last_message(s: StoreView, history: Seq<Operation>, n: int)
    requires
        s.wf(),
        runs(s, history),
        0 <= n <= history.len(),
    ensures
        run(s, history.take(n)).last_message_id >= s.last_message_id,
        run(s, history.take(n)).idempotency_window_ms == s.idempotency_window_ms,
    decreases n,
{
    if n == 0 {
        assert(history.take(0) =~= Seq::empty());
    } else {
        lemma_last_message(s, history, n - 1);
        law_histories_keep_consistency(s, history, n - 1);
        lemma_run_step(s, history, n - 1);
        let t = run(s, history.take(n - 1));
        assert(history[n - 1].possible(t));
        law_identifiers_only_grow(t, history[n - 1]);
        if let Operation::Publish { batch, now } = history[n - 1] {
            crate::laws::publishing::law_publishing_appends(t, batch, now);
        }
    }
}

/// The idempotency window is fixed. A key that published at `now` suppresses
/// until `now` plus the window, whatever happens in between: a publish of it at
/// `later` is a duplicate of the first message exactly where `later` is inside
/// the window, and gets a new identifier where it is not. Duplicates in between
/// do not extend the window.
///
/// Two things are left out. One is a clock that runs back: a publish with a key
/// that reads the end of the window has dropped the key, though `later` is inside
/// the window again. The other is a stored entry that never got its message:
/// publishing under its key completes it, with the expiry that it has.
pub proof fn law_window_is_fixed(
    s: StoreView,
    batch: Seq<PublishView>,
    now: int,
    i: int,
    key: Seq<u8>,
    history: Seq<Operation>,
    again: Seq<PublishView>,
    later: int,
    j: int,
)
    requires
        s.wf(),
        s.publish_error(batch, Ok(now)) is None,
        0 <= i < batch.len(),
        batch[i].idempotency_key == Some(key),
        s.publish_base(batch, now).publish_outcomes(batch, now, s.expiry(now))[i] is Published,
        forall|k: int|
            0 <= k < s.ledger.len() && (#[trigger] s.ledger[k]).key == key
                && s.ledger[k].expires_at_ms > now ==> s.ledger[k].message_id is Some,
        runs(s.published(batch, now), history),
        later < now + s.idempotency_window_ms ==> keyed_before(
            history,
            now + s.idempotency_window_ms,
        ),
        only_duplicates_in(s.published(batch, now), history, key),
        run(s.published(batch, now), history).publish_error(again, Ok(later)) is None,
        0 <= j < again.len(),
        again[j].idempotency_key == Some(key),
        forall|m: int| 0 <= m < j ==> (#[trigger] again[m]).idempotency_key != Some(key),
    ensures
        ({
            let first = s.publish_base(batch, now).publish_outcomes(
                batch,
                now,
                s.expiry(now),
            )[i].message();
            let u = run(s.published(batch, now), history);
            let outcome = u.publish_base(again, later).publish_outcomes(
                again,
                later,
                u.expiry(later),
            )[j];
            if later < now + s.idempotency_window_ms {
                outcome == PublishOutcomeView::Duplicate { id: first }
            } else {
                outcome is Published && outcome.message() > first
            }
        }),
{
    let base = s.publish_base(batch, now);
    let outcomes = base.publish_outcomes(batch, now, s.expiry(now));
    let id = outcomes[i].message();
    let t = s.published(batch, now);
    let n = history.len() as int;
    let u = run(t, history);
    let entry = LedgerView {
        key,
        message_id: Some(id),
        expires_at_ms: now + s.idempotency_window_ms,
    };
    assert(history.take(n) =~= history);
    // The first publish found no entry, and no earlier occurrence in its batch.
    assert forall|k: int|
        0 <= k < s.ledger.len() && (#[trigger] s.ledger[k]).key
            == key implies s.ledger[k].expires_at_ms <= now by {
        if s.ledger[k].expires_at_ms > now {
            crate::laws::publishing::law_live_key_suppresses(s, batch, now, i, k);
        }
    }
    assert forall|m: int| 0 <= m < i implies (#[trigger] batch[m]).idempotency_key != Some(key) by {
        if batch[m].idempotency_key == Some(key) {
            crate::laws::publishing::law_duplicates_within_a_batch(s, batch, now, key, m, i);
        }
    }
    crate::laws::publishing::law_dead_key_publishes(s, batch, now, i, key);
    crate::laws::publishing::law_publishing_keeps_consistency(s, batch, now);
    crate::laws::publishing::law_publishing_appends(s, batch, now);
    crate::laws::publishing::law_published_messages_are_retained(s, batch, now, i);
    law_histories_keep_consistency(t, history, n);
    lemma_last_message(t, history, n);
    let a = choose|a: int| 0 <= a < t.ledger.len() && t.ledger[a] == entry;
    let message = MessageView {
        id,
        topic: batch[i].topic,
        body: batch[i].body,
        published_at_ms: now,
    };
    let m = choose|m: int| 0 <= m < t.messages.len() && t.messages[m] == message;
    assert(t.messages[m].id <= t.last_message_id);
    if later < entry.expires_at_ms {
        lemma_entry_lives(t, history, entry, n);
        let k = choose|k: int| 0 <= k < u.ledger.len() && u.ledger[k] == entry;
        crate::laws::publishing::law_live_key_suppresses(u, again, later, j, k);
    } else {
        lemma_no_entry_comes(t, history, key, n);
        assert forall|k: int|
            0 <= k < u.ledger.len() && (#[trigger] u.ledger[k]).key
                == key implies u.ledger[k].expires_at_ms <= later by {
            let b = choose|b: int| 0 <= b < t.ledger.len() && t.ledger[b] == u.ledger[k];
            if a < b {
                assert(t.ledger[a].key != t.ledger[b].key);
            } else if b < a {
                assert(t.ledger[b].key != t.ledger[a].key);
            }
        }
        crate::laws::publishing::law_dead_key_publishes(u, again, later, j, key);
    }
}

} // verus!
