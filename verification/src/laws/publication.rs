//! Publication: what a publish returns and stores, in terms of its batch and of
//! the rows before and after.
use vstd::prelude::*;

use crate::api::{Config, MessageView, Publish, PublishOutcome, PublishOutcomeView, PublishView};
use crate::error::Error;
use crate::laws::histories::Operation;
use crate::model::StoreView;
use crate::seqs;
use crate::signals::{Wakeup, WakeupView};
use crate::storage::LiteFan;
use crate::tables::{LedgerView, Stored};

verus! {

/// Publishing under other keys leaves a key as it is: what it stands for, and its
/// entry.
proof fn lemma_key_untouched(
    s: StoreView,
    batch: Seq<PublishView>,
    now: int,
    expires_at: int,
    key: Seq<u8>,
    i: int,
)
    requires
        s.wf(),
        s.published_all(batch, now, expires_at).last_message_id <= i64::MAX,
        0 <= i <= batch.len(),
        forall|j: int| 0 <= j < i ==> (#[trigger] batch[j]).idempotency_key != Some(key),
    ensures
        ({
            let t = s.published_all(batch.take(i), now, expires_at);
            &&& t.has_key(key) == s.has_key(key)
            &&& t.message_of_key(Some(key)) == s.message_of_key(Some(key))
            &&& forall|entry: LedgerView|
                entry.key == key ==> (#[trigger] t.ledger.contains(entry) <==> s.ledger.contains(
                    entry,
                ))
        }),
    decreases i,
{
    if i == 0 {
        assert(batch.take(0) =~= Seq::empty());
    } else {
        lemma_key_untouched(s, batch, now, expires_at, key, i - 1);
        crate::laws::publishing::lemma_prefix_wf(s, batch, i - 1, now, expires_at);
        crate::laws::publishing::lemma_prefix_wf(s, batch, i, now, expires_at);
        assert(batch.take(i).drop_last() =~= batch.take(i - 1));
        assert(batch.take(i).last() == batch[i - 1]);
        let early = s.published_all(batch.take(i - 1), now, expires_at);
        let late = s.published_all(batch.take(i), now, expires_at);
        assert(batch[i - 1].idempotency_key != Some(key));
        if early.message_of_key(batch[i - 1].idempotency_key) is None {
            let n = early.ledger.len() as int;
            if let Some(other) = batch[i - 1].idempotency_key {
                if early.has_key(other) {
                    let m = early.key_index(other);
                    assert(0 <= m < n && early.ledger[m].key == other);
                }
            }
            assert forall|k: int|
                0 <= k < late.ledger.len() && (#[trigger] late.ledger[k]).key == key implies k < n
                && early.ledger[k] == late.ledger[k] by {}
            assert forall|k: int|
                0 <= k < n && (#[trigger] early.ledger[k]).key == key implies late.ledger[k]
                == early.ledger[k] by {}
            if early.has_key(key) {
                let k = early.key_index(key);
                assert(0 <= k < n && early.ledger[k].key == key);
                assert(late.ledger[k].key == key);
                crate::invariants::lemma_key(late, k);
            }
            if late.has_key(key) {
                let k = late.key_index(key);
                assert(0 <= k < late.ledger.len() && late.ledger[k].key == key);
                assert(early.ledger[k].key == key);
            }
            assert forall|entry: LedgerView| entry.key == key implies (
            #[trigger] late.ledger.contains(entry) <==> early.ledger.contains(entry)) by {
                if late.ledger.contains(entry) {
                    let k = choose|k: int| 0 <= k < late.ledger.len() && late.ledger[k] == entry;
                    assert(early.ledger[k] == entry);
                }
                if early.ledger.contains(entry) {
                    let k = choose|k: int| 0 <= k < early.ledger.len() && early.ledger[k] == entry;
                    assert(late.ledger[k] == entry);
                }
            }
        }
    }
}

/// The outcome of each message of a batch. One without a key is published. The
/// first one under a key is a duplicate exactly where the ledger has an entry for
/// the key that stands for a message and expires after the reading of the clock,
/// and then names that message. A later one under the same key is a duplicate of
/// the first.
pub proof fn law_outcomes_follow_the_keys(
    fan: &mut LiteFan,
    messages: &[Publish<'_>],
    now: i64,
    outcomes: Vec<PublishOutcome>,
    i: int,
)
    requires
        old(fan)@.wf(),
        call_ensures(
            LiteFan::publish_batch,
            (fan, messages, Ok(now)),
            Ok::<Vec<PublishOutcome>, Error>(outcomes),
        ),
        0 <= i < messages@.len(),
    ensures
        outcomes@.len() == messages@.len(),
        ({
            let s = old(fan)@;
            match messages@[i]@.idempotency_key {
                None => outcomes@[i]@ is Published,
                Some(key) => {
                    &&& forall|m: int|
                        0 <= m < i && (#[trigger] messages@[m])@.idempotency_key == Some(key) ==> {
                            &&& outcomes@[i]@ matches PublishOutcomeView::Duplicate { id }
                            &&& outcomes@[m]@ == PublishOutcomeView::Duplicate { id }
                                || outcomes@[m]@ == PublishOutcomeView::Published { id }
                        }
                    &&& (forall|m: int|
                        0 <= m < i ==> (#[trigger] messages@[m])@.idempotency_key != Some(key)) ==> {
                        &&& forall|k: int|
                            0 <= k < s.ledger.len() && (#[trigger] s.ledger[k]).key == key
                                && s.ledger[k].expires_at_ms > now && s.ledger[k].message_id is Some
                                ==> outcomes@[i]@ == (PublishOutcomeView::Duplicate {
                                id: s.ledger[k].message_id->Some_0,
                            })
                        &&& (forall|k: int|
                            0 <= k < s.ledger.len() && (#[trigger] s.ledger[k]).key == key
                                && s.ledger[k].expires_at_ms > now ==> s.ledger[k].message_id is None)
                            ==> outcomes@[i]@ is Published
                    }
                },
            }
        }),
{
    let s = old(fan)@;
    let batch = seqs::views(messages@);
    let base = s.publish_base(batch, now as int);
    let expires_at = s.expiry(now as int);
    let all = base.publish_outcomes(batch, now as int, expires_at);
    assert(batch.len() == messages@.len());
    assert forall|m: int| 0 <= m < messages@.len() implies batch[m] == (
    #[trigger] messages@[m])@ by {}
    crate::laws::publishing::lemma_outcome_at(base, batch, now as int, expires_at, i);
    assert(seqs::views(outcomes@).len() == outcomes@.len());
    assert forall|m: int| 0 <= m < outcomes@.len() implies all[m] == (#[trigger] outcomes@[m])@ by {
        assert(seqs::views(outcomes@)[m] == outcomes@[m]@);
    }
    crate::laws::publishing::lemma_base_wf(s, batch, now as int);
    if let Some(key) = messages@[i]@.idempotency_key {
        assert(batch[i].idempotency_key is Some);
        assert forall|m: int|
            0 <= m < i && (#[trigger] messages@[m])@.idempotency_key == Some(key) implies {
            &&& outcomes@[i]@ matches PublishOutcomeView::Duplicate { id }
            &&& outcomes@[m]@ == PublishOutcomeView::Duplicate { id } || outcomes@[m]@
                == PublishOutcomeView::Published { id }
        } by {
            crate::laws::publishing::law_duplicates_within_a_batch(
                s,
                batch,
                now as int,
                key,
                m,
                i,
            );
        }
        if forall|m: int|
            0 <= m < i ==> (#[trigger] messages@[m])@.idempotency_key != Some(key) {
            assert forall|j: int| 0 <= j < i implies (#[trigger] batch[j]).idempotency_key != Some(
                key,
            ) by {
                assert(messages@[j]@.idempotency_key != Some(key));
            }
            lemma_key_untouched(base, batch, now as int, expires_at, key, i);
            assert forall|k: int|
                0 <= k < s.ledger.len() && (#[trigger] s.ledger[k]).key == key
                    && s.ledger[k].expires_at_ms > now && s.ledger[k].message_id is Some implies
                outcomes@[i]@ == (PublishOutcomeView::Duplicate {
                id: s.ledger[k].message_id->Some_0,
            }) by {
                crate::laws::publishing::law_live_key_suppresses(s, batch, now as int, i, k);
            }
            if forall|k: int|
                0 <= k < s.ledger.len() && (#[trigger] s.ledger[k]).key == key
                    && s.ledger[k].expires_at_ms > now ==> s.ledger[k].message_id is None {
                if base.has_key(key) {
                    let b = base.key_index(key);
                    assert(0 <= b < base.ledger.len() && base.ledger[b].key == key);
                    let k = seqs::lemma_filter_source(
                        s.ledger,
                        crate::model::unexpired(now as int),
                        b,
                    );
                    assert(s.ledger[k].key == key);
                }
            }
        }
    }
}

/// What a batch stores. The retained messages stay, and after them come new ones
/// with the identifiers that follow the last one ever assigned. There is one for
/// every published outcome, in the order of the batch, with the topic and the body
/// that it was given and the reading of the clock.
pub proof fn law_published_messages_are_stored(
    fan: &mut LiteFan,
    messages: &[Publish<'_>],
    now: i64,
    outcomes: Vec<PublishOutcome>,
)
    requires
        old(fan)@.wf(),
        messages@.len() > 0,
        call_ensures(
            LiteFan::publish_batch,
            (fan, messages, Ok(now)),
            Ok::<Vec<PublishOutcome>, Error>(outcomes),
        ),
    ensures
        ({
            let s = old(fan)@;
            let t = final(fan)@;
            let n = s.messages.len() as int;
            &&& outcomes@.len() == messages@.len()
            &&& n <= t.messages.len()
            &&& t.last_message_id == s.last_message_id + (t.messages.len() - n)
            &&& forall|k: int| 0 <= k < n ==> #[trigger] t.messages[k] == s.messages[k]
            &&& forall|i: int|
                0 <= i < outcomes@.len() ==> ((#[trigger] outcomes@[i])@ matches
                    PublishOutcomeView::Published { id } ==> {
                    let k = n + (id - s.last_message_id - 1);
                    &&& n <= k < t.messages.len()
                    &&& t.messages[k].id == id
                    &&& t.messages[k].topic == messages@[i]@.topic
                    &&& t.messages[k].body == messages@[i]@.body
                    &&& t.messages[k].published_at_ms == now
                })
            &&& forall|i: int, j: int|
                0 <= i < j < outcomes@.len() ==> ((#[trigger] outcomes@[i])@ matches
                    PublishOutcomeView::Published { id } ==> ((
                #[trigger] outcomes@[j])@ matches PublishOutcomeView::Published { id: later }
                    ==> id < later))
            &&& forall|k: int|
                n <= k < t.messages.len() ==> exists|i: int|
                    0 <= i < outcomes@.len() && (#[trigger] outcomes@[i])@
                        == (PublishOutcomeView::Published { id: (#[trigger] t.messages[k]).id })
            &&& t == (StoreView {
                messages: t.messages,
                ledger: t.ledger,
                last_message_id: t.last_message_id,
                wakeups: t.wakeups,
                ..s
            })
        }),
{
    let s = old(fan)@;
    let t = final(fan)@;
    let n = s.messages.len() as int;
    let batch = seqs::views(messages@);
    let base = s.publish_base(batch, now as int);
    let expires_at = s.expiry(now as int);
    let all = base.publish_outcomes(batch, now as int, expires_at);
    assert(batch.len() == messages@.len());
    crate::laws::publishing::law_publishing_appends(s, batch, now as int);
    crate::laws::publishing::lemma_outcome_at(base, batch, now as int, expires_at, 0);
    assert(seqs::views(outcomes@).len() == outcomes@.len());
    assert forall|m: int| 0 <= m < outcomes@.len() implies all[m] == (#[trigger] outcomes@[m])@ by {
        assert(seqs::views(outcomes@)[m] == outcomes@[m]@);
    }
    assert forall|i: int| 0 <= i < outcomes@.len() implies ((#[trigger] outcomes@[i])@ matches
        PublishOutcomeView::Published { id } ==> {
        let k = n + (id - s.last_message_id - 1);
        &&& n <= k < t.messages.len()
        &&& t.messages[k].id == id
        &&& t.messages[k].topic == messages@[i]@.topic
        &&& t.messages[k].body == messages@[i]@.body
        &&& t.messages[k].published_at_ms == now
    }) by {
        crate::laws::publishing::law_published_messages_are_retained(s, batch, now as int, i);
        if let PublishOutcomeView::Published { id } = outcomes@[i]@ {
            let stored = MessageView {
                id,
                topic: batch[i].topic,
                body: batch[i].body,
                published_at_ms: now as int,
            };
            let k = choose|k: int| 0 <= k < t.messages.len() && t.messages[k] == stored;
            if k < n {
                assert(s.messages[k].id <= s.last_message_id);
            }
            assert(t.messages[k].id == id);
        }
    }
    assert forall|i: int, j: int|
        0 <= i < j < outcomes@.len() implies ((#[trigger] outcomes@[i])@ matches
        PublishOutcomeView::Published { id } ==> ((#[trigger] outcomes@[j])@ matches
        PublishOutcomeView::Published { id: later } ==> id < later)) by {
        crate::laws::publishing::lemma_outcome_at(base, batch, now as int, expires_at, i);
        crate::laws::publishing::lemma_outcome_at(base, batch, now as int, expires_at, j);
        assert(batch.take(j).take(i + 1) =~= batch.take(i + 1));
        assert(batch.take(i + 1).drop_last() =~= batch.take(i));
        assert(batch.take(i + 1).last() == batch[i]);
        crate::invariants::lemma_published_last(
            base,
            batch.take(j),
            i + 1,
            now as int,
            expires_at,
        );
    }
    lemma_every_message_has_an_outcome(base, batch, now as int, expires_at, batch.len() as int);
    assert(batch.take(batch.len() as int) =~= batch);
    assert forall|k: int| n <= k < t.messages.len() implies exists|i: int|
        0 <= i < outcomes@.len() && (#[trigger] outcomes@[i])@ == (PublishOutcomeView::Published {
            id: (#[trigger] t.messages[k]).id,
        }) by {
        let i = choose|i: int|
            0 <= i < batch.len() && #[trigger] all[i] == (PublishOutcomeView::Published {
                id: t.messages[k].id,
            });
        assert(outcomes@[i]@ == all[i]);
    }
}

proof fn lemma_every_message_has_an_outcome(
    s: StoreView,
    batch: Seq<PublishView>,
    now: int,
    expires_at: int,
    i: int,
)
    requires
        0 <= i <= batch.len(),
    ensures
        ({
            let t = s.published_all(batch.take(i), now, expires_at);
            forall|k: int|
                s.messages.len() <= k < t.messages.len() ==> exists|j: int|
                    0 <= j < i && #[trigger] s.publish_outcomes(batch, now, expires_at)[j] == (
                    PublishOutcomeView::Published { id: (#[trigger] t.messages[k]).id })
        }),
    decreases i,
{
    let outcomes = s.publish_outcomes(batch, now, expires_at);
    let t = s.published_all(batch.take(i), now, expires_at);
    if i == 0 {
        assert(batch.take(0) =~= Seq::empty());
    } else {
        lemma_every_message_has_an_outcome(s, batch, now, expires_at, i - 1);
        crate::laws::publishing::lemma_outcome_at(s, batch, now, expires_at, i - 1);
        assert(batch.take(i).drop_last() =~= batch.take(i - 1));
        assert(batch.take(i).last() == batch[i - 1]);
        let early = s.published_all(batch.take(i - 1), now, expires_at);
        assert forall|k: int| s.messages.len() <= k < t.messages.len() implies exists|j: int|
            0 <= j < i && #[trigger] outcomes[j] == (PublishOutcomeView::Published {
                id: (#[trigger] t.messages[k]).id,
            }) by {
            if k < early.messages.len() {
                assert(early.messages[k] == t.messages[k]);
                let j = choose|j: int|
                    0 <= j < i - 1 && #[trigger] outcomes[j] == (PublishOutcomeView::Published {
                        id: early.messages[k].id,
                    });
                assert(0 <= j < i);
            } else {
                assert(outcomes[i - 1] == (PublishOutcomeView::Published {
                    id: t.messages[k].id,
                }));
            }
        }
    }
}

/// What a batch leaves in the ledger for a key that it carries: one entry, for the
/// message of the first outcome under the key. It expires when the entry expired
/// that was live, and otherwise at the reading of the clock plus the window.
pub proof fn law_keys_stand_for_their_message(
    fan: &mut LiteFan,
    messages: &[Publish<'_>],
    now: i64,
    outcomes: Vec<PublishOutcome>,
    i: int,
    key: Seq<u8>,
    entry: LedgerView,
)
    requires
        old(fan)@.wf(),
        call_ensures(
            LiteFan::publish_batch,
            (fan, messages, Ok(now)),
            Ok::<Vec<PublishOutcome>, Error>(outcomes),
        ),
        0 <= i < messages@.len(),
        messages@[i]@.idempotency_key == Some(key),
        forall|m: int| 0 <= m < i ==> (#[trigger] messages@[m])@.idempotency_key != Some(key),
        entry.key == key,
    ensures
        ({
            let s = old(fan)@;
            let id = match outcomes@[i]@ {
                PublishOutcomeView::Published { id } => id,
                PublishOutcomeView::Duplicate { id } => id,
            };
            &&& forall|k: int|
                0 <= k < s.ledger.len() && (#[trigger] s.ledger[k]).key == key
                    && s.ledger[k].expires_at_ms > now ==> (final(fan)@.ledger.contains(entry)
                    <==> entry.message_id == Some(id) && entry.expires_at_ms
                    == s.ledger[k].expires_at_ms)
            &&& (forall|k: int|
                0 <= k < s.ledger.len() && (#[trigger] s.ledger[k]).key == key
                    ==> s.ledger[k].expires_at_ms <= now) ==> (final(fan)@.ledger.contains(entry)
                <==> entry.message_id == Some(id) && entry.expires_at_ms == now
                + s.idempotency_window_ms)
        }),
{
    let s = old(fan)@;
    let t = final(fan)@;
    let batch = seqs::views(messages@);
    let n = batch.len() as int;
    let base = s.publish_base(batch, now as int);
    let expires_at = s.expiry(now as int);
    let all = base.publish_outcomes(batch, now as int, expires_at);
    assert(n == messages@.len());
    assert(batch[i].idempotency_key == Some(key));
    assert forall|m: int| 0 <= m < i implies (#[trigger] batch[m]).idempotency_key != Some(key) by {
        assert(messages@[m]@.idempotency_key != Some(key));
    }
    crate::laws::publishing::lemma_outcome_at(base, batch, now as int, expires_at, i);
    assert(seqs::views(outcomes@).len() == outcomes@.len());
    assert(seqs::views(outcomes@)[i] == outcomes@[i]@);
    crate::laws::publishing::lemma_base_wf(s, batch, now as int);
    crate::laws::publishing::law_publishing_keeps_consistency(s, batch, now as int);
    lemma_key_untouched(base, batch, now as int, expires_at, key, i);
    let early = base.published_all(batch.take(i), now as int, expires_at);
    let middle = base.published_all(batch.take(i + 1), now as int, expires_at);
    let late = base.published_all(batch, now as int, expires_at);
    crate::laws::publishing::lemma_prefix_wf(base, batch, i, now as int, expires_at);
    crate::laws::publishing::lemma_prefix_wf(base, batch, i + 1, now as int, expires_at);
    assert(batch.take(i + 1).drop_last() =~= batch.take(i));
    assert(batch.take(i + 1).last() == batch[i]);
    assert(batch.take(n) =~= batch);
    crate::laws::publishing::lemma_key_recorded(early, batch[i], now as int, expires_at, key);
    crate::laws::publishing::lemma_key_kept_through(
        base,
        batch,
        now as int,
        expires_at,
        key,
        i + 1,
        n,
    );
    let kept = late.ledger[late.key_index(key)];
    let at = late.key_index(key);
    assert(0 <= at < late.ledger.len() && late.ledger[at].key == key);
    assert(t.ledger == late.ledger);
    assert(t.ledger.contains(entry) <==> entry == kept) by {
        if t.ledger.contains(entry) {
            let k = choose|k: int| 0 <= k < t.ledger.len() && t.ledger[k] == entry;
            crate::invariants::lemma_key(t, k);
            crate::invariants::lemma_key(t, at);
        }
        assert(t.ledger[at] == kept);
    }
    // Which expiry the entry has.
    if early.has_key(key) {
        let e = early.key_index(key);
        assert(0 <= e < early.ledger.len() && early.ledger[e].key == key);
        let old_entry = early.ledger[e];
        assert(early.ledger.contains(old_entry));
        assert(base.ledger.contains(old_entry));
        let b = choose|b: int| 0 <= b < base.ledger.len() && base.ledger[b] == old_entry;
        let c = seqs::lemma_filter_source(s.ledger, crate::model::unexpired(now as int), b);
        assert(s.ledger[c] == old_entry);
        let m = middle.key_index(key);
        assert(0 <= m < middle.ledger.len() && middle.ledger[m].key == key);
        assert(middle.ledger[e].key == key);
        crate::invariants::lemma_key(middle, e);
        assert(kept.expires_at_ms == old_entry.expires_at_ms);
        assert forall|k: int|
            0 <= k < s.ledger.len() && (#[trigger] s.ledger[k]).key == key implies k == c by {
            crate::invariants::lemma_key(s, k);
            crate::invariants::lemma_key(s, c);
        }
    } else {
        assert forall|k: int|
            0 <= k < s.ledger.len() && (#[trigger] s.ledger[k]).key
                == key implies s.ledger[k].expires_at_ms <= now by {
            if s.ledger[k].expires_at_ms > now {
                assert(s.ledger.contains(s.ledger[k]));
                seqs::lemma_filter_member(
                    s.ledger,
                    crate::model::unexpired(now as int),
                    s.ledger[k],
                );
                let b = choose|b: int|
                    0 <= b < base.ledger.len() && base.ledger[b] == s.ledger[k];
                assert(base.ledger[b].key == key);
            }
        }
        assert(kept.expires_at_ms == expires_at);
    }
}

/// What a batch leaves in the ledger for the keys that it does not carry: exactly
/// the entries that were there, without those that have expired if the batch
/// carries any key at all.
pub proof fn law_other_keys_stay(
    fan: &mut LiteFan,
    messages: &[Publish<'_>],
    now: i64,
    outcomes: Vec<PublishOutcome>,
    entry: LedgerView,
)
    requires
        old(fan)@.wf(),
        messages@.len() > 0,
        call_ensures(
            LiteFan::publish_batch,
            (fan, messages, Ok(now)),
            Ok::<Vec<PublishOutcome>, Error>(outcomes),
        ),
        forall|m: int|
            0 <= m < messages@.len() ==> (#[trigger] messages@[m])@.idempotency_key != Some(
                entry.key,
            ),
    ensures
        final(fan)@.ledger.contains(entry) <==> {
            &&& old(fan)@.ledger.contains(entry)
            &&& entry.expires_at_ms > now || forall|m: int|
                0 <= m < messages@.len() ==> (#[trigger] messages@[m])@.idempotency_key is None
        },
{
    let s = old(fan)@;
    let batch = seqs::views(messages@);
    let n = batch.len() as int;
    let base = s.publish_base(batch, now as int);
    let expires_at = s.expiry(now as int);
    assert(n == messages@.len());
    assert forall|m: int| 0 <= m < n implies (#[trigger] batch[m]).idempotency_key != Some(
        entry.key,
    ) by {
        assert(messages@[m]@.idempotency_key != Some(entry.key));
    }
    crate::laws::publishing::lemma_base_wf(s, batch, now as int);
    lemma_key_untouched(base, batch, now as int, expires_at, entry.key, n);
    assert(batch.take(n) =~= batch);
    seqs::lemma_filter_member(s.ledger, crate::model::unexpired(now as int), entry);
    if crate::model::has_keys(batch) {
        let m = choose|m: int| 0 <= m < n && #[trigger] batch[m].idempotency_key is Some;
        assert(messages@[m]@.idempotency_key is Some);
    } else {
        assert forall|m: int| 0 <= m < messages@.len() implies (
        #[trigger] messages@[m])@.idempotency_key is None by {
            assert(batch[m].idempotency_key is None);
        }
    }
}

/// When a publish is owed and when it is refused. Nothing to publish is no
/// failure. A batch beyond the limit, a clock that cannot be read, and, for a
/// batch with a key, an expiry that cannot be stored are refused; so is a batch
/// for which there are not enough identifiers left. Where a publish fails, nothing
/// changes; it does not fail for another reason.
pub proof fn law_publishing_is_owed(
    fan: &mut LiteFan,
    messages: &[Publish<'_>],
    clock: Result<i64, Error>,
    result: Result<Vec<PublishOutcome>, Error>,
)
    requires
        old(fan)@.wf(),
        call_ensures(LiteFan::publish_batch, (fan, messages, clock), result),
    ensures
        ({
            let s = old(fan)@;
            let keyed = exists|m: int|
                0 <= m < messages@.len() && (#[trigger] messages@[m])@.idempotency_key is Some;
            &&& result is Err ==> final(fan)@ == s
            &&& if messages@.len() == 0 {
                &&& result is Ok
                &&& result->Ok_0@.len() == 0
                &&& final(fan)@ == s
            } else if messages@.len() > s.max_batch_size {
                &&& result matches Err(Error::BatchTooLarge { requested, maximum })
                &&& requested == messages@.len()
                &&& maximum == s.max_batch_size
            } else if clock is Err {
                result is Err && result->Err_0@ == clock->Err_0@
            } else if keyed && clock->Ok_0 + s.idempotency_window_ms > i64::MAX {
                result matches Err(Error::DurationOutOfRange)
            } else {
                &&& s.last_message_id + messages@.len() <= i64::MAX ==> result is Ok
                &&& result is Err ==> result->Err_0 is CounterOutOfRange
            }
        }),
{
    let s = old(fan)@;
    let batch = seqs::views(messages@);
    assert(batch.len() == messages@.len());
    if crate::model::has_keys(batch) {
        let m = choose|m: int| 0 <= m < batch.len() && #[trigger] batch[m].idempotency_key is Some;
        assert(messages@[m]@.idempotency_key is Some);
    }
    if exists|m: int|
        0 <= m < messages@.len() && (#[trigger] messages@[m])@.idempotency_key is Some {
        let m = choose|m: int|
            0 <= m < messages@.len() && (#[trigger] messages@[m])@.idempotency_key is Some;
        assert(batch[m].idempotency_key is Some);
    }
    if let Ok(now) = clock {
        lemma_at_most_one_each(
            s.publish_base(batch, now as int),
            batch,
            now as int,
            s.expiry(now as int),
        );
    }
}

/// A batch uses no more identifiers than it has messages.
proof fn lemma_at_most_one_each(
    s: StoreView,
    batch: Seq<PublishView>,
    now: int,
    expires_at: int,
)
    ensures
        s.published_all(batch, now, expires_at).last_message_id <= s.last_message_id + batch.len(),
    decreases batch.len(),
{
    if batch.len() > 0 {
        lemma_at_most_one_each(s, batch.drop_last(), now, expires_at);
    }
}

/// One message is a batch of one: it is refused alike, has the outcome that the
/// batch has, and leaves the same log.
pub proof fn law_one_message_is_a_batch(
    fan: &mut LiteFan,
    message: Publish<'_>,
    clock: Result<i64, Error>,
    result: Result<PublishOutcome, Error>,
    batch_fan: &mut LiteFan,
    messages: &[Publish<'_>],
    batch_result: Result<Vec<PublishOutcome>, Error>,
)
    requires
        old(fan)@ == old(batch_fan)@,
        messages@.len() == 1,
        messages@[0] == message,
        call_ensures(LiteFan::publish, (fan, message, clock), result),
        call_ensures(LiteFan::publish_batch, (batch_fan, messages, clock), batch_result),
    ensures
        final(fan)@ == final(batch_fan)@,
        result is Ok <==> batch_result is Ok,
        result is Err ==> result->Err_0@ == batch_result->Err_0@,
        result is Ok ==> batch_result->Ok_0@.len() == 1 && result->Ok_0@
            == batch_result->Ok_0@[0]@,
{
    let s = old(fan)@;
    assert(seqs::views(messages@) =~= seq![message@]);
    if result is Ok {
        let now = clock->Ok_0 as int;
        let base = s.publish_base(seq![message@], now);
        crate::laws::publishing::lemma_outcome_at(
            base,
            seq![message@],
            now,
            s.expiry(now),
            0,
        );
        assert(seq![message@].take(0) =~= Seq::empty());
        assert(seqs::views(batch_result->Ok_0@).len() == batch_result->Ok_0@.len());
        assert(seqs::views(batch_result->Ok_0@)[0] == batch_result->Ok_0@[0]@);
    }
}

// The configured window
/// A key suppresses for the configured window. Whatever has happened since a log
/// was opened under a configuration: a message that is published under a key makes
/// another publish under the key a duplicate of it up to the whole milliseconds of
/// `idempotency_window` later, and not from then on.
pub proof fn law_keys_suppress_for_the_configured_window(
    stored: Stored,
    config: Config,
    opened: LiteFan,
    history: Seq<Operation>,
    fan: &mut LiteFan,
    messages: &[Publish<'_>],
    now: i64,
    outcomes: Vec<PublishOutcome>,
    i: int,
    key: Seq<u8>,
    later_fan: &mut LiteFan,
    again: &[Publish<'_>],
    later: i64,
    later_outcomes: Vec<PublishOutcome>,
    j: int,
)
    requires
        call_ensures(
            LiteFan::open_with_config,
            (stored, config),
            Ok::<LiteFan, Error>(opened),
        ),
        crate::laws::histories::runs(opened@, history),
        old(fan)@ == crate::laws::histories::run(opened@, history),
        call_ensures(
            LiteFan::publish_batch,
            (fan, messages, Ok(now)),
            Ok::<Vec<PublishOutcome>, Error>(outcomes),
        ),
        0 <= i < messages@.len(),
        messages@[i]@.idempotency_key == Some(key),
        forall|m: int| 0 <= m < i ==> (#[trigger] messages@[m])@.idempotency_key != Some(key),
        forall|k: int|
            0 <= k < old(fan)@.ledger.len() && (#[trigger] old(fan)@.ledger[k]).key == key
                ==> old(fan)@.ledger[k].expires_at_ms <= now,
        old(later_fan)@ == final(fan)@,
        call_ensures(
            LiteFan::publish_batch,
            (later_fan, again, Ok(later)),
            Ok::<Vec<PublishOutcome>, Error>(later_outcomes),
        ),
        0 <= j < again@.len(),
        again@[j]@.idempotency_key == Some(key),
        forall|m: int| 0 <= m < j ==> (#[trigger] again@[m])@.idempotency_key != Some(key),
    ensures
        ({
            let window_ms = crate::time::duration_nanos(config.idempotency_window) / 1_000_000;
            &&& outcomes@[i]@ matches PublishOutcomeView::Published { id }
            &&& if later < now + window_ms {
                later_outcomes@[j]@ == (PublishOutcomeView::Duplicate { id })
            } else {
                later_outcomes@[j]@ matches PublishOutcomeView::Published { id: new } && new > id
            }
        }),
{
    let s = old(fan)@;
    let t = final(fan)@;
    let n = history.len() as int;
    assert(history.take(n) =~= history);
    crate::laws::histories::law_histories_keep_consistency(opened@, history, n);
    crate::laws::histories::lemma_last_message(opened@, history, n);
    let window_ms = crate::time::duration_nanos(config.idempotency_window) / 1_000_000;
    assert(opened@.idempotency_window_ms == window_ms);
    law_outcomes_follow_the_keys(fan, messages, now, outcomes, i);
    let id = match outcomes@[i]@ {
        PublishOutcomeView::Published { id } => id,
        PublishOutcomeView::Duplicate { id } => id,
    };
    let entry = LedgerView { key, message_id: Some(id), expires_at_ms: now + window_ms };
    law_keys_stand_for_their_message(fan, messages, now, outcomes, i, key, entry);
    law_published_messages_are_stored(fan, messages, now, outcomes);
    let a = choose|a: int| 0 <= a < t.ledger.len() && t.ledger[a] == entry;
    assert(t.ledger[a].key == key);
    law_outcomes_follow_the_keys(later_fan, again, later, later_outcomes, j);
    law_published_messages_are_stored(later_fan, again, later, later_outcomes);
    assert forall|k: int|
        0 <= k < t.ledger.len() && (#[trigger] t.ledger[k]).key == key implies t.ledger[k] == entry by {
        crate::invariants::lemma_key(t, k);
        crate::invariants::lemma_key(t, a);
    }
    assert(outcomes@[i]@ is Published);
}

// Wakeups
/// The topics of a batch are listed once each.
proof fn lemma_topics_once(topics: Seq<Option<Seq<char>>>)
    ensures
        crate::model::distinct_topics(topics).no_duplicates(),
    decreases topics.len(),
{
    if topics.len() > 0 {
        lemma_topics_once(topics.drop_last());
    }
}

/// Whom a publish wakes. Where it stores nothing, nobody; otherwise those who
/// receive everything, and those who receive the topic of a message that it
/// stored: each such topic once, and no other. Earlier wakeups stay.
pub proof fn law_publishing_wakes_whom_it_concerns(
    fan: &mut LiteFan,
    messages: &[Publish<'_>],
    now: i64,
    outcomes: Vec<PublishOutcome>,
    topic: Seq<char>,
)
    requires
        old(fan)@.wf(),
        messages@.len() > 0,
        call_ensures(
            LiteFan::publish_batch,
            (fan, messages, Ok(now)),
            Ok::<Vec<PublishOutcome>, Error>(outcomes),
        ),
    ensures
        ({
            let s = old(fan)@;
            let t = final(fan)@;
            let n = s.wakeups.len() as int;
            &&& n <= t.wakeups.len()
            &&& forall|k: int| 0 <= k < n ==> #[trigger] t.wakeups[k] == s.wakeups[k]
            &&& t.messages.len() == s.messages.len() <==> t.wakeups.len() == n
            &&& t.messages.len() > s.messages.len() ==> exists|k: int|
                n <= k < t.wakeups.len() && #[trigger] t.wakeups[k] == WakeupView::Publishes
            &&& (exists|k: int|
                n <= k < t.wakeups.len() && #[trigger] t.wakeups[k] == WakeupView::Topic(topic))
                <==> (exists|m: int|
                s.messages.len() <= m < t.messages.len() && (#[trigger] t.messages[m]).topic
                    == Some(topic))
            &&& forall|k: int|
                n <= k < t.wakeups.len() ==> !(#[trigger] t.wakeups[k] is Consumer)
            &&& forall|k: int, l: int|
                n <= k < l < t.wakeups.len() ==> #[trigger] t.wakeups[k] != #[trigger] t.wakeups[l]
        }),
{
    let s = old(fan)@;
    let t = final(fan)@;
    let n = s.wakeups.len() as int;
    let batch = seqs::views(messages@);
    crate::laws::publishing::law_publishing_appends(s, batch, now as int);
    let inserted = t.messages.skip(s.messages.len() as int);
    let topics = inserted.map_values(|message: MessageView| message.topic);
    let distinct = crate::model::distinct_topics(topics);
    let raised = crate::model::publish_wakeups(topics);
    if t.messages.len() > s.messages.len() {
        assert(t.wakeups == s.wakeups + raised);
        assert(t.wakeups[n] == WakeupView::Publishes);
        lemma_topics_once(topics);
        assert forall|k: int| n < k < t.wakeups.len() implies #[trigger] t.wakeups[k]
            == WakeupView::Topic(distinct[k - n - 1]) by {
            assert(t.wakeups[k] == raised[k - n]);
        }
        if exists|k: int|
            n <= k < t.wakeups.len() && #[trigger] t.wakeups[k] == WakeupView::Topic(topic) {
            let k = choose|k: int|
                n <= k < t.wakeups.len() && #[trigger] t.wakeups[k] == WakeupView::Topic(topic);
            crate::laws::publishing::law_publishing_wakes_only_receivers(s, batch, now as int, k);
        }
        if exists|m: int|
            s.messages.len() <= m < t.messages.len() && (#[trigger] t.messages[m]).topic == Some(
                topic,
            ) {
            let m = choose|m: int|
                s.messages.len() <= m < t.messages.len() && (#[trigger] t.messages[m]).topic
                    == Some(topic);
            assert(topics[m - s.messages.len()] == Some(topic));
            crate::laws::publishing::lemma_distinct_topics(topics, topic);
            let d = choose|d: int| 0 <= d < distinct.len() && distinct[d] == topic;
            assert(t.wakeups[n + 1 + d] == WakeupView::Topic(topic));
        }
    }
}

/// Taking the wakeups hands out all of them, in their order, and leaves none.
pub proof fn law_wakeups_are_taken_once(fan: &mut LiteFan, wakeups: Vec<Wakeup>)
    requires
        call_ensures(LiteFan::take_wakeups, (fan,), wakeups),
    ensures
        wakeups@.len() == old(fan)@.wakeups.len(),
        forall|k: int|
            0 <= k < wakeups@.len() ==> (#[trigger] wakeups@[k])@ == old(fan)@.wakeups[k],
        final(fan)@.wakeups.len() == 0,
        final(fan)@ == (StoreView { wakeups: final(fan)@.wakeups, ..old(fan)@ }),
{
    assert(seqs::views(wakeups@).len() == wakeups@.len());
    assert forall|k: int| 0 <= k < wakeups@.len() implies (#[trigger] wakeups@[k])@
        == old(fan)@.wakeups[k] by {
        assert(seqs::views(wakeups@)[k] == wakeups@[k]@);
    }
}

/// The wakeups for some topics: the one for everything first, and then one for
/// each topic that occurs, and for no other.
pub proof fn law_topics_are_woken_once(
    topics: &Vec<Option<&str>>,
    wakeups: Vec<Wakeup>,
    topic: Seq<char>,
)
    requires
        call_ensures(crate::signals::notify_publishes, (topics,), wakeups),
    ensures
        wakeups@.len() > 0,
        wakeups@[0]@ == WakeupView::Publishes,
        (exists|k: int|
            0 < k < wakeups@.len() && (#[trigger] wakeups@[k])@ == WakeupView::Topic(topic)) <==> (
        exists|i: int|
            0 <= i < topics@.len() && (#[trigger] topics@[i]) is Some && topics@[i]->Some_0@
                == topic),
        forall|k: int| 0 < k < wakeups@.len() ==> (#[trigger] wakeups@[k])@ is Topic,
        forall|k: int, l: int|
            0 <= k < l < wakeups@.len() ==> (#[trigger] wakeups@[k])@ != (
            #[trigger] wakeups@[l])@,
{
    let all = crate::signals::topic_views(topics@);
    let distinct = crate::model::distinct_topics(all);
    let raised = crate::model::publish_wakeups(all);
    lemma_topics_once(all);
    assert(seqs::views(wakeups@).len() == wakeups@.len());
    assert forall|k: int| 0 <= k < wakeups@.len() implies (#[trigger] wakeups@[k])@ == raised[k] by {
        assert(seqs::views(wakeups@)[k] == wakeups@[k]@);
    }
    assert forall|k: int| 0 < k < wakeups@.len() implies (#[trigger] wakeups@[k])@
        == WakeupView::Topic(distinct[k - 1]) by {
        assert(raised[k] == WakeupView::Topic(distinct[k - 1]));
    }
    crate::laws::publishing::lemma_distinct_topics(all, topic);
    if exists|k: int|
        0 < k < wakeups@.len() && (#[trigger] wakeups@[k])@ == WakeupView::Topic(topic) {
        let k = choose|k: int|
            0 < k < wakeups@.len() && (#[trigger] wakeups@[k])@ == WakeupView::Topic(topic);
        assert(distinct[k - 1] == topic);
        let i = choose|i: int| 0 <= i < all.len() && all[i] == Some(topic);
        assert(topics@[i] is Some);
    }
    if exists|i: int|
        0 <= i < topics@.len() && (#[trigger] topics@[i]) is Some && topics@[i]->Some_0@ == topic {
        let i = choose|i: int|
            0 <= i < topics@.len() && (#[trigger] topics@[i]) is Some && topics@[i]->Some_0@
                == topic;
        assert(all[i] == Some(topic));
        let d = choose|d: int| 0 <= d < distinct.len() && distinct[d] == topic;
        assert(raised[d + 1] == WakeupView::Topic(topic));
        assert(wakeups@[d + 1]@ == WakeupView::Topic(topic));
    }
}

} // verus!
