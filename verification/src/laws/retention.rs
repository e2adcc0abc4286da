//! Retention: what pruning removes, and what stays.
use vstd::prelude::*;

use crate::api::MessageView;
use crate::model::StoreView;
use crate::seqs;

verus! {

/// Pruning is bounded, and removes only old messages that no consumer has a use
/// for: neither a delivery nor an archive stands for them, and no consumer has
/// them ahead.
pub proof fn law_pruning_is_bounded(s: StoreView, before_ms: int, max: nat)
    ensures
        s.doomed(before_ms, max).len() <= max,
        forall|message: MessageView|
            #[trigger] s.doomed(before_ms, max).contains(message) ==> {
                &&& s.messages.contains(message)
                &&& message.published_at_ms < before_ms
                &&& !s.is_referenced(message)
            },
        forall|message: MessageView|
            #[trigger] s.pruned(before_ms, max).messages.contains(message) <==> s.messages.contains(
                message,
            ) && !s.doomed(before_ms, max).contains(message),
{
    assert forall|message: MessageView|
        #[trigger] s.doomed(before_ms, max).contains(message) implies {
        &&& s.messages.contains(message)
        &&& message.published_at_ms < before_ms
        &&& !s.is_referenced(message)
    } by {
        crate::invariants::lemma_doomed(s, before_ms, max, message);
    }
    assert forall|message: MessageView|
        #[trigger] s.pruned(before_ms, max).messages.contains(message) <==> s.messages.contains(
            message,
        ) && !s.doomed(before_ms, max).contains(message) by {
        seqs::lemma_filter_member(
            s.messages,
            crate::model::outside(s.doomed(before_ms, max)),
            message,
        );
    }
}

/// A limit of zero prunes nothing.
pub proof fn law_pruning_nothing(s: StoreView, before_ms: int)
    ensures
        s.pruned(before_ms, 0) == s,
{
    let p = crate::model::outside(s.doomed(before_ms, 0));
    assert forall|k: int| 0 <= k < s.messages.len() implies p(#[trigger] s.messages[k]) by {}
    seqs::lemma_filter_all(s.messages, p);
    assert(s.pruned(before_ms, 0) =~= s);
}

/// Pruning that stays below its limit has removed everything that it could.
pub proof fn law_pruning_is_complete(s: StoreView, before_ms: int, max: nat)
    requires
        s.doomed(before_ms, max).len() < max,
    ensures
        forall|message: MessageView|
            #[trigger] s.pruned(before_ms, max).messages.contains(message) ==> !s.prunable(
                before_ms,
            )(message),
{
    law_pruning_is_bounded(s, before_ms, max);
    let p = s.prunable(before_ms);
    assert forall|message: MessageView|
        #[trigger] s.pruned(before_ms, max).messages.contains(message) implies !p(message) by {
        seqs::lemma_filter_member(s.messages, p, message);
    }
}

/// Pruning changes no inbox, no archive and no idempotency key: a key keeps
/// suppressing duplicates after its message is gone.
pub proof fn law_pruning_keeps_inboxes(s: StoreView, before_ms: int, max: nat, i: int)
    requires
        0 <= i < s.consumers.len(),
    ensures
        ({
            let t = s.pruned(before_ms, max);
            &&& t.consumers == s.consumers
            &&& t.deliveries == s.deliveries
            &&& t.archives == s.archives
            &&& t.ledger == s.ledger
            &&& t.last_message_id == s.last_message_id
            &&& t.messages.filter(t.outstanding_for(t.consumers[i])) == s.messages.filter(
                s.outstanding_for(s.consumers[i]),
            )
            &&& t.outstanding(t.consumers[i]) == s.outstanding(s.consumers[i])
        }),
{
    let t = s.pruned(before_ms, max);
    let consumer = s.consumers[i];
    let kept = crate::model::outside(s.doomed(before_ms, max));
    let p = s.outstanding_for(consumer);
    assert forall|k: int| 0 <= k < s.messages.len() implies p(#[trigger] s.messages[k]) == (kept(
        s.messages[k],
    ) && p(s.messages[k])) by {
        let message = s.messages[k];
        if p(message) && s.doomed(before_ms, max).contains(message) {
            crate::invariants::lemma_doomed(s, before_ms, max, message);
            if consumer.wants(message) {
                assert(s.consumers[i].wants(message));
            } else {
                let a = choose|a: int|
                    0 <= a < s.deliveries.len() && #[trigger] s.deliveries[a].consumer_id
                        == consumer.id && s.deliveries[a].message_id == message.id;
                assert(s.deliveries[a].message_id == message.id);
            }
        }
    }
    crate::counting::lemma_filter_filter(s.messages, kept, p, p);
    assert forall|k: int| 0 <= k < t.messages.len() implies t.outstanding_for(consumer)(
        #[trigger] t.messages[k],
    ) == p(t.messages[k]) by {
        crate::counting::lemma_same_deliveries(s, t, consumer.id, t.messages[k].id);
    }
    seqs::lemma_filter_same(t.messages, t.outstanding_for(consumer), p);
    let q = consumer.wanted();
    assert forall|k: int| 0 <= k < s.messages.len() implies q(#[trigger] s.messages[k]) == (kept(
        s.messages[k],
    ) && q(s.messages[k])) by {
        assert(q(s.messages[k]) ==> p(s.messages[k]));
    }
    crate::counting::lemma_filter_filter(s.messages, kept, q, q);
}

} // verus!
