//! Consumers: identity, draining, and deletion.
use vstd::prelude::*;

use crate::api::{DeleteMode, PublishView};
use crate::error::ErrorView;
use crate::model::StoreView;
use crate::seqs;

verus! {

/// A consumer name is a durable identity: opening it again resumes the same
/// consumer and changes nothing.
pub proof fn law_reopening_resumes(
    s: StoreView,
    name: Seq<char>,
    filter: Option<Seq<char>>,
    now: int,
    later: int,
)
    requires
        s.wf(),
        s.open_outcome(name, filter, Ok(now)) is Ok,
    ensures
        ({
            let t = s.opened(name, filter, now);
            &&& t.open_outcome(name, filter, Ok(later)) == s.open_outcome(name, filter, Ok(now))
            &&& t.opened(name, filter, later) == t
        }),
{
    let t = s.opened(name, filter, now);
    if !s.has_name(name) {
        crate::invariants::lemma_opened_wf(s, name, filter, now);
        crate::invariants::lemma_named(t, s.consumers.len() as int);
    }
}

/// A name keeps its filter: it cannot be opened with another one.
pub proof fn law_filter_is_fixed(
    s: StoreView,
    name: Seq<char>,
    filter: Option<Seq<char>>,
    other: Option<Seq<char>>,
    now: int,
    later: int,
)
    requires
        s.wf(),
        s.open_outcome(name, filter, Ok(now)) is Ok,
        other != filter,
    ensures
        s.opened(name, filter, now).open_outcome(name, other, Ok(later)) == Err::<int, ErrorView>(
            ErrorView::ConsumerConfigurationMismatch { name },
        ),
{
    let t = s.opened(name, filter, now);
    if !s.has_name(name) {
        crate::invariants::lemma_opened_wf(s, name, filter, now);
        crate::invariants::lemma_named(t, s.consumers.len() as int);
    }
}

/// A new consumer starts after the retained messages: its inbox is empty, and no
/// other inbox changes.
pub proof fn law_new_consumer_starts_empty(
    s: StoreView,
    name: Seq<char>,
    filter: Option<Seq<char>>,
    now: int,
)
    requires
        s.consistent(),
        !s.has_name(name),
        s.last_consumer_id < i64::MAX,
    ensures
        ({
            let t = s.opened(name, filter, now);
            let n = s.consumers.len() as int;
            &&& t.consumers.len() == n + 1
            &&& t.consumers[n].name == name
            &&& t.outstanding(t.consumers[n]) == 0
            &&& forall|i: int|
                0 <= i < n ==> {
                    &&& #[trigger] t.consumers[i] == s.consumers[i]
                    &&& t.outstanding(t.consumers[i]) == s.outstanding(s.consumers[i])
                }
        }),
{
    let t = s.opened(name, filter, now);
    let n = s.consumers.len() as int;
    let consumer = t.consumers[n];
    crate::invariants::lemma_high_water_agrees(s);
    crate::invariants::lemma_opened_wf(s, name, filter, now);
    assert forall|k: int| 0 <= k < t.messages.len() implies !consumer.wanted()(
        #[trigger] t.messages[k],
    ) by {
        crate::invariants::lemma_high_water(s, k);
    }
    seqs::lemma_filter_none(t.messages, consumer.wanted());
    let p = crate::model::belongs_to(consumer.id);
    assert forall|a: int| 0 <= a < t.deliveries.len() implies !p(#[trigger] t.deliveries[a]) by {
        let row = s.deliveries[a];
        assert(s.is_copy(row.consumer_id, row.message_id));
        let i = s.consumer_index(row.consumer_id);
        assert(s.consumers[i].id == row.consumer_id);
        assert(s.consumer_wf(s.consumers[i]));
    }
    seqs::lemma_filter_none(t.deliveries, p);
}

/// The number of outstanding copies is exact: one for every outstanding message.
pub proof fn law_outstanding_is_exact(s: StoreView, i: int)
    requires
        s.consistent(),
        0 <= i < s.consumers.len(),
    ensures
        s.outstanding(s.consumers[i]) == s.messages.filter(
            s.outstanding_for(s.consumers[i]),
        ).len(),
{
    crate::counting::lemma_outstanding(s, i);
}

/// What is outstanding is either ready or hidden.
pub proof fn law_ready_and_hidden_are_outstanding(s: StoreView, i: int, now: int)
    requires
        0 <= i < s.consumers.len(),
    ensures
        s.ready(s.consumers[i], now) + s.hidden_times(s.consumers[i].id, now).len()
            == s.outstanding(s.consumers[i]),
{
    let id = s.consumers[i].id;
    crate::counting::lemma_filter_disjoint(
        s.deliveries,
        crate::model::belongs_to(id),
        crate::model::visible(id, now),
        crate::model::hidden(id, now),
    );
}

/// The order of names is strict and total: of two different names exactly one
/// comes before the other, and none comes before itself. So there is only one
/// order in which a snapshot can list the consumers.
pub proof fn law_names_are_ordered(a: Seq<char>, b: Seq<char>)
    ensures
        !crate::model::name_before(a, a),
        a != b ==> crate::model::name_before(a, b) != crate::model::name_before(b, a),
{
    crate::names::lemma_name_order(a, b, a);
    if a != b {
        crate::names::lemma_names_total(a, b);
    }
}

// Draining
/// Draining preserves outstanding work: beginning it changes no inbox.
pub proof fn law_draining_keeps_inboxes(s: StoreView, id: int, now: int)
    requires
        s.wf(),
        s.has_consumer(id),
        s.consumer(id).draining_at_ms is None,
        s.consumer(id).drain_cursor is None,
    ensures
        ({
            let t = s.drained(id, now);
            &&& t.messages == s.messages
            &&& t.consumers.len() == s.consumers.len()
            &&& forall|i: int|
                #![trigger t.consumers[i]]
                0 <= i < s.consumers.len() ==> {
                    &&& t.consumers[i].id == s.consumers[i].id
                    &&& crate::laws::claiming::same_inbox(s, t, i)
                    &&& t.outstanding(t.consumers[i]) == s.outstanding(s.consumers[i])
                }
        }),
{
    let t = s.drained(id, now);
    let index = s.consumer_index(id);
    assert(s.consumers[index].id == id);
    assert forall|i: int|
        #![trigger t.consumers[i]]
        0 <= i < s.consumers.len() implies {
        &&& t.consumers[i].id == s.consumers[i].id
        &&& crate::laws::claiming::same_inbox(s, t, i)
        &&& t.outstanding(t.consumers[i]) == s.outstanding(s.consumers[i])
    } by {
        assert forall|k: int| 0 <= k < s.messages.len() implies t.is_outstanding(
            t.consumers[i],
            #[trigger] s.messages[k],
        ) == s.is_outstanding(s.consumers[i], s.messages[k]) by {
            crate::invariants::lemma_high_water(s, k);
            crate::counting::lemma_same_deliveries(s, t, s.consumers[i].id, s.messages[k].id);
        }
        let p = s.consumers[i].wanted();
        let q = t.consumers[i].wanted();
        assert forall|k: int| 0 <= k < s.messages.len() implies p(#[trigger] s.messages[k]) == q(
            s.messages[k],
        ) by {
            crate::invariants::lemma_high_water(s, k);
        }
        seqs::lemma_filter_same(s.messages, p, q);
    }
}

/// Draining ignores later publishes: none of them becomes outstanding.
pub proof fn law_draining_ignores_publishes(
    s: StoreView,
    batch: Seq<PublishView>,
    now: int,
    i: int,
    k: int,
)
    requires
        s.consistent(),
        s.publish_error(batch, Ok(now)) is None,
        0 <= i < s.consumers.len(),
        s.consumers[i].draining_at_ms is Some,
        s.messages.len() <= k < s.published(batch, now).messages.len(),
    ensures
        ({
            let t = s.published(batch, now);
            !t.is_outstanding(t.consumers[i], t.messages[k])
        }),
{
    crate::laws::publishing::law_publishing_fans_out(s, batch, now, i);
}

// Deletion
/// A deleted consumer stays deleted: its identifier is never given to another
/// one, so old handles never reach a consumer that was opened later.
pub proof fn law_deleted_stays_deleted(
    s: StoreView,
    id: int,
    name: Seq<char>,
    filter: Option<Seq<char>>,
    now: int,
)
    requires
        s.wf(),
        s.has_consumer(id),
    ensures
        !s.without_consumer(id).has_consumer(id),
        !s.without_consumer(id).opened(name, filter, now).has_consumer(id),
{
    let t = s.without_consumer(id);
    let u = t.opened(name, filter, now);
    let index = s.consumer_index(id);
    assert(s.consumers[index].id == id);
    assert(s.consumer_wf(s.consumers[index]));
    if t.has_consumer(id) {
        let k = t.consumer_index(id);
        assert(t.consumers[k].id == id);
        let a = seqs::lemma_filter_source(s.consumers, crate::model::other_than(id), k);
    }
    if u.has_consumer(id) && !t.has_name(name) {
        let k = u.consumer_index(id);
        assert(u.consumers[k].id == id);
        if k < t.consumers.len() {
            assert(t.consumers[k].id == id);
        }
    }
}

/// Deleting a consumer spares the others: their rows and inboxes stay, and no
/// message is removed.
pub proof fn law_deletion_spares_others(s: StoreView, id: int, other: int)
    requires
        s.wf(),
        s.has_consumer(other),
        other != id,
    ensures
        ({
            let t = s.without_consumer(id);
            &&& t.messages == s.messages
            &&& t.ledger == s.ledger
            &&& t.has_consumer(other)
            &&& t.consumer(other) == s.consumer(other)
            &&& t.outstanding(t.consumer(other)) == s.outstanding(s.consumer(other))
            &&& t.archives.filter(crate::model::archived_by(other)) == s.archives.filter(
                crate::model::archived_by(other),
            )
            &&& forall|k: int|
                0 <= k < s.messages.len() ==> t.is_outstanding(
                    t.consumer(other),
                    #[trigger] s.messages[k],
                ) == s.is_outstanding(s.consumer(other), s.messages[k])
        }),
{
    let t = s.without_consumer(id);
    let p = crate::model::belongs_to(other);
    let q = crate::model::negate(crate::model::belongs_to(id));
    let index = s.consumer_index(other);
    assert(s.consumers[index].id == other);
    crate::invariants::lemma_without_consumer_wf(s, id);
    crate::invariants::lemma_other_consumer(s, id, other);
    crate::counting::lemma_filter_filter(s.deliveries, q, p, p);
    crate::counting::lemma_filter_filter(
        s.archives,
        crate::model::negate(crate::model::archived_by(id)),
        crate::model::archived_by(other),
        crate::model::archived_by(other),
    );
    assert forall|k: int| 0 <= k < s.messages.len() implies t.is_outstanding(
        t.consumer(other),
        #[trigger] s.messages[k],
    ) == s.is_outstanding(s.consumer(other), s.messages[k]) by {
        crate::counting::lemma_materialized(s, other, s.messages[k]);
        crate::counting::lemma_materialized(t, other, s.messages[k]);
    }
}

/// Safe deletion discards nothing: it is granted exactly to a draining consumer
/// without outstanding or archived deliveries.
pub proof fn law_safe_deletion_discards_nothing(s: StoreView, name: Seq<char>)
    requires
        s.wf(),
    ensures
        s.delete_error(name, DeleteMode::DrainedOnly) is None <==> {
            &&& s.has_name(name)
            &&& s.named(name).draining_at_ms is Some
            &&& s.outstanding(s.named(name)) == 0
            &&& s.archives.filter(crate::model::archived_by(s.named(name).id)).len() == 0
        },
{
}

/// Archived deliveries are only discarded on explicit request.
pub proof fn law_archives_are_not_discarded_silently(
    s: StoreView,
    name: Seq<char>,
    mode: DeleteMode,
)
    requires
        s.has_name(name),
        s.archives.filter(crate::model::archived_by(s.named(name).id)).len() > 0,
        s.delete_error(name, mode) is None,
    ensures
        mode is DiscardAll,
{
}

} // verus!
