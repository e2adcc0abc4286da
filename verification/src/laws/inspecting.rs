//! Inspecting: what snapshots say, in terms of the rows.
use vstd::prelude::*;

use crate::api::{
    ConsumerSnapshot, ConsumerState, DeleteMode, DeleteOutcome, MessageView, StoreSnapshot,
};
use crate::consumer::Consumer;
use crate::error::Error;
use crate::model::StoreView;
use crate::seqs;
use crate::storage::LiteFan;
use crate::tables::{ArchiveView, ConsumerView, DeliveryRowView};

verus! {

/// What a consumer looks like, in terms of its rows. Outstanding are its
/// deliveries and the messages that are ahead of it and meant for it; ready are
/// those messages and the deliveries that are visible. The next one is ready when
/// the first hidden delivery becomes visible, and the oldest outstanding message
/// is the one that was published first.
pub proof fn law_snapshots_count_rows(
    consumer: &Consumer,
    fan: &LiteFan,
    now: i64,
    snapshot: ConsumerSnapshot,
    i: int,
)
    requires
        fan@.wf(),
        call_ensures(
            Consumer::snapshot,
            (consumer, fan, Ok(now)),
            Ok::<ConsumerSnapshot, Error>(snapshot),
        ),
        0 <= i < fan@.consumers.len(),
        fan@.consumers[i].id == consumer@.id,
    ensures
        ({
            let s = fan@;
            let row = s.consumers[i];
            let ahead = s.messages.filter(
                |message: MessageView|
                    {
                        &&& row.scan_cursor < message.id
                        &&& row.drain_cursor is None || message.id <= row.drain_cursor->Some_0
                        &&& row.filter is None || message.topic == row.filter
                    },
            ).len();
            &&& snapshot.name@ == row.name
            &&& snapshot.filter@ == row.filter
            &&& snapshot.created_at_ms == row.created_at_ms
            &&& snapshot.draining_at_ms is Some <==> row.draining_at_ms is Some
            &&& snapshot.draining_at_ms is Some ==> row.draining_at_ms == Some(
                snapshot.draining_at_ms->Some_0 as int,
            )
            &&& snapshot.state == ConsumerState::Draining <==> row.draining_at_ms is Some
            &&& snapshot.outstanding == s.deliveries.filter(
                |row: DeliveryRowView| row.consumer_id == consumer@.id,
            ).len() + ahead
            &&& snapshot.ready == s.deliveries.filter(
                |row: DeliveryRowView|
                    row.consumer_id == consumer@.id && row.visible_at_ms <= now,
            ).len() + ahead
            &&& snapshot.archived == s.archives.filter(
                |row: ArchiveView| row.consumer_id == consumer@.id,
            ).len()
            &&& match snapshot.next_ready_at_ms {
                None => forall|a: int|
                    0 <= a < s.deliveries.len() && (#[trigger] s.deliveries[a]).consumer_id
                        == consumer@.id ==> s.deliveries[a].visible_at_ms <= now,
                Some(time) => {
                    &&& time > now
                    &&& exists|a: int|
                        0 <= a < s.deliveries.len() && (#[trigger] s.deliveries[a]).consumer_id
                            == consumer@.id && s.deliveries[a].visible_at_ms == time
                    &&& forall|a: int|
                        0 <= a < s.deliveries.len() && (#[trigger] s.deliveries[a]).consumer_id
                            == consumer@.id && s.deliveries[a].visible_at_ms > now ==> time
                            <= s.deliveries[a].visible_at_ms
                },
            }
        }),
{
    let s = fan@;
    let row = s.consumers[i];
    let id = consumer@.id;
    crate::invariants::lemma_consumer(s, i);
    let ahead = |message: MessageView|
        {
            &&& row.scan_cursor < message.id
            &&& row.drain_cursor is None || message.id <= row.drain_cursor->Some_0
            &&& row.filter is None || message.topic == row.filter
        };
    let mine = |row: DeliveryRowView| row.consumer_id == id;
    let seen = |row: DeliveryRowView| row.consumer_id == id && row.visible_at_ms <= now;
    let own = |row: ArchiveView| row.consumer_id == id;
    seqs::lemma_filter_same(s.messages, ahead, row.wanted());
    seqs::lemma_filter_same(s.deliveries, mine, crate::model::belongs_to(id));
    seqs::lemma_filter_same(s.deliveries, seen, crate::model::visible(id, now as int));
    seqs::lemma_filter_same(s.archives, own, crate::model::archived_by(id));
    let hidden = crate::model::hidden(id, now as int);
    let times = s.hidden_times(id, now as int);
    assert forall|a: int|
        0 <= a < s.deliveries.len() && (#[trigger] s.deliveries[a]).consumer_id == id
            && s.deliveries[a].visible_at_ms > now implies exists|k: int|
        0 <= k < times.len() && #[trigger] times[k] == s.deliveries[a].visible_at_ms by {
        assert(s.deliveries.contains(s.deliveries[a]));
        seqs::lemma_filter_member(s.deliveries, hidden, s.deliveries[a]);
        let rows = s.deliveries.filter(hidden);
        let k = choose|k: int| 0 <= k < rows.len() && rows[k] == s.deliveries[a];
        assert(times[k] == s.deliveries[a].visible_at_ms);
    }
    if let Some(time) = snapshot.next_ready_at_ms {
        let k = choose|k: int| 0 <= k < times.len() && times[k] == time;
        let a = seqs::lemma_filter_source(s.deliveries, hidden, k);
        assert(hidden(s.deliveries[a]));
        assert(s.deliveries[a].consumer_id == id);
    }
}

/// The oldest outstanding message is the first published of those that the
/// consumer has a delivery of or ahead of it and meant for it.
pub proof fn law_oldest_outstanding_was_published_first(
    consumer: &Consumer,
    fan: &LiteFan,
    now: i64,
    snapshot: ConsumerSnapshot,
    i: int,
    k: int,
)
    requires
        fan@.wf(),
        call_ensures(
            Consumer::snapshot,
            (consumer, fan, Ok(now)),
            Ok::<ConsumerSnapshot, Error>(snapshot),
        ),
        0 <= i < fan@.consumers.len(),
        fan@.consumers[i].id == consumer@.id,
        0 <= k < fan@.messages.len(),
    ensures
        ({
            let s = fan@;
            let row = s.consumers[i];
            let message = s.messages[k];
            let outstanding = {
                ||| exists|a: int|
                    0 <= a < s.deliveries.len() && (#[trigger] s.deliveries[a]).consumer_id
                        == consumer@.id && s.deliveries[a].message_id == message.id
                ||| {
                    &&& row.scan_cursor < message.id
                    &&& row.drain_cursor is None || message.id <= row.drain_cursor->Some_0
                    &&& row.filter is None || message.topic == row.filter
                }
            };
            &&& outstanding ==> {
                &&& snapshot.oldest_outstanding_at_ms matches Some(time)
                &&& time <= message.published_at_ms
            }
            &&& snapshot.oldest_outstanding_at_ms is Some ==> exists|l: int|
                0 <= l < s.messages.len() && (#[trigger] s.messages[l]).published_at_ms
                    == snapshot.oldest_outstanding_at_ms->Some_0 && ((exists|a: int|
                    0 <= a < s.deliveries.len() && (#[trigger] s.deliveries[a]).consumer_id
                        == consumer@.id && s.deliveries[a].message_id == s.messages[l].id) || (
                row.scan_cursor < s.messages[l].id && (row.drain_cursor is None || s.messages[l].id
                    <= row.drain_cursor->Some_0) && (row.filter is None || s.messages[l].topic
                    == row.filter)))
        }),
{
    let s = fan@;
    let row = s.consumers[i];
    let message = s.messages[k];
    crate::invariants::lemma_consumer(s, i);
    let owed = s.outstanding_for(row);
    let times = s.outstanding_times(row);
    let rows = s.messages.filter(owed);
    if owed(message) {
        assert(s.messages.contains(message));
        seqs::lemma_filter_member(s.messages, owed, message);
        let c = choose|c: int| 0 <= c < rows.len() && rows[c] == message;
        assert(times[c] == message.published_at_ms);
    }
    if let Some(time) = snapshot.oldest_outstanding_at_ms {
        let c = choose|c: int| 0 <= c < times.len() && times[c] == time;
        let l = seqs::lemma_filter_source(s.messages, owed, c);
        assert(owed(s.messages[l]));
        assert(s.messages[l].published_at_ms == time);
    }
}

/// A snapshot of a consumer is refused for a clock that cannot be read and for a
/// consumer that is gone, and otherwise owed as long as its counts fit.
pub proof fn law_snapshots_are_owed(
    consumer: &Consumer,
    fan: &LiteFan,
    clock: Result<i64, Error>,
    result: Result<ConsumerSnapshot, Error>,
)
    requires
        fan@.wf(),
        call_ensures(Consumer::snapshot, (consumer, fan, clock), result),
    ensures
        ({
            let s = fan@;
            let exists_still = exists|i: int|
                0 <= i < s.consumers.len() && (#[trigger] s.consumers[i]).id == consumer@.id;
            if clock is Err {
                result is Err && result->Err_0@ == clock->Err_0@
            } else if !exists_still {
                &&& result matches Err(Error::ConsumerDeleted { name })
                &&& name@ == consumer@.name
            } else {
                s.deliveries.len() + s.messages.len() <= u64::MAX ==> result is Ok
            }
        }),
{
    let s = fan@;
    if s.has_consumer(consumer@.id) {
        let index = s.consumer_index(consumer@.id);
        assert(s.consumers[index].id == consumer@.id);
        let row = s.consumer(consumer@.id);
        Seq::lemma_filter_len(s.deliveries, crate::model::belongs_to(row.id));
        Seq::lemma_filter_len(s.messages, row.wanted());
    }
}

/// The snapshot of a log says of each consumer what its own snapshot says, and
/// counts the retained messages and the stored keys.
pub proof fn law_the_log_is_its_consumers(
    consumer: &Consumer,
    fan: &LiteFan,
    now: i64,
    snapshot: ConsumerSnapshot,
    all: StoreSnapshot,
)
    requires
        fan@.wf(),
        call_ensures(
            Consumer::snapshot,
            (consumer, fan, Ok(now)),
            Ok::<ConsumerSnapshot, Error>(snapshot),
        ),
        call_ensures(LiteFan::snapshot, (fan, Ok(now)), Ok::<StoreSnapshot, Error>(all)),
    ensures
        all.retained_messages == fan@.messages.len(),
        all.idempotency_keys == fan@.ledger.len(),
        all.consumers@.len() == fan@.consumers.len(),
        exists|k: int|
            0 <= k < all.consumers@.len() && {
                let listed = #[trigger] all.consumers@[k];
                &&& listed.name@ == snapshot.name@
                &&& listed.filter@ == snapshot.filter@
                &&& listed.state == snapshot.state
                &&& listed.created_at_ms == snapshot.created_at_ms
                &&& listed.draining_at_ms == snapshot.draining_at_ms
                &&& listed.outstanding == snapshot.outstanding
                &&& listed.ready == snapshot.ready
                &&& listed.next_ready_at_ms == snapshot.next_ready_at_ms
                &&& listed.oldest_outstanding_at_ms == snapshot.oldest_outstanding_at_ms
                &&& listed.archived == snapshot.archived
            },
{
    let s = fan@;
    let id = consumer@.id;
    let index = s.consumer_index(id);
    assert(s.consumers[index].id == id);
    let row = s.consumers[index];
    crate::invariants::lemma_named(s, index);
    let k = lemma_listed(s, all.consumers@, index);
    let listed = all.consumers@[k];
    assert(listed.describes(s, row, now as int));
    crate::laws::receiving::lemma_least_is_one(
        crate::tables::widen(listed.next_ready_at_ms),
        crate::tables::widen(snapshot.next_ready_at_ms),
        s.hidden_times(id, now as int),
    );
    crate::laws::receiving::lemma_least_is_one(
        crate::tables::widen(listed.oldest_outstanding_at_ms),
        crate::tables::widen(snapshot.oldest_outstanding_at_ms),
        s.outstanding_times(row),
    );
}

/// As many different known names as there are consumers are all of them.
proof fn lemma_listed(s: StoreView, snapshots: Seq<ConsumerSnapshot>, index: int) -> (k: int)
    requires
        s.consumers_wf(),
        snapshots.len() == s.consumers.len(),
        forall|i: int| 0 <= i < snapshots.len() ==> s.has_name((#[trigger] snapshots[i]).name@),
        forall|i: int, j: int|
            0 <= i < j < snapshots.len() ==> crate::model::name_before(
                (#[trigger] snapshots[i]).name@,
                (#[trigger] snapshots[j]).name@,
            ),
        0 <= index < s.consumers.len(),
    ensures
        0 <= k < snapshots.len(),
        snapshots[k].name@ == s.consumers[index].name,
{
    let names = s.consumers.map_values(|row: ConsumerView| row.name);
    let listed = snapshots.map_values(|snapshot: ConsumerSnapshot| snapshot.name@);
    assert(names.no_duplicates()) by {
        assert forall|i: int, j: int|
            0 <= i < names.len() && 0 <= j < names.len() && i != j implies names[i] != names[j] by {
            if i < j {
                assert(s.consumers[i].name != s.consumers[j].name);
            } else {
                assert(s.consumers[j].name != s.consumers[i].name);
            }
        }
    }
    assert(listed.no_duplicates()) by {
        assert forall|i: int, j: int|
            0 <= i < listed.len() && 0 <= j < listed.len() && i != j implies listed[i]
            != listed[j] by {
            crate::laws::consumers::law_names_are_ordered(listed[i], listed[j]);
            if i < j {
                assert(crate::model::name_before(snapshots[i].name@, snapshots[j].name@));
            } else {
                assert(crate::model::name_before(snapshots[j].name@, snapshots[i].name@));
            }
        }
    }
    names.unique_seq_to_set();
    listed.unique_seq_to_set();
    assert(listed.to_set().subset_of(names.to_set())) by {
        assert forall|name: Seq<char>| listed.to_set().contains(name) implies names.to_set().contains(
            name,
        ) by {
            let i = choose|i: int| 0 <= i < listed.len() && listed[i] == name;
            assert(s.has_name(snapshots[i].name@));
            let j = choose|j: int|
                0 <= j < s.consumers.len() && #[trigger] s.consumers[j].name == name;
            assert(names[j] == name);
        }
    }
    vstd::set_lib::lemma_subset_equality(listed.to_set(), names.to_set());
    assert(names[index] == s.consumers[index].name);
    assert(names.to_set().contains(s.consumers[index].name));
    assert(listed.to_set().contains(s.consumers[index].name));
    let k = choose|k: int| 0 <= k < listed.len() && listed[k] == s.consumers[index].name;
    k
}

/// The consumers of a snapshot stand in the order of the bytes of their names: at
/// the first difference the earlier name has the lower byte, or it has ended.
pub proof fn law_snapshots_are_in_the_order_of_bytes(
    fan: &LiteFan,
    now: i64,
    all: StoreSnapshot,
    i: int,
    j: int,
)
    requires
        fan@.wf(),
        call_ensures(LiteFan::snapshot, (fan, Ok(now)), Ok::<StoreSnapshot, Error>(all)),
        0 <= i < j < all.consumers@.len(),
    ensures
        ({
            let left = vstd::utf8::encode_utf8(all.consumers@[i].name@);
            let right = vstd::utf8::encode_utf8(all.consumers@[j].name@);
            exists|k: int|
                0 <= k <= left.len() && k < right.len() && (forall|m: int|
                    0 <= m < k ==> #[trigger] left[m] == right[m]) && (k == left.len() || (
                #[trigger] left[k]) < right[k])
        }),
{
    let left = vstd::utf8::encode_utf8(all.consumers@[i].name@);
    let right = vstd::utf8::encode_utf8(all.consumers@[j].name@);
    let k = choose|k: int|
        {
            &&& 0 <= k <= left.len()
            &&& k < right.len()
            &&& #[trigger] left.take(k) == right.take(k)
            &&& k < left.len() ==> left[k] < right[k]
        };
    assert forall|m: int| 0 <= m < k implies #[trigger] left[m] == right[m] by {
        assert(left.take(k)[m] == left[m]);
        assert(right.take(k)[m] == right[m]);
    }
    assert(k == left.len() || left[k] < right[k]);
}

/// The totals of a log are those of its consumers: a deletion lowers them by
/// exactly what it says it discards, and a log without consumers has none.
pub proof fn law_totals_fall_by_what_is_discarded(
    fan: &mut LiteFan,
    name: &str,
    mode: DeleteMode,
    outcome: DeleteOutcome,
    before_fan: &LiteFan,
    before: StoreSnapshot,
    after_fan: &LiteFan,
    after: StoreSnapshot,
    now: i64,
)
    requires
        old(fan)@.wf(),
        call_ensures(
            LiteFan::delete_consumer,
            (fan, name, mode),
            Ok::<DeleteOutcome, Error>(outcome),
        ),
        before_fan@ == old(fan)@,
        call_ensures(LiteFan::snapshot, (before_fan, Ok(now)), Ok::<StoreSnapshot, Error>(before)),
        after_fan@ == final(fan)@,
        call_ensures(LiteFan::snapshot, (after_fan, Ok(now)), Ok::<StoreSnapshot, Error>(after)),
    ensures
        before.outstanding_deliveries == after.outstanding_deliveries
            + outcome.discarded_deliveries,
        before.archived_deliveries == after.archived_deliveries + outcome.discarded_archives,
        after_fan@.consumers.len() == 0 ==> after.outstanding_deliveries == 0
            && after.archived_deliveries == 0,
{
    let s = old(fan)@;
    let t = final(fan)@;
    let i = choose|i: int|
        0 <= i < s.consumers.len() && #[trigger] s.consumers[i].name == name@;
    crate::invariants::lemma_named(s, i);
    let id = s.consumers[i].id;
    let others = crate::model::other_than(id);
    assert forall|j: int| 0 <= j < s.consumers.len() && j != i implies others(
        #[trigger] s.consumers[j],
    ) by {
        if j < i {
            assert(s.consumers[j].id < s.consumers[i].id);
        } else {
            assert(s.consumers[i].id < s.consumers[j].id);
        }
    }
    seqs::lemma_filter_remove(s.consumers, i, others);
    lemma_totals_without(s, i, t.consumers.len() as int);
}

proof fn lemma_totals_without(s: StoreView, i: int, n: int)
    requires
        s.wf(),
        0 <= i < s.consumers.len(),
        s.without_consumer(s.consumers[i].id).consumers == s.consumers.remove(i),
        0 <= n < s.consumers.len(),
    ensures
        ({
            let t = s.without_consumer(s.consumers[i].id);
            let c = s.consumers[i];
            &&& n < i ==> t.total_outstanding(n) == s.total_outstanding(n) && t.total_archived(n)
                == s.total_archived(n)
            &&& n >= i ==> t.total_outstanding(n) + s.outstanding(c) == s.total_outstanding(n + 1)
                && t.total_archived(n) + s.archives.filter(
                crate::model::archived_by(c.id),
            ).len() == s.total_archived(n + 1)
        }),
    decreases n,
{
    let t = s.without_consumer(s.consumers[i].id);
    if n == 0 {
        reveal_with_fuel(StoreView::total_outstanding, 2);
        reveal_with_fuel(StoreView::total_archived, 2);
    } else {
        lemma_totals_without(s, i, n - 1);
        let k = if n - 1 < i {
            n - 1
        } else {
            n
        };
        assert(t.consumers[n - 1] == s.consumers[k]);
        crate::invariants::lemma_consumer(s, k);
        crate::invariants::lemma_consumer(s, i);
        assert(s.consumers[k].id != s.consumers[i].id) by {
            if k < i {
                assert(s.consumers[k].id < s.consumers[i].id);
            } else {
                assert(s.consumers[i].id < s.consumers[k].id);
            }
        }
        crate::laws::consumers::law_deletion_spares_others(
            s,
            s.consumers[i].id,
            s.consumers[k].id,
        );
    }
}

/// A snapshot of a log is refused for a clock that cannot be read, and otherwise
/// owed as long as its totals fit.
pub proof fn law_log_snapshots_are_owed(
    fan: &LiteFan,
    clock: Result<i64, Error>,
    result: Result<StoreSnapshot, Error>,
)
    requires
        fan@.wf(),
        call_ensures(LiteFan::snapshot, (fan, clock), result),
    ensures
        clock is Err ==> result is Err && result->Err_0@ == clock->Err_0@,
        clock is Ok && fan@.consumers.len() * (fan@.deliveries.len() + fan@.messages.len()
            + fan@.archives.len()) <= u64::MAX ==> result is Ok,
{
    lemma_totals_bounded(fan@, fan@.consumers.len() as int);
}

proof fn lemma_totals_bounded(s: StoreView, n: int)
    requires
        0 <= n <= s.consumers.len(),
    ensures
        s.total_outstanding(n) <= n * (s.deliveries.len() + s.messages.len() + s.archives.len()),
        s.total_archived(n) <= n * (s.deliveries.len() + s.messages.len() + s.archives.len()),
    decreases n,
{
    if n > 0 {
        let size = s.deliveries.len() + s.messages.len() + s.archives.len();
        let row = s.consumers[n - 1];
        lemma_totals_bounded(s, n - 1);
        Seq::lemma_filter_len(s.deliveries, crate::model::belongs_to(row.id));
        Seq::lemma_filter_len(s.messages, row.wanted());
        Seq::lemma_filter_len(s.archives, crate::model::archived_by(row.id));
        assert((n - 1) * size + size == n * size) by (nonlinear_arith);
    }
}

} // verus!
