//! Counting rows, messages, and places in the retry order.
use vstd::prelude::*;

use crate::api::{MessageView, ReceiptView};
use crate::model::StoreView;
use crate::seqs;
use crate::tables::DeliveryRowView;

verus! {

/// Removing one element takes it out of what a predicate keeps.
pub proof fn lemma_filter_len_remove<A>(s: Seq<A>, i: int, p: spec_fn(A) -> bool)
    requires
        0 <= i < s.len(),
    ensures
        s.filter(p).len() == s.remove(i).filter(p).len() + if p(s[i]) {
            1int
        } else {
            0int
        },
{
    let left = s.take(i);
    let right = s.skip(i + 1);
    seqs::lemma_filter_prefix(s, i + 1, p);
    seqs::lemma_filter_step(s, i, p);
    assert(s.remove(i) =~= left + right);
    Seq::filter_distributes_over_add(left, right, p);
}

/// Two predicates that exclude each other keep as much as either does, together.
pub proof fn lemma_filter_disjoint<A>(
    s: Seq<A>,
    p: spec_fn(A) -> bool,
    q: spec_fn(A) -> bool,
    r: spec_fn(A) -> bool,
)
    requires
        forall|i: int|
            0 <= i < s.len() ==> {
                &&& p(#[trigger] s[i]) == (q(s[i]) || r(s[i]))
                &&& !(q(s[i]) && r(s[i]))
            },
    ensures
        s.filter(p).len() == s.filter(q).len() + s.filter(r).len(),
    decreases s.len(),
{
    reveal(Seq::filter);
    if s.len() > 0 {
        let rest = s.drop_last();
        assert forall|i: int| 0 <= i < rest.len() implies {
            &&& p(#[trigger] rest[i]) == (q(rest[i]) || r(rest[i]))
            &&& !(q(rest[i]) && r(rest[i]))
        } by {
            assert(rest[i] == s[i]);
        }
        lemma_filter_disjoint(rest, p, q, r);
        assert(s.last() == s[s.len() - 1]);
    }
}

/// The first members of a filtered sequence without duplicates, counted one by one.
pub proof fn lemma_members_are_counted<A>(
    s: Seq<A>,
    p: spec_fn(A) -> bool,
    n: int,
)
    requires
        forall|i: int, j: int| 0 <= i < j < s.len() ==> #[trigger] s[i] != #[trigger] s[j],
        0 <= n <= s.filter(p).len(),
    ensures
        s.filter(|x: A| s.filter(p).take(n).contains(x)).len() == n,
    decreases n,
{
    let rows = s.filter(p);
    let now = |x: A| rows.take(n).contains(x);
    if n == 0 {
        assert forall|i: int| 0 <= i < s.len() implies !now(#[trigger] s[i]) by {}
        seqs::lemma_filter_none(s, now);
    } else {
        lemma_members_are_counted(s, p, n - 1);
        let before = |x: A| rows.take(n - 1).contains(x);
        let last = rows[n - 1];
        let one = |x: A| x == last;
        assert forall|i: int| 0 <= i < s.len() implies {
            &&& now(#[trigger] s[i]) == (before(s[i]) || one(s[i]))
            &&& !(before(s[i]) && one(s[i]))
        } by {
            if now(s[i]) {
                let some = rows.take(n);
                let k = choose|k: int| 0 <= k < some.len() && some[k] == s[i];
                if k < n - 1 {
                    assert(rows.take(n - 1)[k] == s[i]);
                }
            }
            if before(s[i]) {
                let few = rows.take(n - 1);
                let k = choose|k: int| 0 <= k < few.len() && few[k] == s[i];
                assert(rows.take(n)[k] == s[i]);
                let (a, b) = seqs::lemma_filter_sources(s, p, k, n - 1);
                assert(s[a] != s[b]);
            }
            if one(s[i]) {
                assert(rows.take(n)[n - 1] == s[i]);
            }
        }
        crate::counting::lemma_filter_disjoint(s, now, before, one);
        assert forall|i: int, j: int| 0 <= i < j < s.len() implies !(one(#[trigger] s[i]) && one(
            #[trigger] s[j],
        )) by {
            assert(s[i] != s[j]);
        }
        seqs::lemma_filter_unique(s, one);
        let a = seqs::lemma_filter_source(s, p, n - 1);
        assert(s.contains(last)) by {
            assert(s[a] == last);
        }
        seqs::lemma_filter_member(s, one, last);
        assert(s.filter(one).len() > 0) by {
            let m = choose|m: int| 0 <= m < s.filter(one).len() && s.filter(one)[m] == last;
        }
    }
}

/// Whether a message is one of those that some rows stand for.
pub open spec fn in_rows(rows: Seq<DeliveryRowView>) -> spec_fn(MessageView) -> bool {
    |message: MessageView|
        exists|i: int| 0 <= i < rows.len() && #[trigger] rows[i].message_id == message.id
}

/// Rows for distinct messages stand for as many messages.
pub proof fn lemma_rows_and_messages(s: StoreView, rows: Seq<DeliveryRowView>)
    requires
        s.messages_wf(),
        forall|i: int| 0 <= i < rows.len() ==> s.has_message(#[trigger] rows[i].message_id),
        forall|i: int, j: int|
            0 <= i < j < rows.len() ==> #[trigger] rows[i].message_id
                != #[trigger] rows[j].message_id,
    ensures
        s.messages.filter(in_rows(rows)).len() == rows.len(),
    decreases rows.len(),
{
    if rows.len() == 0 {
        assert forall|k: int| 0 <= k < s.messages.len() implies !in_rows(rows)(
            #[trigger] s.messages[k],
        ) by {}
        seqs::lemma_filter_none(s.messages, in_rows(rows));
    } else {
        let rest = rows.drop_last();
        let id = rows.last().message_id;
        let one = |message: MessageView| message.id == id;
        assert forall|i: int| 0 <= i < rest.len() implies s.has_message(
            #[trigger] rest[i].message_id,
        ) by {
            assert(rest[i] == rows[i]);
        }
        assert forall|i: int, j: int| 0 <= i < j < rest.len() implies #[trigger] rest[i].message_id
            != #[trigger] rest[j].message_id by {
            assert(rest[i] == rows[i]);
            assert(rest[j] == rows[j]);
        }
        lemma_rows_and_messages(s, rest);
        let last = rows.len() - 1;
        assert(rows[last].message_id == id);
        assert forall|k: int| 0 <= k < s.messages.len() implies {
            &&& in_rows(rows)(#[trigger] s.messages[k]) == (in_rows(rest)(s.messages[k]) || one(
                s.messages[k],
            ))
            &&& !(in_rows(rest)(s.messages[k]) && one(s.messages[k]))
        } by {
            let message = s.messages[k];
            if in_rows(rest)(message) {
                let i = choose|i: int|
                    0 <= i < rest.len() && #[trigger] rest[i].message_id == message.id;
                assert(rest[i] == rows[i]);
                assert(rows[i].message_id == message.id);
                assert(rows[i].message_id != rows[last].message_id);
            }
            if in_rows(rows)(message) && !one(message) {
                let i = choose|i: int|
                    0 <= i < rows.len() && #[trigger] rows[i].message_id == message.id;
                assert(rest[i].message_id == message.id);
            }
        }
        lemma_filter_disjoint(s.messages, in_rows(rows), in_rows(rest), one);
        let k = choose|k: int| 0 <= k < s.messages.len() && #[trigger] s.messages[k].id == id;
        assert(s.has_message(rows[last].message_id));
        assert(s.messages[k].id == id);
        assert forall|a: int, b: int| 0 <= a < b < s.messages.len() implies !(one(
            #[trigger] s.messages[a],
        ) && one(#[trigger] s.messages[b])) by {
            assert(s.messages[a].id < s.messages[b].id);
        }
        seqs::lemma_filter_unique(s.messages, one);
        assert(s.messages.contains(s.messages[k]));
        seqs::lemma_filter_member(s.messages, one, s.messages[k]);
        assert(s.messages.filter(one).len() > 0) by {
            let m = choose|m: int|
                0 <= m < s.messages.filter(one).len() && s.messages.filter(one)[m]
                    == s.messages[k];
        }
    }
}

/// The rows of one consumer are for distinct retained messages.
pub proof fn lemma_consumer_rows(s: StoreView, id: int)
    requires
        s.deliveries_wf(),
        s.deliveries_agree(),
    ensures
        ({
            let rows = s.deliveries.filter(crate::model::belongs_to(id));
            &&& forall|i: int|
                0 <= i < rows.len() ==> s.has_message(#[trigger] rows[i].message_id)
            &&& forall|i: int, j: int|
                0 <= i < j < rows.len() ==> #[trigger] rows[i].message_id
                    != #[trigger] rows[j].message_id
        }),
{
    let p = crate::model::belongs_to(id);
    let rows = s.deliveries.filter(p);
    assert forall|i: int| 0 <= i < rows.len() implies s.has_message(
        #[trigger] rows[i].message_id,
    ) by {
        let a = seqs::lemma_filter_source(s.deliveries, p, i);
        assert(s.is_copy(s.deliveries[a].consumer_id, s.deliveries[a].message_id));
    }
    assert forall|i: int, j: int| 0 <= i < j < rows.len() implies #[trigger] rows[i].message_id
        != #[trigger] rows[j].message_id by {
        let (a, b) = seqs::lemma_filter_sources(s.deliveries, p, i, j);
        let a2 = seqs::lemma_filter_source(s.deliveries, p, i);
        let b2 = seqs::lemma_filter_source(s.deliveries, p, j);
        assert(s.deliveries[a].consumer_id != s.deliveries[b].consumer_id
            || s.deliveries[a].message_id != s.deliveries[b].message_id);
    }
}

/// A message is materialized exactly where a row of the consumer stands for it.
pub proof fn lemma_materialized(s: StoreView, id: int, message: MessageView)
    ensures
        s.is_materialized(id, message.id) <==> in_rows(
            s.deliveries.filter(crate::model::belongs_to(id)),
        )(message),
{
    let p = crate::model::belongs_to(id);
    let rows = s.deliveries.filter(p);
    if s.is_materialized(id, message.id) {
        let i = choose|i: int|
            0 <= i < s.deliveries.len() && #[trigger] s.deliveries[i].consumer_id == id
                && s.deliveries[i].message_id == message.id;
        assert(s.deliveries.contains(s.deliveries[i]));
        seqs::lemma_filter_member(s.deliveries, p, s.deliveries[i]);
        let k = choose|k: int| 0 <= k < rows.len() && rows[k] == s.deliveries[i];
        assert(rows[k].message_id == message.id);
    }
    if in_rows(rows)(message) {
        let k = choose|k: int|
            0 <= k < rows.len() && #[trigger] rows[k].message_id == message.id;
        let a = seqs::lemma_filter_source(s.deliveries, p, k);
        assert(s.deliveries[a].consumer_id == id);
    }
}

/// What is materialized depends on the deliveries alone.
pub proof fn lemma_same_deliveries(s: StoreView, t: StoreView, id: int, message_id: int)
    requires
        t.deliveries == s.deliveries,
    ensures
        t.is_materialized(id, message_id) == s.is_materialized(id, message_id),
{
    if s.is_materialized(id, message_id) {
        let a = choose|a: int|
            0 <= a < s.deliveries.len() && #[trigger] s.deliveries[a].consumer_id == id
                && s.deliveries[a].message_id == message_id;
        assert(t.deliveries[a].consumer_id == id);
    }
    if t.is_materialized(id, message_id) {
        let a = choose|a: int|
            0 <= a < t.deliveries.len() && #[trigger] t.deliveries[a].consumer_id == id
                && t.deliveries[a].message_id == message_id;
        assert(s.deliveries[a].consumer_id == id);
    }
}

/// The number of outstanding copies is the number of outstanding messages.
pub proof fn lemma_outstanding(s: StoreView, i: int)
    requires
        s.consistent(),
        0 <= i < s.consumers.len(),
    ensures
        s.outstanding(s.consumers[i]) == s.messages.filter(
            s.outstanding_for(s.consumers[i]),
        ).len(),
{
    let consumer = s.consumers[i];
    let rows = s.deliveries.filter(crate::model::belongs_to(consumer.id));
    lemma_consumer_rows(s, consumer.id);
    lemma_rows_and_messages(s, rows);
    crate::invariants::lemma_consumer(s, i);
    assert forall|k: int| 0 <= k < s.messages.len() implies {
        &&& s.outstanding_for(consumer)(#[trigger] s.messages[k]) == (in_rows(rows)(s.messages[k])
            || consumer.wanted()(s.messages[k]))
        &&& !(in_rows(rows)(s.messages[k]) && consumer.wanted()(s.messages[k]))
    } by {
        let message = s.messages[k];
        lemma_materialized(s, consumer.id, message);
        if s.is_materialized(consumer.id, message.id) {
            let a = choose|a: int|
                0 <= a < s.deliveries.len() && #[trigger] s.deliveries[a].consumer_id
                    == consumer.id && s.deliveries[a].message_id == message.id;
            assert(s.is_copy(s.deliveries[a].consumer_id, s.deliveries[a].message_id));
        }
    }
    lemma_filter_disjoint(
        s.messages,
        s.outstanding_for(consumer),
        in_rows(rows),
        consumer.wanted(),
    );
}

// The retry order
/// The number of rows that are retried before `row`.
pub open spec fn place(rows: Seq<DeliveryRowView>, row: DeliveryRowView) -> nat {
    rows.filter(crate::model::ahead_of(row)).len()
}

/// The rows with fewer than `k` before them.
pub open spec fn among_first(rows: Seq<DeliveryRowView>, k: nat) -> spec_fn(
    DeliveryRowView,
) -> bool {
    |row: DeliveryRowView| place(rows, row) < k
}

/// Whether no two rows are for the same message.
pub open spec fn distinct(rows: Seq<DeliveryRowView>) -> bool {
    forall|i: int, j: int|
        0 <= i < j < rows.len() ==> #[trigger] rows[i].message_id != #[trigger] rows[j].message_id
}

/// The row that is retried last.
proof fn lemma_last_row(rows: Seq<DeliveryRowView>) -> (m: int)
    requires
        rows.len() > 0,
        distinct(rows),
    ensures
        0 <= m < rows.len(),
        forall|i: int|
            0 <= i < rows.len() && i != m ==> crate::model::ahead_of(rows[m])(#[trigger] rows[i]),
    decreases rows.len(),
{
    if rows.len() == 1 {
        0
    } else {
        let rest = rows.drop_last();
        let last = rows.len() - 1;
        assert forall|i: int, j: int| 0 <= i < j < rest.len() implies #[trigger] rest[i].message_id
            != #[trigger] rest[j].message_id by {
            assert(rest[i] == rows[i]);
            assert(rest[j] == rows[j]);
        }
        let m = lemma_last_row(rest);
        assert(rows[m].message_id != rows[last].message_id);
        if crate::model::ahead_of(rows[last])(rows[m]) {
            assert forall|i: int|
                0 <= i < rows.len() && i != last implies crate::model::ahead_of(rows[last])(
                #[trigger] rows[i],
            ) by {
                assert(rest[i] == rows[i]);
            }
            last
        } else {
            assert forall|i: int| 0 <= i < rows.len() && i != m implies crate::model::ahead_of(
                rows[m],
            )(#[trigger] rows[i]) by {
                if i < last {
                    assert(rest[i] == rows[i]);
                }
            }
            m
        }
    }
}

/// Where a row stands before one was removed.
spec fn position_before(i: int, removed: int) -> int {
    if i < removed {
        i
    } else {
        i + 1
    }
}

/// The rows stay distinct without one of them.
proof fn lemma_distinct_remove(rows: Seq<DeliveryRowView>, m: int)
    requires
        0 <= m < rows.len(),
        distinct(rows),
    ensures
        distinct(rows.remove(m)),
{
    let rest = rows.remove(m);
    assert forall|i: int, j: int| 0 <= i < j < rest.len() implies #[trigger] rest[i].message_id
        != #[trigger] rest[j].message_id by {
        let a = position_before(i, m);
        let b = position_before(j, m);
        assert(rest[i] == rows[a]);
        assert(rest[j] == rows[b]);
        assert(rows[a].message_id != rows[b].message_id);
    }
}

/// The last row has all the others before it.
proof fn lemma_last_place(rows: Seq<DeliveryRowView>, m: int)
    requires
        0 <= m < rows.len(),
        forall|i: int|
            0 <= i < rows.len() && i != m ==> crate::model::ahead_of(rows[m])(#[trigger] rows[i]),
    ensures
        place(rows, rows[m]) == rows.len() - 1,
{
    let q = crate::model::ahead_of(rows[m]);
    let rest = rows.remove(m);
    lemma_filter_len_remove(rows, m, q);
    assert forall|i: int| 0 <= i < rest.len() implies q(#[trigger] rest[i]) by {
        assert(rest[i] == rows[position_before(i, m)]);
    }
    seqs::lemma_filter_all(rest, q);
}

/// The others have the same places without the last row.
proof fn lemma_other_places(rows: Seq<DeliveryRowView>, m: int, k: nat)
    requires
        0 <= m < rows.len(),
        forall|i: int|
            0 <= i < rows.len() && i != m ==> crate::model::ahead_of(rows[m])(#[trigger] rows[i]),
    ensures
        rows.remove(m).filter(among_first(rows, k)) == rows.remove(m).filter(
            among_first(rows.remove(m), k),
        ),
{
    let rest = rows.remove(m);
    assert forall|i: int| 0 <= i < rest.len() implies among_first(rows, k)(#[trigger] rest[i])
        == among_first(rest, k)(rest[i]) by {
        let a = position_before(i, m);
        assert(rest[i] == rows[a]);
        assert(crate::model::ahead_of(rows[m])(rows[a]));
        lemma_filter_len_remove(rows, m, crate::model::ahead_of(rows[a]));
    }
    seqs::lemma_filter_same(rest, among_first(rows, k), among_first(rest, k));
}

/// Of `n` rows, as many as possible but no more than `k` have fewer than `k` rows
/// before them.
pub proof fn lemma_places(rows: Seq<DeliveryRowView>, k: nat)
    requires
        distinct(rows),
    ensures
        rows.filter(among_first(rows, k)).len() == if k < rows.len() {
            k
        } else {
            rows.len()
        },
    decreases rows.len(),
{
    if rows.len() == 0 {
        assert forall|i: int| 0 <= i < rows.len() implies !among_first(rows, k)(
            #[trigger] rows[i],
        ) by {}
        seqs::lemma_filter_none(rows, among_first(rows, k));
    } else {
        let m = lemma_last_row(rows);
        lemma_distinct_remove(rows, m);
        lemma_places(rows.remove(m), k);
        lemma_filter_len_remove(rows, m, among_first(rows, k));
        lemma_last_place(rows, m);
        lemma_other_places(rows, m, k);
    }
}

/// A row that is retried before another has fewer rows before it.
pub proof fn lemma_place_order(
    rows: Seq<DeliveryRowView>,
    first: DeliveryRowView,
    second: DeliveryRowView,
)
    requires
        rows.contains(first),
        crate::model::ahead_of(second)(first),
    ensures
        place(rows, first) < place(rows, second),
{
    let p = crate::model::ahead_of(first);
    let q = crate::model::ahead_of(second);
    let i = choose|i: int| 0 <= i < rows.len() && rows[i] == first;
    lemma_filter_len_remove(rows, i, p);
    lemma_filter_len_remove(rows, i, q);
    seqs::lemma_filter_weaker(rows.remove(i), p, q);
}

/// Filtering twice is filtering by both predicates.
pub proof fn lemma_filter_filter<A>(
    s: Seq<A>,
    p: spec_fn(A) -> bool,
    q: spec_fn(A) -> bool,
    r: spec_fn(A) -> bool,
)
    requires
        forall|i: int| 0 <= i < s.len() ==> r(#[trigger] s[i]) == (p(s[i]) && q(s[i])),
    ensures
        s.filter(p).filter(q) == s.filter(r),
    decreases s.len(),
{
    reveal(Seq::filter);
    if s.len() > 0 {
        let rest = s.drop_last();
        assert forall|i: int| 0 <= i < rest.len() implies r(#[trigger] rest[i]) == (p(rest[i])
            && q(rest[i])) by {
            assert(rest[i] == s[i]);
        }
        lemma_filter_filter(rest, p, q, r);
        assert(s.last() == s[s.len() - 1]);
        if p(s.last()) {
            seqs::lemma_filter_push(rest.filter(p), s.last(), q);
            assert(s.filter(p) =~= rest.filter(p).push(s.last()));
        }
    }
}

/// A claim leases as many visible deliveries as it may.
pub proof fn lemma_retries(s: StoreView, id: int, now: int, max: nat)
    requires
        s.deliveries_wf(),
    ensures
        s.retries(id, now, max).len() == if max < s.deliveries.filter(
            crate::model::visible(id, now),
        ).len() {
            max
        } else {
            s.deliveries.filter(crate::model::visible(id, now)).len()
        },
{
    let p = crate::model::visible(id, now);
    let rows = s.deliveries.filter(p);
    assert forall|i: int, j: int| 0 <= i < j < rows.len() implies #[trigger] rows[i].message_id
        != #[trigger] rows[j].message_id by {
        let (a, b) = seqs::lemma_filter_sources(s.deliveries, p, i, j);
        let a2 = seqs::lemma_filter_source(s.deliveries, p, i);
        let b2 = seqs::lemma_filter_source(s.deliveries, p, j);
        assert(s.deliveries[a].consumer_id != s.deliveries[b].consumer_id
            || s.deliveries[a].message_id != s.deliveries[b].message_id);
    }
    lemma_places(rows, max);
    lemma_filter_filter(s.deliveries, p, among_first(rows, max), s.retried(id, now, max));
}

/// No more rows are touched than receipts are presented.
pub proof fn lemma_hits(s: StoreView, id: int, receipts: Seq<ReceiptView>)
    requires
        s.deliveries_wf(),
    ensures
        s.hits(id, receipts).len() <= receipts.len(),
    decreases receipts.len(),
{
    let p = crate::model::hit(id, receipts);
    if receipts.len() == 0 {
        assert forall|i: int| 0 <= i < s.deliveries.len() implies !p(
            #[trigger] s.deliveries[i],
        ) by {}
        seqs::lemma_filter_none(s.deliveries, p);
    } else {
        let rest = receipts.drop_last();
        let q = crate::model::hit(id, rest);
        let r = crate::model::hit(id, seq![receipts.last()]);
        lemma_hits(s, id, rest);
        assert forall|i: int| 0 <= i < s.deliveries.len() && p(
            #[trigger] s.deliveries[i],
        ) implies q(s.deliveries[i]) || r(s.deliveries[i]) by {
            let receipt = s.deliveries[i].receipt();
            let k = choose|k: int| 0 <= k < receipts.len() && receipts[k] == receipt;
            if k < rest.len() {
                assert(rest[k] == receipt);
            } else {
                assert(seq![receipts.last()][0] == receipt);
            }
        }
        seqs::lemma_filter_either(s.deliveries, p, q, r);
        assert forall|i: int, j: int| 0 <= i < j < s.deliveries.len() implies !(r(
            #[trigger] s.deliveries[i],
        ) && r(#[trigger] s.deliveries[j])) by {
            assert(s.deliveries[i].consumer_id != s.deliveries[j].consumer_id
                || s.deliveries[i].message_id != s.deliveries[j].message_id);
        }
        seqs::lemma_filter_unique(s.deliveries, r);
    }
}

} // verus!
