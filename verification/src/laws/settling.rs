//! Settling: what the calls that present receipts do, in terms of their arguments
//! and of the rows before and after.
use std::time::Duration;

use vstd::prelude::*;

use crate::api::{BatchResult, Receipt, ReceiptView, Retry};
use crate::consumer::{Claim, Consumer};
use crate::error::Error;
use crate::seqs;
use crate::signals::WakeupView;
use crate::storage::LiteFan;
use crate::tables::DeliveryRowView;

verus! {

/// A receipt of a batch touches a row exactly where its three numbers are those
/// of the row.
pub proof fn lemma_hit_by_numbers(id: int, receipts: Seq<Receipt>, row: DeliveryRowView)
    ensures
        crate::model::hit(id, seqs::views(receipts))(row) <==> row.consumer_id == id && exists|
            k: int,
        |
            0 <= k < receipts.len() && (#[trigger] receipts[k])@.consumer_id == row.consumer_id
                && receipts[k]@.message_id == row.message_id && receipts[k]@.generation
                == row.generation,
{
    let views = seqs::views(receipts);
    if crate::model::hit(id, views)(row) {
        let k = choose|k: int| 0 <= k < views.len() && views[k] == row.receipt();
        assert(receipts[k]@ == views[k]);
    }
    if exists|k: int|
        0 <= k < receipts.len() && (#[trigger] receipts[k])@.consumer_id == row.consumer_id
            && receipts[k]@.message_id == row.message_id && receipts[k]@.generation
            == row.generation {
        let k = choose|k: int|
            0 <= k < receipts.len() && (#[trigger] receipts[k])@.consumer_id == row.consumer_id
                && receipts[k]@.message_id == row.message_id && receipts[k]@.generation
                == row.generation;
        assert(views[k] == row.receipt());
    }
}

/// The number of touched rows, by the numbers of the receipts.
proof fn lemma_hits_by_numbers(
    rows: Seq<DeliveryRowView>,
    id: int,
    receipts: Seq<Receipt>,
    p: spec_fn(DeliveryRowView) -> bool,
)
    requires
        forall|row: DeliveryRowView|
            #[trigger] p(row) <==> row.consumer_id == id && exists|k: int|
                0 <= k < receipts.len() && (#[trigger] receipts[k])@.consumer_id
                    == row.consumer_id && receipts[k]@.message_id == row.message_id
                    && receipts[k]@.generation == row.generation,
    ensures
        rows.filter(crate::model::hit(id, seqs::views(receipts))) == rows.filter(p),
{
    let q = crate::model::hit(id, seqs::views(receipts));
    assert forall|i: int| 0 <= i < rows.len() implies p(#[trigger] rows[i]) == q(rows[i]) by {
        lemma_hit_by_numbers(id, receipts, rows[i]);
    }
    seqs::lemma_filter_same(rows, p, q);
}

/// Acknowledging a batch, of any length and in any order, removes exactly the
/// presenting consumer's deliveries whose current numbers occur anywhere in the
/// batch. Every removed delivery counts as applied and every other receipt as
/// stale; nothing but deliveries changes. A batch beyond the limit is refused and
/// changes nothing.
pub proof fn law_ack_removes_what_is_named(
    consumer: &Consumer,
    fan: &mut LiteFan,
    receipts: &[Receipt],
    result: Result<BatchResult, Error>,
)
    requires
        old(fan)@.wf(),
        call_ensures(Consumer::ack_batch, (consumer, fan, receipts), result),
    ensures
        receipts@.len() > old(fan)@.max_batch_size ==> {
            &&& result matches Err(Error::BatchTooLarge { requested, maximum })
            &&& requested == receipts@.len()
            &&& maximum == old(fan)@.max_batch_size
            &&& final(fan)@ == old(fan)@
        },
        receipts@.len() <= old(fan)@.max_batch_size ==> {
            let s = old(fan)@;
            let t = final(fan)@;
            &&& result matches Ok(counts)
            &&& counts.applied + t.deliveries.len() == s.deliveries.len()
            &&& counts.applied + counts.stale == receipts@.len()
            &&& forall|row: DeliveryRowView| #[trigger]
                t.deliveries.contains(row) <==> s.deliveries.contains(row) && !(row.consumer_id
                    == consumer@.id && exists|k: int|
                    0 <= k < receipts@.len() && (#[trigger] receipts@[k])@.consumer_id
                        == row.consumer_id && receipts@[k]@.message_id == row.message_id
                        && receipts@[k]@.generation == row.generation)
            &&& t == (crate::model::StoreView { deliveries: t.deliveries, ..s })
        },
{
    let s = old(fan)@;
    let t = final(fan)@;
    let id = consumer@.id;
    let views = seqs::views(receipts@);
    let p = crate::model::hit(id, views);
    let q = crate::model::negate(p);
    assert(views.len() == receipts@.len());
    if receipts@.len() <= s.max_batch_size {
        crate::counting::lemma_hits(s, id, views);
        crate::counting::lemma_filter_disjoint(s.deliveries, |row: DeliveryRowView| true, p, q);
        seqs::lemma_filter_all(s.deliveries, |row: DeliveryRowView| true);
        assert forall|row: DeliveryRowView| #[trigger]
            t.deliveries.contains(row) <==> s.deliveries.contains(row) && !(row.consumer_id == id
                && exists|k: int|
                0 <= k < receipts@.len() && (#[trigger] receipts@[k])@.consumer_id
                    == row.consumer_id && receipts@[k]@.message_id == row.message_id
                    && receipts@[k]@.generation == row.generation) by {
            lemma_hit_by_numbers(id, receipts@, row);
            seqs::lemma_filter_member(s.deliveries, q, row);
        }
    }
}

/// Releasing a batch makes every named delivery visible at the reading of the
/// clock plus the whole milliseconds of the delay, whatever its lease was, and
/// gives it the next generation; its count stays. No other row changes. It is
/// refused, and changes nothing, exactly for a batch beyond the limit, a clock
/// that cannot be read, a time that cannot be stored, and a generation that has
/// no next one.
pub proof fn law_nack_releases_what_is_named(
    consumer: &Consumer,
    fan: &mut LiteFan,
    receipts: &[Receipt],
    retry: Retry,
    clock: Result<i64, Error>,
    result: Result<BatchResult, Error>,
)
    requires
        old(fan)@.wf(),
        receipts@.len() > 0,
        call_ensures(Consumer::nack_batch, (consumer, fan, receipts, retry, clock), result),
    ensures
        ({
            let s = old(fan)@;
            let t = final(fan)@;
            let delay_ms = match retry {
                Retry::Immediately => 0,
                Retry::After(delay) => crate::time::duration_nanos(delay) / 1_000_000,
            };
            let exhausted = exists|a: int|
                0 <= a < s.deliveries.len() && (#[trigger] s.deliveries[a]).generation == i64::MAX
                    && s.deliveries[a].consumer_id == consumer@.id && exists|k: int|
                        0 <= k < receipts@.len() && (#[trigger] receipts@[k])@.consumer_id
                            == s.deliveries[a].consumer_id && receipts@[k]@.message_id == s.deliveries[a].message_id
                            && receipts@[k]@.generation == s.deliveries[a].generation;
            &&& result is Err ==> t == s
            &&& if receipts@.len() > s.max_batch_size {
                result matches Err(Error::BatchTooLarge { requested, maximum }) && requested
                    == receipts@.len() && maximum == s.max_batch_size
            } else if clock is Err {
                result is Err && result->Err_0@ == clock->Err_0@
            } else if delay_ms > i64::MAX || clock->Ok_0 + delay_ms > i64::MAX {
                result matches Err(Error::DurationOutOfRange)
            } else if exhausted {
                result matches Err(Error::CounterOutOfRange)
            } else {
                &&& result matches Ok(counts)
                &&& counts.applied + counts.stale == receipts@.len()
                &&& counts.applied == s.deliveries.filter(
                    |row: DeliveryRowView|
                        row.consumer_id == consumer@.id && exists|k: int|
                            0 <= k < receipts@.len() && (#[trigger] receipts@[k])@.consumer_id
                                == row.consumer_id && receipts@[k]@.message_id == row.message_id
                                && receipts@[k]@.generation == row.generation,
                ).len()
                &&& t.deliveries.len() == s.deliveries.len()
                &&& forall|a: int|
                    #![trigger t.deliveries[a]]
                    #![trigger s.deliveries[a]]
                    0 <= a < s.deliveries.len() ==> {
                        let row = s.deliveries[a];
                        &&& t.deliveries[a].consumer_id == row.consumer_id
                        &&& t.deliveries[a].message_id == row.message_id
                        &&& t.deliveries[a].delivery_count == row.delivery_count
                        &&& if row.consumer_id == consumer@.id && exists|k: int|
                            0 <= k < receipts@.len() && (#[trigger] receipts@[k])@.consumer_id
                                == row.consumer_id && receipts@[k]@.message_id == row.message_id
                                && receipts@[k]@.generation == row.generation {
                            &&& t.deliveries[a].visible_at_ms == clock->Ok_0 + delay_ms
                            &&& t.deliveries[a].generation == row.generation + 1
                        } else {
                            t.deliveries[a] == row
                        }
                    }
                &&& t == (crate::model::StoreView {
                    deliveries: t.deliveries,
                    wakeups: if counts.applied > 0 {
                        s.wakeups.push(WakeupView::Consumer(consumer@.id))
                    } else {
                        s.wakeups
                    },
                    ..s
                })
            }
        }),
{
    let s = old(fan)@;
    let t = final(fan)@;
    let id = consumer@.id;
    let views = seqs::views(receipts@);
    let p = crate::model::hit(id, views);
    let named = |row: DeliveryRowView|
        row.consumer_id == consumer@.id && exists|k: int|
            0 <= k < receipts@.len() && (#[trigger] receipts@[k])@.consumer_id
                == row.consumer_id && receipts@[k]@.message_id == row.message_id
                && receipts@[k]@.generation == row.generation;
    assert(views.len() == receipts@.len());
    crate::counting::lemma_hits(s, id, views);
    lemma_hits_by_numbers(s.deliveries, id, receipts@, named);
    assert forall|a: int| 0 <= a < s.deliveries.len() implies p(#[trigger] s.deliveries[a])
        == named(s.deliveries[a]) by {
        lemma_hit_by_numbers(id, receipts@, s.deliveries[a]);
    }
    let hits = s.hits(id, views);
    if exists|i: int| 0 <= i < hits.len() && (#[trigger] hits[i]).generation == i64::MAX {
        let i = choose|i: int|
            0 <= i < hits.len() && (#[trigger] hits[i]).generation == i64::MAX;
        let a = seqs::lemma_filter_source(s.deliveries, p, i);
        assert(named(s.deliveries[a]));
        assert(s.deliveries[a].generation == i64::MAX);
    }
    if exists|a: int|
        0 <= a < s.deliveries.len() && (#[trigger] s.deliveries[a]).generation == i64::MAX && named(
            s.deliveries[a],
        ) {
        let a = choose|a: int|
            0 <= a < s.deliveries.len() && (#[trigger] s.deliveries[a]).generation == i64::MAX
                && named(s.deliveries[a]);
        assert(s.deliveries.contains(s.deliveries[a]));
        seqs::lemma_filter_member(s.deliveries, p, s.deliveries[a]);
        let i = choose|i: int| 0 <= i < hits.len() && hits[i] == s.deliveries[a];
        assert(hits[i].generation == i64::MAX);
    }
}

/// Extending a batch hides every named delivery until the reading of the clock
/// plus the whole milliseconds of the timeout, or longer where it was hidden for
/// longer; its numbers stay, so its receipt stays good. No other row changes. It
/// is refused, and changes nothing, exactly for a batch beyond the limit, a
/// timeout below a millisecond, a clock that cannot be read, and a time that
/// cannot be stored.
pub proof fn law_extension_hides_what_is_named(
    consumer: &Consumer,
    fan: &mut LiteFan,
    receipts: &[Receipt],
    timeout: Duration,
    clock: Result<i64, Error>,
    result: Result<BatchResult, Error>,
)
    requires
        old(fan)@.wf(),
        receipts@.len() > 0,
        call_ensures(
            Consumer::extend_visibility_batch,
            (consumer, fan, receipts, timeout, clock),
            result,
        ),
    ensures
        ({
            let s = old(fan)@;
            let t = final(fan)@;
            let timeout_ms = crate::time::duration_nanos(timeout) / 1_000_000;
            &&& result is Err ==> t == s
            &&& if receipts@.len() > s.max_batch_size {
                result matches Err(Error::BatchTooLarge { requested, maximum }) && requested
                    == receipts@.len() && maximum == s.max_batch_size
            } else if timeout_ms > i64::MAX {
                result matches Err(Error::DurationOutOfRange)
            } else if timeout_ms == 0 {
                result matches Err(Error::InvalidVisibilityTimeout)
            } else if clock is Err {
                result is Err && result->Err_0@ == clock->Err_0@
            } else if clock->Ok_0 + timeout_ms > i64::MAX {
                result matches Err(Error::DurationOutOfRange)
            } else {
                &&& result matches Ok(counts)
                &&& counts.applied + counts.stale == receipts@.len()
                &&& counts.applied == s.deliveries.filter(
                    |row: DeliveryRowView|
                        row.consumer_id == consumer@.id && exists|k: int|
                            0 <= k < receipts@.len() && (#[trigger] receipts@[k])@.consumer_id
                                == row.consumer_id && receipts@[k]@.message_id == row.message_id
                                && receipts@[k]@.generation == row.generation,
                ).len()
                &&& t.deliveries.len() == s.deliveries.len()
                &&& forall|a: int|
                    #![trigger t.deliveries[a]]
                    #![trigger s.deliveries[a]]
                    0 <= a < s.deliveries.len() ==> {
                        let row = s.deliveries[a];
                        &&& t.deliveries[a].consumer_id == row.consumer_id
                        &&& t.deliveries[a].message_id == row.message_id
                        &&& t.deliveries[a].generation == row.generation
                        &&& t.deliveries[a].delivery_count == row.delivery_count
                        &&& if row.consumer_id == consumer@.id && exists|k: int|
                            0 <= k < receipts@.len() && (#[trigger] receipts@[k])@.consumer_id
                                == row.consumer_id && receipts@[k]@.message_id == row.message_id
                                && receipts@[k]@.generation == row.generation {
                            &&& t.deliveries[a].visible_at_ms >= row.visible_at_ms
                            &&& t.deliveries[a].visible_at_ms >= clock->Ok_0 + timeout_ms
                            &&& t.deliveries[a].visible_at_ms == row.visible_at_ms
                                || t.deliveries[a].visible_at_ms == clock->Ok_0 + timeout_ms
                        } else {
                            t.deliveries[a].visible_at_ms == row.visible_at_ms
                        }
                    }
                &&& t == (crate::model::StoreView { deliveries: t.deliveries, ..s })
            }
        }),
{
    let s = old(fan)@;
    let id = consumer@.id;
    let views = seqs::views(receipts@);
    let p = crate::model::hit(id, views);
    let named = |row: DeliveryRowView|
        row.consumer_id == consumer@.id && exists|k: int|
            0 <= k < receipts@.len() && (#[trigger] receipts@[k])@.consumer_id
                == row.consumer_id && receipts@[k]@.message_id == row.message_id
                && receipts@[k]@.generation == row.generation;
    assert(views.len() == receipts@.len());
    crate::counting::lemma_hits(s, id, views);
    lemma_hits_by_numbers(s.deliveries, id, receipts@, named);
    assert forall|a: int| 0 <= a < s.deliveries.len() implies p(#[trigger] s.deliveries[a])
        == named(s.deliveries[a]) by {
        lemma_hit_by_numbers(id, receipts@, s.deliveries[a]);
    }
}

// Batches and their parts
/// Two batches with the same receipts, in whatever order and however often, touch
/// the same rows.
proof fn lemma_same_receipts(
    s: Seq<DeliveryRowView>,
    id: int,
    one: Seq<Receipt>,
    two: Seq<Receipt>,
)
    requires
        forall|k: int| 0 <= k < one.len() ==> two.contains(#[trigger] one[k]),
        forall|k: int| 0 <= k < two.len() ==> one.contains(#[trigger] two[k]),
    ensures
        forall|a: int|
            0 <= a < s.len() ==> crate::model::hit(id, seqs::views(one))(#[trigger] s[a])
                == crate::model::hit(id, seqs::views(two))(s[a]),
        s.filter(crate::model::hit(id, seqs::views(one))) == s.filter(
            crate::model::hit(id, seqs::views(two)),
        ),
        s.filter(crate::model::negate(crate::model::hit(id, seqs::views(one)))) == s.filter(
            crate::model::negate(crate::model::hit(id, seqs::views(two))),
        ),
{
    let p = crate::model::hit(id, seqs::views(one));
    let q = crate::model::hit(id, seqs::views(two));
    assert forall|a: int| 0 <= a < s.len() implies p(#[trigger] s[a]) == q(s[a]) by {
        let receipt = s[a].receipt();
        if seqs::views(one).contains(receipt) {
            let k = choose|k: int|
                0 <= k < seqs::views(one).len() && seqs::views(one)[k] == receipt;
            assert(two.contains(one[k]));
            let l = choose|l: int| 0 <= l < two.len() && two[l] == one[k];
            assert(seqs::views(two)[l] == receipt);
        }
        if seqs::views(two).contains(receipt) {
            let k = choose|k: int|
                0 <= k < seqs::views(two).len() && seqs::views(two)[k] == receipt;
            assert(one.contains(two[k]));
            let l = choose|l: int| 0 <= l < one.len() && one[l] == two[k];
            assert(seqs::views(one)[l] == receipt);
        }
    }
    seqs::lemma_filter_same(s, p, q);
    seqs::lemma_filter_same(s, crate::model::negate(p), crate::model::negate(q));
}

/// The order of a batch makes no difference: acknowledging the same receipts in
/// another order leaves the same log and counts the same.
pub proof fn law_ack_in_any_order(
    consumer: &Consumer,
    fan: &mut LiteFan,
    receipts: &[Receipt],
    result: Result<BatchResult, Error>,
    other_fan: &mut LiteFan,
    other_receipts: &[Receipt],
    other_result: Result<BatchResult, Error>,
)
    requires
        old(fan)@ == old(other_fan)@,
        receipts@.len() == other_receipts@.len(),
        forall|k: int|
            0 <= k < receipts@.len() ==> other_receipts@.contains(#[trigger] receipts@[k]),
        forall|k: int|
            0 <= k < other_receipts@.len() ==> receipts@.contains(#[trigger] other_receipts@[k]),
        call_ensures(Consumer::ack_batch, (consumer, fan, receipts), result),
        call_ensures(Consumer::ack_batch, (consumer, other_fan, other_receipts), other_result),
    ensures
        final(fan)@ == final(other_fan)@,
        result is Ok <==> other_result is Ok,
        result is Ok ==> result->Ok_0 == other_result->Ok_0,
{
    let s = old(fan)@;
    lemma_same_receipts(s.deliveries, consumer@.id, receipts@, other_receipts@);
}

/// The order of a batch makes no difference to releasing it.
pub proof fn law_nack_in_any_order(
    consumer: &Consumer,
    fan: &mut LiteFan,
    receipts: &[Receipt],
    result: Result<BatchResult, Error>,
    other_fan: &mut LiteFan,
    other_receipts: &[Receipt],
    other_result: Result<BatchResult, Error>,
    retry: Retry,
    now: i64,
)
    requires
        old(fan)@ == old(other_fan)@,
        receipts@.len() == other_receipts@.len(),
        forall|k: int|
            0 <= k < receipts@.len() ==> other_receipts@.contains(#[trigger] receipts@[k]),
        forall|k: int|
            0 <= k < other_receipts@.len() ==> receipts@.contains(#[trigger] other_receipts@[k]),
        call_ensures(Consumer::nack_batch, (consumer, fan, receipts, retry, Ok(now)), result),
        call_ensures(
            Consumer::nack_batch,
            (consumer, other_fan, other_receipts, retry, Ok(now)),
            other_result,
        ),
    ensures
        final(fan)@ == final(other_fan)@,
        result is Ok <==> other_result is Ok,
        result is Ok ==> result->Ok_0 == other_result->Ok_0,
{
    let s = old(fan)@;
    let one = seqs::views(receipts@);
    let two = seqs::views(other_receipts@);
    lemma_same_receipts(s.deliveries, consumer@.id, receipts@, other_receipts@);
    assert(one.len() == two.len());
    let t = final(fan)@;
    let u = final(other_fan)@;
    assert(t.deliveries =~= u.deliveries);
    assert(t =~= u);
}

/// The order of a batch makes no difference to extending it.
pub proof fn law_extension_in_any_order(
    consumer: &Consumer,
    fan: &mut LiteFan,
    receipts: &[Receipt],
    result: Result<BatchResult, Error>,
    other_fan: &mut LiteFan,
    other_receipts: &[Receipt],
    other_result: Result<BatchResult, Error>,
    timeout: Duration,
    now: i64,
)
    requires
        old(fan)@ == old(other_fan)@,
        receipts@.len() == other_receipts@.len(),
        forall|k: int|
            0 <= k < receipts@.len() ==> other_receipts@.contains(#[trigger] receipts@[k]),
        forall|k: int|
            0 <= k < other_receipts@.len() ==> receipts@.contains(#[trigger] other_receipts@[k]),
        call_ensures(
            Consumer::extend_visibility_batch,
            (consumer, fan, receipts, timeout, Ok(now)),
            result,
        ),
        call_ensures(
            Consumer::extend_visibility_batch,
            (consumer, other_fan, other_receipts, timeout, Ok(now)),
            other_result,
        ),
    ensures
        final(fan)@ == final(other_fan)@,
        result is Ok <==> other_result is Ok,
        result is Ok ==> result->Ok_0 == other_result->Ok_0,
{
    let s = old(fan)@;
    let one = seqs::views(receipts@);
    let two = seqs::views(other_receipts@);
    lemma_same_receipts(s.deliveries, consumer@.id, receipts@, other_receipts@);
    assert(one.len() == two.len());
    let t = final(fan)@;
    let u = final(other_fan)@;
    assert(t.deliveries =~= u.deliveries);
    assert(t =~= u);
}

/// A batch touches what its receipts touch singly: a row is among the touched ones
/// exactly where one of the receipts, presented alone, touches it.
pub proof fn law_a_batch_is_its_receipts(
    s: crate::model::StoreView,
    id: int,
    receipts: Seq<ReceiptView>,
    row: DeliveryRowView,
)
    ensures
        s.hits(id, receipts).contains(row) <==> exists|k: int|
            0 <= k < receipts.len() && s.hits(id, seq![#[trigger] receipts[k]]).contains(row),
{
    let p = crate::model::hit(id, receipts);
    seqs::lemma_filter_member(s.deliveries, p, row);
    assert forall|k: int| 0 <= k < receipts.len() implies s.hits(
        id,
        seq![#[trigger] receipts[k]],
    ).contains(row) == (s.deliveries.contains(row) && row.consumer_id == id && receipts[k]
        == row.receipt()) by {
        let single = seq![receipts[k]];
        seqs::lemma_filter_member(s.deliveries, crate::model::hit(id, single), row);
        assert(single[0] == receipts[k]);
        if single.contains(row.receipt()) {
            let i = choose|i: int| 0 <= i < single.len() && single[i] == row.receipt();
        }
    }
    if s.hits(id, receipts).contains(row) {
        let k = choose|k: int| 0 <= k < receipts.len() && receipts[k] == row.receipt();
        assert(s.hits(id, seq![receipts[k]]).contains(row));
    }
    if exists|k: int|
        0 <= k < receipts.len() && s.hits(id, seq![#[trigger] receipts[k]]).contains(row) {
        let k = choose|k: int|
            0 <= k < receipts.len() && s.hits(id, seq![#[trigger] receipts[k]]).contains(row);
        assert(receipts.contains(row.receipt()));
    }
}

/// One receipt is a batch of one: acknowledging, releasing or extending it does
/// what the batch does, and is true where the batch applies it.
pub proof fn law_one_receipt_is_a_batch(
    consumer: &Consumer,
    fan: &mut LiteFan,
    receipt: Receipt,
    batch_fan: &mut LiteFan,
    receipts: &[Receipt],
    retry: Retry,
    timeout: Duration,
    now: i64,
    result: Result<bool, Error>,
    batch_result: Result<BatchResult, Error>,
)
    requires
        old(fan)@.wf(),
        old(fan)@ == old(batch_fan)@,
        receipts@.len() == 1,
        receipts@[0] == receipt,
        ({
            ||| call_ensures(Consumer::ack, (consumer, fan, receipt), result) && call_ensures(
                Consumer::ack_batch,
                (consumer, batch_fan, receipts),
                batch_result,
            )
            ||| call_ensures(Consumer::nack, (consumer, fan, receipt, retry, Ok(now)), result)
                && call_ensures(
                Consumer::nack_batch,
                (consumer, batch_fan, receipts, retry, Ok(now)),
                batch_result,
            )
            ||| call_ensures(
                Consumer::extend_visibility,
                (consumer, fan, receipt, timeout, Ok(now)),
                result,
            ) && call_ensures(
                Consumer::extend_visibility_batch,
                (consumer, batch_fan, receipts, timeout, Ok(now)),
                batch_result,
            )
        }),
    ensures
        final(fan)@ == final(batch_fan)@,
        result is Ok <==> batch_result is Ok,
        result is Ok ==> result->Ok_0 == (batch_result->Ok_0.applied == 1),
        result is Err ==> result->Err_0@ == batch_result->Err_0@,
{
    assert(seqs::views(receipts@) =~= seq![receipt@]);
}

// Releasing and receiving
/// A released delivery comes back when its delay is over, not sooner and not
/// later: a claim of its consumer that reads an earlier time does not hand it out,
/// and one that reads that time or a later one does, where it has room for what
/// is visible.
pub proof fn law_released_deliveries_come_back_on_time(
    consumer: &Consumer,
    fan: &mut LiteFan,
    receipts: &[Receipt],
    retry: Retry,
    now: i64,
    counts: BatchResult,
    a: int,
    worker: &Consumer,
    later_fan: &mut LiteFan,
    max_messages: usize,
    lease_ms: i64,
    later: i64,
    claim: Claim,
)
    requires
        old(fan)@.wf(),
        call_ensures(
            Consumer::nack_batch,
            (consumer, fan, receipts, retry, Ok(now)),
            Ok::<BatchResult, Error>(counts),
        ),
        0 <= a < old(fan)@.deliveries.len(),
        old(fan)@.deliveries[a].consumer_id == consumer@.id,
        exists|k: int|
            0 <= k < receipts@.len() && (#[trigger] receipts@[k])@.consumer_id
                == old(fan)@.deliveries[a].consumer_id && receipts@[k]@.message_id
                == old(fan)@.deliveries[a].message_id && receipts@[k]@.generation
                == old(fan)@.deliveries[a].generation,
        old(later_fan)@ == final(fan)@,
        worker@.id == consumer@.id,
        call_ensures(
            Consumer::claim,
            (worker, later_fan, max_messages, lease_ms, Ok(later)),
            Ok::<Claim, Error>(claim),
        ),
    ensures
        ({
            let s = old(later_fan)@;
            let message_id = old(fan)@.deliveries[a].message_id;
            let delay_ms = match retry {
                Retry::Immediately => 0,
                Retry::After(delay) => crate::time::duration_nanos(delay) / 1_000_000,
            };
            &&& later < now + delay_ms ==> forall|j: int|
                0 <= j < claim.deliveries@.len() ==> (
                #[trigger] claim.deliveries@[j])@.message.id != message_id
            &&& later >= now + delay_ms && s.deliveries.filter(
                |row: DeliveryRowView|
                    row.consumer_id == consumer@.id && row.visible_at_ms <= later,
            ).len() <= max_messages ==> exists|j: int|
                0 <= j < claim.deliveries@.len() && (
                #[trigger] claim.deliveries@[j])@.message.id == message_id
        }),
{
    let s = old(fan)@;
    let t = final(fan)@;
    let id = consumer@.id;
    let max = max_messages as nat;
    let row = s.deliveries[a];
    let deadline = later + lease_ms;
    law_nack_releases_what_is_named(
        consumer,
        fan,
        receipts,
        retry,
        Ok(now),
        Ok::<BatchResult, Error>(counts),
    );
    assert(t.deliveries[a].message_id == row.message_id);
    assert(t.deliveries[a].consumer_id == id);
    let out = seqs::views(claim.deliveries@);
    assert forall|j: int| 0 <= j < claim.deliveries@.len() implies out[j] == (
    #[trigger] claim.deliveries@[j])@ by {}
    let p = |row: DeliveryRowView| row.consumer_id == id && row.visible_at_ms <= later;
    seqs::lemma_filter_same(t.deliveries, p, crate::model::visible(id, later as int));
    if t.deliveries[a].visible_at_ms > later {
        if !t.idle(id, later as int) {
            crate::laws::claiming::law_hidden_deliveries_stay(
                t,
                id,
                later as int,
                max,
                deadline,
                a,
            );
        }
    } else {
        crate::laws::claiming::law_visible_deliveries_are_ready(
            t,
            a,
            later as int,
            max,
            deadline,
        );
        if t.deliveries.filter(p).len() <= max {
            let all = t.claimed_deliveries(id, later as int, max, deadline);
            let j = choose|j: int|
                0 <= j < all.len() && (#[trigger] all[j]).message.id == row.message_id;
            assert(out[j] == claim.deliveries@[j]@);
        }
    }
}

/// A batch without receipts changes nothing and counts nothing, whatever the clock
/// shows and whatever else is asked for.
pub proof fn law_empty_batches_do_nothing(
    consumer: &Consumer,
    fan: &mut LiteFan,
    receipts: &[Receipt],
    retry: Retry,
    timeout: Duration,
    clock: Result<i64, Error>,
    result: Result<BatchResult, Error>,
)
    requires
        old(fan)@.wf(),
        receipts@.len() == 0,
        ({
            ||| call_ensures(Consumer::ack_batch, (consumer, fan, receipts), result)
            ||| call_ensures(Consumer::nack_batch, (consumer, fan, receipts, retry, clock), result)
            ||| call_ensures(
                Consumer::extend_visibility_batch,
                (consumer, fan, receipts, timeout, clock),
                result,
            )
            ||| call_ensures(Consumer::archive_batch, (consumer, fan, receipts, clock), result)
        }),
    ensures
        result is Ok,
        result->Ok_0.applied == 0,
        result->Ok_0.stale == 0,
        final(fan)@ == old(fan)@,
{
    let s = old(fan)@;
    let views = seqs::views(receipts@);
    assert(views.len() == 0);
    crate::counting::lemma_hits(s, consumer@.id, views);
    crate::laws::receipts::law_stale_receipts_change_nothing(s, consumer@.id, views, 0, None, 0);
}

} // verus!
