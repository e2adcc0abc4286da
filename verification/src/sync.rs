//! Which rows have to be written so that a database holds a changed table.
use vstd::prelude::*;

use crate::api::MessageView;
use crate::model::StoreView;
use crate::seqs;
use crate::signals::Wakeup;
use crate::storage::{same_bytes, same_filter, same_text, LiteFan};
use crate::tables::{
    ArchiveRow, ArchiveView, ConsumerRow, ConsumerView, DeliveryRow, DeliveryRowView, LedgerRow,
    LedgerView, MessageRow,
};

verus! {

/// A row with an identity: a table holds at most one row of each.
pub trait Row: View + Sized {
    /// Whether two rows stand for the same thing.
    spec fn same_identity(left: Self::V, right: Self::V) -> bool;

    /// Standing for the same thing is an equivalence.
    proof fn lemma_identity(a: Self::V, b: Self::V, c: Self::V)
        ensures
            Self::same_identity(a, a),
            Self::same_identity(a, b) ==> Self::same_identity(b, a),
            Self::same_identity(a, b) && Self::same_identity(b, c) ==> Self::same_identity(a, c),
    ;

    fn is_same_identity(&self, other: &Self) -> (same: bool)
        ensures
            same == Self::same_identity(self@, other@),
    ;

    fn is_same_row(&self, other: &Self) -> (same: bool)
        ensures
            same == (self@ == other@),
    ;
}

impl Row for MessageRow {
    open spec fn same_identity(left: MessageView, right: MessageView) -> bool {
        left.id == right.id
    }

    proof fn lemma_identity(a: MessageView, b: MessageView, c: MessageView) {
    }

    fn is_same_identity(&self, other: &Self) -> (same: bool) {
        self.id == other.id
    }

    fn is_same_row(&self, other: &Self) -> (same: bool) {
        self.id == other.id && same_text(&self.topic, &other.topic) && same_bytes(
            self.body.as_slice(),
            other.body.as_slice(),
        ) && self.published_at_ms == other.published_at_ms
    }
}

impl Row for ConsumerRow {
    open spec fn same_identity(left: ConsumerView, right: ConsumerView) -> bool {
        left.id == right.id
    }

    proof fn lemma_identity(a: ConsumerView, b: ConsumerView, c: ConsumerView) {
    }

    fn is_same_identity(&self, other: &Self) -> (same: bool) {
        self.id == other.id
    }

    fn is_same_row(&self, other: &Self) -> (same: bool) {
        self.id == other.id && self.name == other.name && same_filter(&self.filter, &other.filter)
            && self.created_at_ms == other.created_at_ms && self.draining_at_ms
            == other.draining_at_ms && self.scan_cursor == other.scan_cursor && self.drain_cursor
            == other.drain_cursor
    }
}

impl Row for DeliveryRow {
    open spec fn same_identity(left: DeliveryRowView, right: DeliveryRowView) -> bool {
        left.consumer_id == right.consumer_id && left.message_id == right.message_id
    }

    proof fn lemma_identity(a: DeliveryRowView, b: DeliveryRowView, c: DeliveryRowView) {
    }

    fn is_same_identity(&self, other: &Self) -> (same: bool) {
        self.consumer_id == other.consumer_id && self.message_id == other.message_id
    }

    fn is_same_row(&self, other: &Self) -> (same: bool) {
        self.consumer_id == other.consumer_id && self.message_id == other.message_id
            && self.visible_at_ms == other.visible_at_ms && self.generation == other.generation
            && self.delivery_count == other.delivery_count
    }
}

impl Row for LedgerRow {
    open spec fn same_identity(left: LedgerView, right: LedgerView) -> bool {
        left.key == right.key
    }

    proof fn lemma_identity(a: LedgerView, b: LedgerView, c: LedgerView) {
    }

    fn is_same_identity(&self, other: &Self) -> (same: bool) {
        same_bytes(self.key.as_slice(), other.key.as_slice())
    }

    fn is_same_row(&self, other: &Self) -> (same: bool) {
        same_bytes(self.key.as_slice(), other.key.as_slice()) && self.message_id
            == other.message_id && self.expires_at_ms == other.expires_at_ms
    }
}

impl Row for ArchiveRow {
    open spec fn same_identity(left: ArchiveView, right: ArchiveView) -> bool {
        left.id == right.id
    }

    proof fn lemma_identity(a: ArchiveView, b: ArchiveView, c: ArchiveView) {
    }

    fn is_same_identity(&self, other: &Self) -> (same: bool) {
        self.id == other.id
    }

    fn is_same_row(&self, other: &Self) -> (same: bool) {
        self.id == other.id && self.consumer_id == other.consumer_id && self.message_id
            == other.message_id && self.generation == other.generation && self.delivery_count
            == other.delivery_count && self.archived_at_ms == other.archived_at_ms && same_text(
            &self.detail,
            &other.detail,
        )
    }
}

/// Whether a table has a row with the identity of `row`.
pub open spec fn has_identity<T: Row>(rows: Seq<T::V>, row: T::V) -> bool {
    exists|i: int| 0 <= i < rows.len() && #[trigger] T::same_identity(rows[i], row)
}

/// Whether no two rows of a table have the same identity.
pub open spec fn identities_differ<T: Row>(rows: Seq<T::V>) -> bool {
    forall|i: int, j: int|
        0 <= i < rows.len() && 0 <= j < rows.len() && i != j ==> !(#[trigger] T::same_identity(
            rows[i],
            rows[j],
        ))
}

/// The positions in `before` of the rows whose identity is gone from `after`.
pub fn removed<T: Row>(before: &[T], after: &[T]) -> (positions: Vec<usize>)
    ensures
        forall|i: usize|
            i < before@.len() ==> (#[trigger] positions@.contains(i)
                <==> !has_identity::<T>(seqs::views(after@), seqs::views(before@)[i as int])),
        forall|k: int| 0 <= k < positions@.len() ==> (#[trigger] positions@[k]) < before@.len(),
        forall|k: int, l: int|
            0 <= k < l < positions@.len() ==> #[trigger] positions@[k] < #[trigger] positions@[l],
{
    let mut positions: Vec<usize> = Vec::new();
    let mut i: usize = 0;
    while i < before.len()
        invariant
            i <= before@.len(),
            forall|k: usize|
                k < i ==> (#[trigger] positions@.contains(k)
                    <==> !has_identity::<T>(seqs::views(after@), seqs::views(before@)[k as int])),
            forall|k: int| 0 <= k < positions@.len() ==> (#[trigger] positions@[k]) < i,
            forall|k: int, l: int|
                0 <= k < l < positions@.len() ==> #[trigger] positions@[k]
                    < #[trigger] positions@[l],
        decreases before@.len() - i,
    {
        let mut found = false;
        let mut j: usize = 0;
        while j < after.len() && !found
            invariant
                j <= after@.len(),
                i < before@.len(),
                !found ==> forall|k: int|
                    0 <= k < j ==> !(#[trigger] T::same_identity(
                        seqs::views(after@)[k],
                        seqs::views(before@)[i as int],
                    )),
                found ==> has_identity::<T>(
                    seqs::views(after@),
                    seqs::views(before@)[i as int],
                ),
            decreases after@.len() - j,
        {
            if after[j].is_same_identity(&before[i]) {
                assert(T::same_identity(
                    seqs::views(after@)[j as int],
                    seqs::views(before@)[i as int],
                ));
                found = true;
            }
            j += 1;
        }
        let ghost earlier = positions@;
        proof {
            lemma_positions(earlier, i);
        }
        if !found {
            positions.push(i);
        }
        i += 1;
    }
    positions
}

/// The positions in `after` of the rows that `before` does not hold.
pub fn written<T: Row>(before: &[T], after: &[T]) -> (positions: Vec<usize>)
    ensures
        forall|i: usize|
            i < after@.len() ==> (#[trigger] positions@.contains(i)
                <==> !seqs::views(before@).contains(seqs::views(after@)[i as int])),
        forall|k: int| 0 <= k < positions@.len() ==> (#[trigger] positions@[k]) < after@.len(),
        forall|k: int, l: int|
            0 <= k < l < positions@.len() ==> #[trigger] positions@[k] < #[trigger] positions@[l],
{
    let ghost known = seqs::views(before@);
    let mut positions: Vec<usize> = Vec::new();
    let mut i: usize = 0;
    while i < after.len()
        invariant
            i <= after@.len(),
            known == seqs::views(before@),
            forall|k: usize|
                k < i ==> (#[trigger] positions@.contains(k)
                    <==> !known.contains(seqs::views(after@)[k as int])),
            forall|k: int| 0 <= k < positions@.len() ==> (#[trigger] positions@[k]) < i,
            forall|k: int, l: int|
                0 <= k < l < positions@.len() ==> #[trigger] positions@[k]
                    < #[trigger] positions@[l],
        decreases after@.len() - i,
    {
        let mut found = false;
        let mut j: usize = 0;
        while j < before.len() && !found
            invariant
                j <= before@.len(),
                i < after@.len(),
                known == seqs::views(before@),
                !found ==> forall|k: int|
                    0 <= k < j ==> #[trigger] known[k] != seqs::views(after@)[i as int],
                found ==> known.contains(seqs::views(after@)[i as int]),
            decreases before@.len() - j,
        {
            assert(known[j as int] == before@[j as int]@);
            if before[j].is_same_row(&after[i]) {
                found = true;
            }
            j += 1;
        }
        let ghost earlier = positions@;
        proof {
            lemma_positions(earlier, i);
        }
        if !found {
            positions.push(i);
        }
        i += 1;
    }
    positions
}

/// Pushing a position adds it, and it alone.
proof fn lemma_positions(positions: Seq<usize>, i: usize)
    requires
        forall|k: int| 0 <= k < positions.len() ==> (#[trigger] positions[k]) < i,
    ensures
        !positions.contains(i),
        forall|k: usize|
            #[trigger] positions.push(i).contains(k) <==> positions.contains(k) || k == i,
{
    let more = positions.push(i);
    assert(more[positions.len() as int] == i);
    assert forall|k: usize| #[trigger] more.contains(k) <==> positions.contains(k) || k == i by {
        if positions.contains(k) {
            let a = choose|a: int| 0 <= a < positions.len() && positions[a] == k;
            assert(more[a] == k);
        }
        if more.contains(k) && k != i {
            let a = choose|a: int| 0 <= a < more.len() && more[a] == k;
            assert(positions[a] == k);
        }
    }
}

impl LiteFan {
    pub fn messages(&self) -> (rows: &Vec<MessageRow>)
        ensures
            seqs::views(rows@) == self@.messages,
    {
        &self.messages
    }

    pub fn consumers(&self) -> (rows: &Vec<ConsumerRow>)
        ensures
            seqs::views(rows@) == self@.consumers,
    {
        &self.consumers
    }

    pub fn deliveries(&self) -> (rows: &Vec<DeliveryRow>)
        ensures
            seqs::views(rows@) == self@.deliveries,
    {
        &self.deliveries
    }

    pub fn ledger(&self) -> (rows: &Vec<LedgerRow>)
        ensures
            seqs::views(rows@) == self@.ledger,
    {
        &self.ledger
    }

    pub fn archive_rows(&self) -> (rows: &Vec<ArchiveRow>)
        ensures
            seqs::views(rows@) == self@.archives,
    {
        &self.archives
    }

    /// Hands out the wakeups that have been raised, for the polls that wait in
    /// this process.
    pub fn take_wakeups(&mut self) -> (wakeups: Vec<Wakeup>)
        requires
            old(self)@.wf(),
        ensures
            final(self)@.wf(),
            seqs::views(wakeups@) == old(self)@.wakeups,
            final(self)@ == (StoreView { wakeups: Seq::empty(), ..old(self)@ }),
    {
        let ghost before = self@;
        let mut wakeups: Vec<Wakeup> = Vec::new();
        std::mem::swap(&mut wakeups, &mut self.wakeups);
        proof {
            assert(self@ =~= (StoreView { wakeups: Seq::empty(), ..before }));
            crate::invariants::lemma_wakeups(before, Seq::empty());
        }
        wakeups
    }
}

} // verus!
