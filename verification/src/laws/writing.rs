//! Writing back: that the rows which are removed and written bring a database to
//! the changed log.
use vstd::prelude::*;

use crate::api::{Config, MessageView};
use crate::model::StoreView;
use crate::seqs;
use crate::sync::Row;
use crate::tables::{
    ArchiveRow, ArchiveView, ConsumerRow, ConsumerView, DeliveryRow, DeliveryRowView, LedgerRow,
    LedgerView, MessageRow, Stored,
};

verus! {

/// Whether a row has to be written.
pub open spec fn is_written<T: Row>(before: Seq<T::V>, after: Seq<T::V>, row: T::V) -> bool {
    after.contains(row) && !before.contains(row)
}

/// Whether a row is left alone: its identity is neither removed nor written.
pub open spec fn is_left_alone<T: Row>(before: Seq<T::V>, after: Seq<T::V>, row: T::V) -> bool {
    &&& before.contains(row)
    &&& crate::sync::has_identity::<T>(after, row)
    &&& forall|i: int|
        0 <= i < after.len() && is_written::<T>(before, after, after[i])
            ==> !(#[trigger] T::same_identity(after[i], row))
}

/// Removing the rows whose identity is gone and writing the rows that are new
/// leaves exactly the rows of the changed table.
pub proof fn law_write_back<T: Row>(before: Seq<T::V>, after: Seq<T::V>, row: T::V)
    requires
        crate::sync::identities_differ::<T>(before),
        crate::sync::identities_differ::<T>(after),
    ensures
        after.contains(row) <==> is_written::<T>(before, after, row) || is_left_alone::<T>(
            before,
            after,
            row,
        ),
{
    if after.contains(row) && before.contains(row) {
        let j = choose|j: int| 0 <= j < after.len() && after[j] == row;
        T::lemma_identity(row, row, row);
        assert(T::same_identity(after[j], row));
        assert forall|i: int|
            0 <= i < after.len() && is_written::<T>(before, after, after[i]) implies !(
        #[trigger] T::same_identity(after[i], row)) by {
            if T::same_identity(after[i], row) {
                assert(T::same_identity(after[i], after[j]));
            }
        }
    }
    if is_left_alone::<T>(before, after, row) {
        let j = choose|j: int|
            0 <= j < after.len() && #[trigger] T::same_identity(after[j], row);
        let b = choose|b: int| 0 <= b < before.len() && before[b] == row;
        assert(after.contains(after[j]));
        if before.contains(after[j]) {
            let a = choose|a: int| 0 <= a < before.len() && before[a] == after[j];
            assert(T::same_identity(before[a], before[b]));
        }
    }
}

/// In a log no two rows of a table stand for the same thing.
pub proof fn law_rows_have_identities(s: StoreView)
    requires
        s.wf(),
    ensures
        crate::sync::identities_differ::<MessageRow>(s.messages),
        crate::sync::identities_differ::<ConsumerRow>(s.consumers),
        crate::sync::identities_differ::<DeliveryRow>(s.deliveries),
        crate::sync::identities_differ::<LedgerRow>(s.ledger),
        crate::sync::identities_differ::<ArchiveRow>(s.archives),
{
    assert forall|i: int, j: int|
        0 <= i < s.messages.len() && 0 <= j < s.messages.len() && i != j implies !(
    #[trigger] MessageRow::same_identity(s.messages[i], s.messages[j])) by {
        let (a, b) = if i < j {
            (i, j)
        } else {
            (j, i)
        };
        assert(s.messages[a].id < s.messages[b].id);
    }
    assert forall|i: int, j: int|
        0 <= i < s.consumers.len() && 0 <= j < s.consumers.len() && i != j implies !(
    #[trigger] ConsumerRow::same_identity(s.consumers[i], s.consumers[j])) by {
        let (a, b) = if i < j {
            (i, j)
        } else {
            (j, i)
        };
        assert(s.consumers[a].id < s.consumers[b].id);
    }
    assert forall|i: int, j: int|
        0 <= i < s.deliveries.len() && 0 <= j < s.deliveries.len() && i != j implies !(
    #[trigger] DeliveryRow::same_identity(s.deliveries[i], s.deliveries[j])) by {
        let (a, b) = if i < j {
            (i, j)
        } else {
            (j, i)
        };
        assert(s.deliveries[a].consumer_id != s.deliveries[b].consumer_id
            || s.deliveries[a].message_id != s.deliveries[b].message_id);
    }
    assert forall|i: int, j: int|
        0 <= i < s.ledger.len() && 0 <= j < s.ledger.len() && i != j implies !(
    #[trigger] LedgerRow::same_identity(s.ledger[i], s.ledger[j])) by {
        let (a, b) = if i < j {
            (i, j)
        } else {
            (j, i)
        };
        assert(s.ledger[a].key != s.ledger[b].key);
    }
    assert forall|i: int, j: int|
        0 <= i < s.archives.len() && 0 <= j < s.archives.len() && i != j implies !(
    #[trigger] ArchiveRow::same_identity(s.archives[i], s.archives[j])) by {
        let (a, b) = if i < j {
            (i, j)
        } else {
            (j, i)
        };
        assert(s.archives[a].id < s.archives[b].id);
    }
}

/// Whether rows are read back from a log: those of messages, consumers and
/// archives in their order, deliveries and idempotency keys in any order.
pub open spec fn read_back(stored: Stored, s: StoreView) -> bool {
    let deliveries = seqs::views(stored.deliveries@);
    let ledger = seqs::views(stored.ledger@);
    &&& seqs::views(stored.messages@) == s.messages
    &&& seqs::views(stored.consumers@) == s.consumers
    &&& seqs::views(stored.archives@) == s.archives
    &&& stored.last_message_id == s.last_message_id
    &&& stored.last_consumer_id == s.last_consumer_id
    &&& stored.last_archive_id == s.last_archive_id
    &&& deliveries.no_duplicates()
    &&& forall|i: int|
        0 <= i < deliveries.len() ==> s.deliveries.contains(#[trigger] deliveries[i])
    &&& ledger.no_duplicates()
    &&& forall|i: int| 0 <= i < ledger.len() ==> s.ledger.contains(#[trigger] ledger[i])
}

/// Rows that the log has written are accepted when it is opened again, under every
/// valid configuration; and a log that was consistent is consistent again.
pub proof fn law_written_rows_are_accepted(stored: Stored, config: Config, s: StoreView)
    requires
        s.wf(),
        read_back(stored, s),
        stored.schema_version <= crate::schema::VERSION,
        crate::time::config_problem(config) is None,
    ensures
        stored.open_error(config) is None,
        s.consistent() ==> stored.log(config).consistent(),
{
    let t = stored.log(config);
    if s.messages.len() > 0 {
        assert(s.messages[s.messages.len() - 1].id <= s.last_message_id);
    }
    if s.consumers.len() > 0 {
        assert(s.consumer_wf(s.consumers[s.consumers.len() - 1]));
    }
    if s.archives.len() > 0 {
        assert(s.archives[s.archives.len() - 1].id <= s.last_archive_id);
    }
    assert forall|i: int| 0 <= i < t.consumers.len() implies t.consumer_wf(
        #[trigger] t.consumers[i],
    ) by {
        assert(s.consumer_wf(s.consumers[i]));
    }
    assert forall|i: int| 0 <= i < t.deliveries.len() implies {
        let row = #[trigger] t.deliveries[i];
        &&& 0 <= row.generation
        &&& 0 <= row.delivery_count
    } by {
        let a = choose|a: int| 0 <= a < s.deliveries.len() && s.deliveries[a] == t.deliveries[i];
        assert(s.deliveries[a].generation >= 0);
    }
    assert forall|i: int, j: int| 0 <= i < j < t.deliveries.len() implies {
        ||| #[trigger] t.deliveries[i].consumer_id != #[trigger] t.deliveries[j].consumer_id
        ||| t.deliveries[i].message_id != t.deliveries[j].message_id
    } by {
        let a = choose|a: int| 0 <= a < s.deliveries.len() && s.deliveries[a] == t.deliveries[i];
        let b = choose|b: int| 0 <= b < s.deliveries.len() && s.deliveries[b] == t.deliveries[j];
        assert(t.deliveries[i] != t.deliveries[j]);
        if a < b {
            assert(s.deliveries[a].consumer_id != s.deliveries[b].consumer_id
                || s.deliveries[a].message_id != s.deliveries[b].message_id);
        } else {
            assert(s.deliveries[b].consumer_id != s.deliveries[a].consumer_id
                || s.deliveries[b].message_id != s.deliveries[a].message_id);
        }
    }
    assert forall|i: int, j: int| 0 <= i < j < t.ledger.len() implies #[trigger] t.ledger[i].key
        != #[trigger] t.ledger[j].key by {
        let a = choose|a: int| 0 <= a < s.ledger.len() && s.ledger[a] == t.ledger[i];
        let b = choose|b: int| 0 <= b < s.ledger.len() && s.ledger[b] == t.ledger[j];
        assert(t.ledger[i] != t.ledger[j]);
        if a < b {
            assert(s.ledger[a].key != s.ledger[b].key);
        } else {
            assert(s.ledger[b].key != s.ledger[a].key);
        }
    }
    assert(t.archives_wf());
    assert(t.messages_wf());
    assert(t.wf());
    if s.consistent() {
        lemma_read_back_agrees(stored, config, s);
    }
}

proof fn lemma_read_back_agrees(stored: Stored, config: Config, s: StoreView)
    requires
        s.consistent(),
        read_back(stored, s),
        stored.log(config).wf(),
    ensures
        stored.log(config).consistent(),
{
    let t = stored.log(config);
    assert forall|i: int| 0 <= i < t.consumers.len() implies t.consumer_agrees(
        #[trigger] t.consumers[i],
    ) by {
        assert(s.consumer_agrees(s.consumers[i]));
    }
    crate::invariants::lemma_moved_copies(s, t);
    assert forall|i: int| 0 <= i < t.deliveries.len() implies {
        let row = #[trigger] t.deliveries[i];
        t.is_copy(row.consumer_id, row.message_id)
    } by {
        let a = choose|a: int| 0 <= a < s.deliveries.len() && s.deliveries[a] == t.deliveries[i];
        let row = s.deliveries[a];
        assert(t.is_copy(row.consumer_id, row.message_id));
    }
    assert forall|i: int| 0 <= i < t.ledger.len() implies (#[trigger] t.ledger[i].message_id matches Some(
        id,
    ) ==> id <= t.last_message_id) by {
        let a = choose|a: int| 0 <= a < s.ledger.len() && s.ledger[a] == t.ledger[i];
        assert(s.ledger[a].message_id == t.ledger[i].message_id);
    }
    assert forall|i: int| 0 <= i < t.archives.len() implies {
        let row = #[trigger] t.archives[i];
        t.is_copy(row.consumer_id, row.message_id)
    } by {
        assert(t.archives[i] == s.archives[i]);
    }
    assert forall|i: int, j: int|
        0 <= i < t.archives.len() && 0 <= j < t.deliveries.len() implies {
            ||| #[trigger] t.archives[i].consumer_id != #[trigger] t.deliveries[j].consumer_id
            ||| t.archives[i].message_id != t.deliveries[j].message_id
        } by {
        let b = choose|b: int| 0 <= b < s.deliveries.len() && s.deliveries[b] == t.deliveries[j];
        assert(s.archives[i].consumer_id != s.deliveries[b].consumer_id || s.archives[i].message_id
            != s.deliveries[b].message_id);
    }
}

/// A new database opens under every valid configuration.
pub proof fn law_new_logs_open(stored: Stored, config: Config)
    requires
        call_ensures(<Stored as Default>::default, (), stored),
        crate::time::config_problem(config) is None,
    ensures
        stored.open_error(config) is None,
        stored.log(config).consistent(),
{
}

/// What a row stands for: a message, a consumer and an archive entry for their
/// identifier, a delivery for its consumer and message together, and an entry of
/// the ledger for its key.
pub proof fn law_identities_of_rows(
    messages: (MessageView, MessageView),
    consumers: (ConsumerView, ConsumerView),
    deliveries: (DeliveryRowView, DeliveryRowView),
    entries: (LedgerView, LedgerView),
    archives: (ArchiveView, ArchiveView),
)
    ensures
        MessageRow::same_identity(messages.0, messages.1) <==> messages.0.id == messages.1.id,
        ConsumerRow::same_identity(consumers.0, consumers.1) <==> consumers.0.id
            == consumers.1.id,
        DeliveryRow::same_identity(deliveries.0, deliveries.1) <==> deliveries.0.consumer_id
            == deliveries.1.consumer_id && deliveries.0.message_id == deliveries.1.message_id,
        LedgerRow::same_identity(entries.0, entries.1) <==> entries.0.key == entries.1.key,
        ArchiveRow::same_identity(archives.0, archives.1) <==> archives.0.id == archives.1.id,
{
}

/// Which rows are removed and written, position by position: a row is removed
/// where no row stands for the same thing any more, and written where no row was
/// equal to it before.
pub proof fn law_changes_by_position<T: Row>(
    before: &[T],
    after: &[T],
    removals: Vec<usize>,
    writes: Vec<usize>,
    i: usize,
)
    requires
        call_ensures(crate::sync::removed::<T>, (before, after), removals),
        call_ensures(crate::sync::written::<T>, (before, after), writes),
    ensures
        i < before@.len() ==> (removals@.contains(i) <==> forall|j: int|
            0 <= j < after@.len() ==> !T::same_identity(
                (#[trigger] after@[j])@,
                before@[i as int]@,
            )),
        i < after@.len() ==> (writes@.contains(i) <==> forall|j: int|
            0 <= j < before@.len() ==> (#[trigger] before@[j])@ != after@[i as int]@),
        forall|k: int| 0 <= k < removals@.len() ==> (#[trigger] removals@[k]) < before@.len(),
        forall|k: int| 0 <= k < writes@.len() ==> (#[trigger] writes@[k]) < after@.len(),
        removals@.no_duplicates(),
        writes@.no_duplicates(),
{
    let old_rows = seqs::views(before@);
    let new_rows = seqs::views(after@);
    assert(removals@.no_duplicates()) by {
        assert forall|k: int, l: int|
            0 <= k < removals@.len() && 0 <= l < removals@.len() && k != l implies removals@[k]
            != removals@[l] by {
            if k < l {
                assert(removals@[k] < removals@[l]);
            } else {
                assert(removals@[l] < removals@[k]);
            }
        }
    }
    assert(writes@.no_duplicates()) by {
        assert forall|k: int, l: int|
            0 <= k < writes@.len() && 0 <= l < writes@.len() && k != l implies writes@[k]
            != writes@[l] by {
            if k < l {
                assert(writes@[k] < writes@[l]);
            } else {
                assert(writes@[l] < writes@[k]);
            }
        }
    }
    if i < before@.len() {
        if crate::sync::has_identity::<T>(new_rows, old_rows[i as int]) {
            let j = choose|j: int|
                0 <= j < new_rows.len() && #[trigger] T::same_identity(
                    new_rows[j],
                    old_rows[i as int],
                );
            assert(T::same_identity(after@[j]@, before@[i as int]@));
        } else {
            assert forall|j: int| 0 <= j < after@.len() implies !T::same_identity(
                (#[trigger] after@[j])@,
                before@[i as int]@,
            ) by {
                assert(new_rows[j] == after@[j]@);
                assert(!T::same_identity(new_rows[j], old_rows[i as int]));
            }
        }
    }
    if i < after@.len() {
        if old_rows.contains(new_rows[i as int]) {
            let j = choose|j: int| 0 <= j < old_rows.len() && old_rows[j] == new_rows[i as int];
            assert(before@[j]@ == after@[i as int]@);
        } else {
            assert forall|j: int| 0 <= j < before@.len() implies (#[trigger] before@[j])@
                != after@[i as int]@ by {
                assert(old_rows[j] == before@[j]@);
            }
        }
    }
}

} // verus!
