//! Lifecycle: what opening, draining, deleting and pruning do, in terms of their
//! arguments and of the rows before and after.
use vstd::prelude::*;

use crate::api::{
    Config, DeleteMode, DeleteOutcome, MessageView, Prune, PruneOutcome, Publish, PublishOutcome,
};
use crate::consumer::{Consumer, ConsumerBuilder};
use crate::error::{Error, ErrorView};
use crate::model::StoreView;
use crate::seqs;
use crate::signals::WakeupView;
use crate::storage::LiteFan;
use crate::tables::{ArchiveView, ConsumerView, DeliveryRowView, Stored};

verus! {

// Opening a log
/// A log takes its limits from its configuration and its rows from the database,
/// and goes on counting after the highest identifier that is recorded or present.
/// Nobody is to be woken yet.
pub proof fn law_logs_follow_their_configuration(stored: Stored, config: Config, fan: LiteFan)
    requires
        call_ensures(LiteFan::open_with_config, (stored, config), Ok::<LiteFan, Error>(fan)),
    ensures
        fan@.max_batch_size == config.max_batch_size,
        fan@.poll_interval_nanos == crate::time::duration_nanos(config.cross_process_poll_interval),
        fan@.idempotency_window_ms == crate::time::duration_nanos(config.idempotency_window)
            / 1_000_000,
        fan@.messages.len() == stored.messages@.len(),
        forall|k: int|
            0 <= k < stored.messages@.len() ==> fan@.messages[k] == (
            #[trigger] stored.messages@[k])@,
        fan@.consumers.len() == stored.consumers@.len(),
        forall|k: int|
            0 <= k < stored.consumers@.len() ==> fan@.consumers[k] == (
            #[trigger] stored.consumers@[k])@,
        fan@.deliveries.len() == stored.deliveries@.len(),
        forall|k: int|
            0 <= k < stored.deliveries@.len() ==> fan@.deliveries[k] == (
            #[trigger] stored.deliveries@[k])@,
        fan@.ledger.len() == stored.ledger@.len(),
        forall|k: int|
            0 <= k < stored.ledger@.len() ==> fan@.ledger[k] == (#[trigger] stored.ledger@[k])@,
        fan@.archives.len() == stored.archives@.len(),
        forall|k: int|
            0 <= k < stored.archives@.len() ==> fan@.archives[k] == (
            #[trigger] stored.archives@[k])@,
        fan@.last_message_id >= stored.last_message_id,
        forall|k: int|
            0 <= k < stored.messages@.len() ==> fan@.last_message_id >= (
            #[trigger] stored.messages@[k]).id,
        fan@.last_message_id == stored.last_message_id || stored.messages@.len() > 0
            && fan@.last_message_id == stored.messages@[stored.messages@.len() - 1].id
            || stored.messages@.len() == 0 && fan@.last_message_id == 0,
        fan@.last_consumer_id >= stored.last_consumer_id,
        forall|k: int|
            0 <= k < stored.consumers@.len() ==> fan@.last_consumer_id >= (
            #[trigger] stored.consumers@[k]).id,
        fan@.last_consumer_id == stored.last_consumer_id || stored.consumers@.len() > 0
            && fan@.last_consumer_id == stored.consumers@[stored.consumers@.len() - 1].id
            || stored.consumers@.len() == 0 && fan@.last_consumer_id == 0,
        fan@.last_archive_id >= stored.last_archive_id,
        forall|k: int|
            0 <= k < stored.archives@.len() ==> fan@.last_archive_id >= (
            #[trigger] stored.archives@[k]).id,
        fan@.last_archive_id == stored.last_archive_id || stored.archives@.len() > 0
            && fan@.last_archive_id == stored.archives@[stored.archives@.len() - 1].id
            || stored.archives@.len() == 0 && fan@.last_archive_id == 0,
        fan@.wakeups.len() == 0,
{
    assert forall|k: int| 0 <= k < stored.messages@.len() implies fan@.last_message_id >= (
    #[trigger] stored.messages@[k]).id by {
        assert(fan@.messages[k].id == stored.messages@[k].id);
    }
    assert forall|k: int| 0 <= k < stored.consumers@.len() implies fan@.last_consumer_id >= (
    #[trigger] stored.consumers@[k]).id by {
        assert(fan@.consumer_wf(fan@.consumers[k]));
        assert(fan@.consumers[k].id == stored.consumers@[k].id);
    }
    assert forall|k: int| 0 <= k < stored.archives@.len() implies fan@.last_archive_id >= (
    #[trigger] stored.archives@[k]).id by {
        assert(fan@.archives[k].id == stored.archives@[k].id);
    }
}

/// A configuration is refused exactly where it has no connection, a batch limit of
/// zero or beyond what SQLite counts, no poll interval, or a window below a
/// millisecond or beyond what can be stored. A database of a newer version is
/// refused with both versions.
pub proof fn law_configurations_are_checked(
    stored: Stored,
    config: Config,
    result: Result<LiteFan, Error>,
)
    requires
        call_ensures(LiteFan::open_with_config, (stored, config), result),
    ensures
        ({
            let window_ms = crate::time::duration_nanos(config.idempotency_window) / 1_000_000;
            let valid = {
                &&& config.max_connections > 0
                &&& 0 < config.max_batch_size <= i64::MAX
                &&& crate::time::duration_nanos(config.cross_process_poll_interval) > 0
                &&& 0 < window_ms <= i64::MAX
            };
            &&& !valid <==> result is Err && result->Err_0 is InvalidConfig
            &&& config.max_connections == 0 ==> result is Err && result->Err_0@
                == ErrorView::InvalidConfig("max_connections must be greater than zero"@)
            &&& config.max_connections > 0 && config.max_batch_size == 0 ==> result is Err
                && result->Err_0@ == ErrorView::InvalidConfig(
                "max_batch_size must be greater than zero"@,
            )
            &&& config.max_connections > 0 && config.max_batch_size > i64::MAX ==> result is Err
                && result->Err_0@ == ErrorView::InvalidConfig("max_batch_size must fit in SQLite"@)
            &&& config.max_connections > 0 && 0 < config.max_batch_size <= i64::MAX
                && crate::time::duration_nanos(config.cross_process_poll_interval) == 0
                ==> result is Err && result->Err_0@ == ErrorView::InvalidConfig(
                "cross_process_poll_interval must be greater than zero"@,
            )
            &&& config.max_connections > 0 && 0 < config.max_batch_size <= i64::MAX
                && crate::time::duration_nanos(config.cross_process_poll_interval) > 0 && window_ms
                == 0 ==> result is Err && result->Err_0@ == ErrorView::InvalidConfig(
                "idempotency_window must be at least one millisecond"@,
            )
            &&& config.max_connections > 0 && 0 < config.max_batch_size <= i64::MAX
                && crate::time::duration_nanos(config.cross_process_poll_interval) > 0 && window_ms
                > i64::MAX ==> result is Err && result->Err_0@ == ErrorView::InvalidConfig(
                "idempotency_window must fit in SQLite milliseconds"@,
            )
            &&& valid && stored.schema_version > 2 ==> {
                &&& result matches Err(Error::UnsupportedSchemaVersion { found, maximum })
                &&& found == stored.schema_version
                &&& maximum == 2
            }
            &&& stored.schema_version <= 2 ==> !(result is Err
                && result->Err_0 is UnsupportedSchemaVersion)
        }),
{
}

/// Rows are accepted wherever they keep to their tables: identifiers ascend, names
/// and keys are unique, a consumer has one delivery and one archive entry of a
/// message at most, cursors are not negative and not past their limit, and no
/// count or generation is negative. They need not agree with each other.
pub proof fn law_rows_that_keep_to_their_tables_open(
    stored: Stored,
    config: Config,
    result: Result<LiteFan, Error>,
)
    requires
        call_ensures(LiteFan::open_with_config, (stored, config), result),
        config.max_connections > 0,
        0 < config.max_batch_size <= i64::MAX,
        crate::time::duration_nanos(config.cross_process_poll_interval) > 0,
        0 < crate::time::duration_nanos(config.idempotency_window) / 1_000_000 <= i64::MAX,
        stored.schema_version <= 2,
        forall|i: int, j: int|
            0 <= i < j < stored.messages@.len() ==> (#[trigger] stored.messages@[i]).id < (
            #[trigger] stored.messages@[j]).id,
        forall|i: int, j: int|
            0 <= i < j < stored.consumers@.len() ==> (#[trigger] stored.consumers@[i]).id < (
            #[trigger] stored.consumers@[j]).id && stored.consumers@[i].name@
                != stored.consumers@[j].name@,
        forall|i: int|
            0 <= i < stored.consumers@.len() ==> {
                &&& 0 <= (#[trigger] stored.consumers@[i]).scan_cursor
                &&& stored.consumers@[i].drain_cursor is Some ==> stored.consumers@[i].scan_cursor
                    <= stored.consumers@[i].drain_cursor->Some_0
            },
        forall|i: int|
            0 <= i < stored.deliveries@.len() ==> 0 <= (
            #[trigger] stored.deliveries@[i]).generation && 0
                <= stored.deliveries@[i].delivery_count,
        forall|i: int, j: int|
            0 <= i < j < stored.deliveries@.len() ==> (#[trigger] stored.deliveries@[i]).consumer_id
                != (#[trigger] stored.deliveries@[j]).consumer_id
                || stored.deliveries@[i].message_id != stored.deliveries@[j].message_id,
        forall|i: int, j: int|
            0 <= i < j < stored.ledger@.len() ==> (#[trigger] stored.ledger@[i]).key@ != (
            #[trigger] stored.ledger@[j]).key@,
        forall|i: int|
            0 <= i < stored.archives@.len() ==> 0 <= (#[trigger] stored.archives@[i]).generation
                && 0 <= stored.archives@[i].delivery_count,
        forall|i: int, j: int|
            0 <= i < j < stored.archives@.len() ==> (#[trigger] stored.archives@[i]).id < (
            #[trigger] stored.archives@[j]).id && (stored.archives@[i].consumer_id
                != stored.archives@[j].consumer_id || stored.archives@[i].message_id
                != stored.archives@[j].message_id),
    ensures
        result is Ok,
{
    let s = stored.log(config);
    assert forall|i: int| 0 <= i < stored.messages@.len() implies s.messages[i] == (
    #[trigger] stored.messages@[i])@ by {}
    assert forall|i: int| 0 <= i < stored.consumers@.len() implies s.consumers[i] == (
    #[trigger] stored.consumers@[i])@ by {}
    assert forall|i: int| 0 <= i < stored.deliveries@.len() implies s.deliveries[i] == (
    #[trigger] stored.deliveries@[i])@ by {}
    assert forall|i: int| 0 <= i < stored.ledger@.len() implies s.ledger[i] == (
    #[trigger] stored.ledger@[i])@ by {}
    assert forall|i: int| 0 <= i < stored.archives@.len() implies s.archives[i] == (
    #[trigger] stored.archives@[i])@ by {}
    let a = stored.messages@.len() - 1;
    let b = stored.consumers@.len() - 1;
    let c = stored.archives@.len() - 1;
    assert forall|i: int| 0 <= i < s.messages.len() implies #[trigger] s.messages[i].id
        <= s.last_message_id by {
        assert(s.messages[i] == stored.messages@[i]@);
        assert(s.messages[a] == stored.messages@[a]@);
        assert(i < a ==> stored.messages@[i].id < stored.messages@[a].id);
    }
    assert forall|i: int, j: int| 0 <= i < j < s.messages.len() implies #[trigger] s.messages[i].id
        < #[trigger] s.messages[j].id by {
        assert(stored.messages@[i].id < stored.messages@[j].id);
    }
    assert(s.messages_wf());
    assert forall|i: int| 0 <= i < s.consumers.len() implies s.consumer_wf(
        #[trigger] s.consumers[i],
    ) by {
        assert(s.consumers[i] == stored.consumers@[i]@);
        assert(s.consumers[b] == stored.consumers@[b]@);
        assert(i < b ==> stored.consumers@[i].id < stored.consumers@[b].id);
    }
    assert forall|i: int, j: int| 0 <= i < j < s.consumers.len() implies #[trigger] s.consumers[i].id
        < #[trigger] s.consumers[j].id by {
        assert(stored.consumers@[i].id < stored.consumers@[j].id);
    }
    assert forall|i: int, j: int|
        0 <= i < j < s.consumers.len() implies #[trigger] s.consumers[i].name
        != #[trigger] s.consumers[j].name by {
        assert(stored.consumers@[i].id < stored.consumers@[j].id);
    }
    assert(s.consumers_wf());
    assert forall|i: int| 0 <= i < s.deliveries.len() implies {
        let row = #[trigger] s.deliveries[i];
        &&& 0 <= row.generation
        &&& 0 <= row.delivery_count
    } by {
        assert(s.deliveries[i] == stored.deliveries@[i]@);
    }
    assert forall|i: int, j: int| 0 <= i < j < s.deliveries.len() implies {
        ||| #[trigger] s.deliveries[i].consumer_id != #[trigger] s.deliveries[j].consumer_id
        ||| s.deliveries[i].message_id != s.deliveries[j].message_id
    } by {
        assert(stored.deliveries@[i].consumer_id != stored.deliveries@[j].consumer_id
            || stored.deliveries@[i].message_id != stored.deliveries@[j].message_id);
    }
    assert(s.deliveries_wf());
    assert forall|i: int, j: int| 0 <= i < j < s.ledger.len() implies #[trigger] s.ledger[i].key
        != #[trigger] s.ledger[j].key by {
        assert(stored.ledger@[i].key@ != stored.ledger@[j].key@);
    }
    assert(s.ledger_wf());
    assert forall|i: int| 0 <= i < s.archives.len() implies {
        let row = #[trigger] s.archives[i];
        &&& row.id <= s.last_archive_id
        &&& 0 <= row.generation
        &&& 0 <= row.delivery_count
    } by {
        assert(s.archives[i] == stored.archives@[i]@);
        assert(s.archives[c] == stored.archives@[c]@);
        assert(i < c ==> stored.archives@[i].id < stored.archives@[c].id);
    }
    assert forall|i: int, j: int| 0 <= i < j < s.archives.len() implies #[trigger] s.archives[i].id
        < #[trigger] s.archives[j].id by {
        assert(stored.archives@[i].id < stored.archives@[j].id);
    }
    assert forall|i: int, j: int| 0 <= i < j < s.archives.len() implies {
        ||| #[trigger] s.archives[i].consumer_id != #[trigger] s.archives[j].consumer_id
        ||| s.archives[i].message_id != s.archives[j].message_id
    } by {
        assert(stored.archives@[i].id < stored.archives@[j].id);
    }
    assert(s.archives_wf());
}

// Opening a consumer
/// Opening a consumer. A name that is known resumes its consumer, under the filter
/// that it has and no other, and changes nothing. A new name gets an identifier
/// that none had before, and a row whose cursor stands at the last retained
/// message; every other row stays. The handle carries the identifier, the name and
/// the filter.
pub proof fn law_opening_resumes_or_creates(
    builder: ConsumerBuilder,
    fan: &mut LiteFan,
    now: i64,
    result: Result<Consumer, Error>,
)
    requires
        old(fan)@.wf(),
        call_ensures(ConsumerBuilder::open, (builder, fan, Ok(now)), result),
    ensures
        ({
            let s = old(fan)@;
            let t = final(fan)@;
            let n = s.consumers.len() as int;
            let end = if s.messages.len() == 0 {
                0
            } else {
                s.messages[s.messages.len() - 1].id
            };
            &&& result is Err ==> t == s
            &&& result is Ok ==> result->Ok_0@.name == builder@.name && result->Ok_0@.filter
                == builder@.filter
            &&& builder@.name.len() == 0 ==> result is Err && result->Err_0 is EmptyConsumerName
            &&& forall|i: int|
                0 <= i < n && (#[trigger] s.consumers[i]).name == builder@.name
                    && builder@.name.len() > 0 ==> {
                    &&& t == s
                    &&& s.consumers[i].filter == builder@.filter ==> result is Ok
                        && result->Ok_0@.id == s.consumers[i].id
                    &&& s.consumers[i].filter != builder@.filter ==> {
                        &&& result matches Err(Error::ConsumerConfigurationMismatch { name })
                        &&& name@ == builder@.name
                    }
                }
            &&& builder@.name.len() > 0 && (forall|i: int|
                0 <= i < n ==> (#[trigger] s.consumers[i]).name != builder@.name) ==> {
                &&& s.last_consumer_id == i64::MAX ==> result is Err && result->Err_0 is CounterOutOfRange
                &&& s.last_consumer_id < i64::MAX && end < 0 ==> result is Err
                    && result->Err_0 is StorageInvariant
                &&& s.last_consumer_id < i64::MAX && end >= 0 ==> {
                    &&& result is Ok
                    &&& result->Ok_0@.id == s.last_consumer_id + 1
                    &&& t.last_consumer_id == s.last_consumer_id + 1
                    &&& t.consumers.len() == n + 1
                    &&& forall|i: int| 0 <= i < n ==> #[trigger] t.consumers[i] == s.consumers[i]
                    &&& t.consumers[n].id == s.last_consumer_id + 1
                    &&& t.consumers[n].name == builder@.name
                    &&& t.consumers[n].filter == builder@.filter
                    &&& t.consumers[n].created_at_ms == now
                    &&& t.consumers[n].draining_at_ms is None
                    &&& t.consumers[n].drain_cursor is None
                    &&& t.consumers[n].scan_cursor == end
                    &&& t == (StoreView {
                        consumers: t.consumers,
                        last_consumer_id: t.last_consumer_id,
                        ..s
                    })
                }
            }
        }),
{
    let s = old(fan)@;
    assert forall|i: int|
        0 <= i < s.consumers.len() && (#[trigger] s.consumers[i]).name
            == builder@.name implies s.has_name(builder@.name) && s.named(builder@.name)
        == s.consumers[i] by {
        crate::invariants::lemma_named(s, i);
    }
}

/// A clock that cannot be read is reported, and nothing changes.
pub proof fn law_opening_needs_the_clock(
    builder: ConsumerBuilder,
    fan: &mut LiteFan,
    error: Error,
    result: Result<Consumer, Error>,
)
    requires
        builder@.name.len() > 0,
        call_ensures(ConsumerBuilder::open, (builder, fan, Err(error)), result),
    ensures
        result is Err,
        result->Err_0@ == error@,
        final(fan)@ == old(fan)@,
{
}

// Draining
/// Beginning to drain. An active consumer gets the reading of the clock and a
/// limit: no message that is there lies beyond it, it does not fall behind the
/// cursor, and it lies no further than the cursor or the last message. Its workers
/// are woken, and nothing else changes. A consumer that drains already is left as
/// it is, and one that is gone is reported.
pub proof fn law_draining_sets_a_limit(
    consumer: &Consumer,
    fan: &mut LiteFan,
    clock: Result<i64, Error>,
    result: Result<bool, Error>,
)
    requires
        old(fan)@.wf(),
        call_ensures(Consumer::begin_draining, (consumer, fan, clock), result),
    ensures
        ({
            let s = old(fan)@;
            let t = final(fan)@;
            &&& clock is Err ==> result is Err && result->Err_0@ == clock->Err_0@ && t == s
            &&& clock is Ok && (forall|i: int|
                0 <= i < s.consumers.len() ==> (#[trigger] s.consumers[i]).id != consumer@.id) ==> {
                &&& result matches Err(Error::ConsumerDeleted { name })
                &&& name@ == consumer@.name
                &&& t == s
            }
            &&& forall|i: int|
                0 <= i < s.consumers.len() && (#[trigger] s.consumers[i]).id == consumer@.id
                    && clock is Ok ==> {
                    let before = s.consumers[i];
                    let after = t.consumers[i];
                    &&& result is Ok
                    &&& result->Ok_0 <==> before.draining_at_ms is None
                    &&& before.draining_at_ms is Some ==> t == s
                    &&& before.draining_at_ms is None ==> {
                        &&& after.drain_cursor matches Some(limit)
                        &&& before.scan_cursor <= limit
                        &&& forall|k: int|
                            0 <= k < s.messages.len() ==> (#[trigger] s.messages[k]).id <= limit
                        &&& limit == before.scan_cursor || s.messages.len() > 0 && limit
                            == s.messages[s.messages.len() - 1].id
                            || s.messages.len() == 0 && limit == 0
                        &&& after == (ConsumerView {
                            draining_at_ms: Some(clock->Ok_0 as int),
                            drain_cursor: after.drain_cursor,
                            ..before
                        })
                        &&& t.consumers == s.consumers.update(i, after)
                        &&& t.wakeups == s.wakeups.push(WakeupView::Consumer(consumer@.id))
                        &&& t == (StoreView {
                            consumers: t.consumers,
                            wakeups: t.wakeups,
                            ..s
                        })
                    }
                }
        }),
{
    let s = old(fan)@;
    let t = final(fan)@;
    assert forall|i: int|
        0 <= i < s.consumers.len() && (#[trigger] s.consumers[i]).id
            == consumer@.id implies s.has_consumer(consumer@.id) && s.consumer_index(consumer@.id)
        == i by {
        crate::invariants::lemma_consumer(s, i);
    }
    assert forall|k: int| 0 <= k < s.messages.len() implies (#[trigger] s.messages[k]).id
        <= s.high_water() by {
        crate::invariants::lemma_high_water(s, k);
    }
    assert forall|i: int|
        0 <= i < s.consumers.len() && (#[trigger] s.consumers[i]).id == consumer@.id && clock is Ok
            && s.consumers[i].draining_at_ms is None implies t.consumers =~= s.consumers.update(
        i,
        t.consumers[i],
    ) by {}
}

// Deleting
/// Deleting a consumer. What it still has is its deliveries and the messages that
/// are ahead of it and meant for it. A drained consumer may be deleted with no
/// questions asked; one that is active or still has something needs the mode that
/// allows it, and archived deliveries need the mode that discards everything. What
/// is discarded is counted. The consumer goes with its deliveries and archive
/// entries, its workers are woken, and nothing else changes; where the deletion
/// is refused, nothing does.
pub proof fn law_deletion_takes_what_belongs_to_the_consumer(
    fan: &mut LiteFan,
    name: &str,
    mode: DeleteMode,
    result: Result<DeleteOutcome, Error>,
    i: int,
)
    requires
        old(fan)@.wf(),
        call_ensures(LiteFan::delete_consumer, (fan, name, mode), result),
        0 <= i < old(fan)@.consumers.len(),
        old(fan)@.consumers[i].name == name@,
    ensures
        ({
            let s = old(fan)@;
            let t = final(fan)@;
            let consumer = s.consumers[i];
            let id = consumer.id;
            let outstanding = s.deliveries.filter(
                |row: DeliveryRowView| row.consumer_id == id,
            ).len() + s.messages.filter(
                |message: MessageView|
                    {
                        &&& consumer.scan_cursor < message.id
                        &&& consumer.drain_cursor is None || message.id
                            <= consumer.drain_cursor->Some_0
                        &&& consumer.filter is None || message.topic == consumer.filter
                    },
            ).len();
            let archived = s.archives.filter(|row: ArchiveView| row.consumer_id == id).len();
            &&& result is Err ==> t == s
            &&& if outstanding > u64::MAX {
                result is Err && result->Err_0 is CounterOutOfRange
            } else if mode is DrainedOnly && consumer.draining_at_ms is None {
                result is Err && result->Err_0@ == (ErrorView::ConsumerNotDraining { name: name@ })
            } else if mode is DrainedOnly && outstanding > 0 {
                result is Err && result->Err_0@ == (ErrorView::ConsumerNotEmpty {
                    name: name@,
                    outstanding,
                })
            } else if !(mode is DiscardAll) && archived > 0 {
                result is Err && result->Err_0@ == (ErrorView::ConsumerHasArchives {
                    name: name@,
                    archived,
                })
            } else {
                &&& result is Ok
                &&& result->Ok_0.discarded_deliveries == outstanding
                &&& result->Ok_0.discarded_archives == archived
                &&& forall|row: ConsumerView| #[trigger]
                    t.consumers.contains(row) <==> s.consumers.contains(row) && row.id != id
                &&& forall|row: DeliveryRowView| #[trigger]
                    t.deliveries.contains(row) <==> s.deliveries.contains(row) && row.consumer_id
                        != id
                &&& forall|row: ArchiveView| #[trigger]
                    t.archives.contains(row) <==> s.archives.contains(row) && row.consumer_id != id
                &&& t == (StoreView {
                    consumers: t.consumers,
                    deliveries: t.deliveries,
                    archives: t.archives,
                    wakeups: s.wakeups.push(WakeupView::Consumer(id)),
                    ..s
                })
            }
        }),
{
    let s = old(fan)@;
    let t = final(fan)@;
    let consumer = s.consumers[i];
    let id = consumer.id;
    crate::invariants::lemma_named(s, i);
    let mine = |row: DeliveryRowView| row.consumer_id == id;
    let ahead = |message: MessageView|
        {
            &&& consumer.scan_cursor < message.id
            &&& consumer.drain_cursor is None || message.id <= consumer.drain_cursor->Some_0
            &&& consumer.filter is None || message.topic == consumer.filter
        };
    let own = |row: ArchiveView| row.consumer_id == id;
    seqs::lemma_filter_same(s.deliveries, mine, crate::model::belongs_to(id));
    seqs::lemma_filter_same(s.messages, ahead, consumer.wanted());
    seqs::lemma_filter_same(s.archives, own, crate::model::archived_by(id));
    if result is Ok {
        assert forall|row: ConsumerView| #[trigger]
            t.consumers.contains(row) <==> s.consumers.contains(row) && row.id != id by {
            seqs::lemma_filter_member(s.consumers, crate::model::other_than(id), row);
        }
        assert forall|row: DeliveryRowView| #[trigger]
            t.deliveries.contains(row) <==> s.deliveries.contains(row) && row.consumer_id != id by {
            seqs::lemma_filter_member(
                s.deliveries,
                crate::model::negate(crate::model::belongs_to(id)),
                row,
            );
        }
        assert forall|row: ArchiveView| #[trigger]
            t.archives.contains(row) <==> s.archives.contains(row) && row.consumer_id != id by {
            seqs::lemma_filter_member(
                s.archives,
                crate::model::negate(crate::model::archived_by(id)),
                row,
            );
        }
    }
}

/// A name without a consumer cannot be deleted, and nothing changes.
pub proof fn law_unknown_names_are_reported(
    fan: &mut LiteFan,
    name: &str,
    mode: DeleteMode,
    result: Result<DeleteOutcome, Error>,
)
    requires
        call_ensures(LiteFan::delete_consumer, (fan, name, mode), result),
        forall|i: int|
            0 <= i < old(fan)@.consumers.len() ==> (#[trigger] old(fan)@.consumers[i]).name
                != name@,
    ensures
        result is Err,
        result->Err_0@ == (ErrorView::ConsumerNotFound { name: name@ }),
        final(fan)@ == old(fan)@,
{
}

// Pruning
/// What pruning does to each message. It removes only messages from before the
/// given time that nobody has a use for: no delivery and no archive entry is of
/// them, and no consumer has them ahead and is meant to receive them, be it for
/// its filter or because it was draining before. And it removes every such
/// message, unless it has reached its limit with earlier ones. Nothing but
/// messages changes, and what is removed is counted.
pub proof fn law_pruning_removes_what_nobody_needs(
    fan: &mut LiteFan,
    prune: Prune,
    outcome: PruneOutcome,
    k: int,
)
    requires
        old(fan)@.wf(),
        call_ensures(
            LiteFan::prune_messages,
            (fan, prune),
            Ok::<PruneOutcome, Error>(outcome),
        ),
        0 <= k < old(fan)@.messages.len(),
    ensures
        ({
            let s = old(fan)@;
            let t = final(fan)@;
            let message = s.messages[k];
            let unneeded = {
                &&& message.published_at_ms < prune.before_ms
                &&& forall|a: int|
                    0 <= a < s.deliveries.len() ==> (#[trigger] s.deliveries[a]).message_id
                        != message.id
                &&& forall|a: int|
                    0 <= a < s.archives.len() ==> (#[trigger] s.archives[a]).message_id
                        != message.id
                &&& forall|i: int|
                    0 <= i < s.consumers.len() ==> {
                        ||| message.id <= (#[trigger] s.consumers[i]).scan_cursor
                        ||| s.consumers[i].drain_cursor is Some && message.id
                            > s.consumers[i].drain_cursor->Some_0
                        ||| s.consumers[i].filter is Some && message.topic
                            != s.consumers[i].filter
                    }
            };
            &&& t == (StoreView { messages: t.messages, ..s })
            &&& outcome.deleted_messages + t.messages.len() == s.messages.len()
            &&& outcome.deleted_messages <= prune.max_messages
            &&& forall|other: MessageView| #[trigger]
                t.messages.contains(other) ==> s.messages.contains(other)
            &&& !t.messages.contains(message) ==> unneeded
            &&& unneeded && t.messages.contains(message) ==> {
                &&& outcome.deleted_messages == prune.max_messages
                &&& forall|l: int|
                    0 <= l < s.messages.len() && !t.messages.contains(#[trigger] s.messages[l])
                        ==> s.messages[l].id < message.id
            }
        }),
{
    let s = old(fan)@;
    let t = final(fan)@;
    let max = prune.max_messages as nat;
    let before = prune.before_ms as int;
    let message = s.messages[k];
    let p = s.prunable(before);
    let rows = s.messages.filter(p);
    let doomed = s.doomed(before, max);
    crate::laws::retention::law_pruning_is_bounded(s, before, max);
    assert(s.messages.contains(message));
    assert(t.messages.contains(message) == !doomed.contains(message));
    lemma_removed(s, before, max);
    assert forall|other: MessageView| #[trigger] t.messages.contains(other) implies s.messages.contains(
        other,
    ) by {}
    if !t.messages.contains(message) {
        crate::invariants::lemma_doomed(s, before, max, message);
        assert forall|i: int| 0 <= i < s.consumers.len() implies {
            ||| message.id <= (#[trigger] s.consumers[i]).scan_cursor
            ||| s.consumers[i].drain_cursor is Some && message.id
                > s.consumers[i].drain_cursor->Some_0
            ||| s.consumers[i].filter is Some && message.topic != s.consumers[i].filter
        } by {
            assert(!s.consumers[i].wants(message));
        }
    }
    if p(message) && t.messages.contains(message) {
        seqs::lemma_filter_member(s.messages, p, message);
        let c = choose|c: int| 0 <= c < rows.len() && rows[c] == message;
        if rows.len() <= max {
            assert(doomed[c] == message);
        } else if c < max {
            assert(doomed[c] == message);
        }
        assert forall|l: int|
            0 <= l < s.messages.len() && !t.messages.contains(
                #[trigger] s.messages[l],
            ) implies s.messages[l].id < message.id by {
            assert(s.messages.contains(s.messages[l]));
            let d = choose|d: int| 0 <= d < doomed.len() && doomed[d] == s.messages[l];
            let (x, y) = seqs::lemma_filter_sources(s.messages, p, d, c);
            assert(s.messages[x].id < s.messages[y].id);
        }
    }
    assert((forall|a: int|
        0 <= a < s.deliveries.len() ==> (#[trigger] s.deliveries[a]).message_id != message.id) && (
    forall|a: int|
        0 <= a < s.archives.len() ==> (#[trigger] s.archives[a]).message_id != message.id) && (
    forall|i: int|
        0 <= i < s.consumers.len() ==> {
            ||| message.id <= (#[trigger] s.consumers[i]).scan_cursor
            ||| s.consumers[i].drain_cursor is Some && message.id
                > s.consumers[i].drain_cursor->Some_0
            ||| s.consumers[i].filter is Some && message.topic != s.consumers[i].filter
        }) ==> !s.is_referenced(message));
}

/// What is removed and what stays are all the messages.
proof fn lemma_removed(s: StoreView, before_ms: int, max: nat)
    requires
        s.messages_wf(),
    ensures
        s.doomed(before_ms, max).len() + s.pruned(before_ms, max).messages.len()
            == s.messages.len(),
{
    let p = s.prunable(before_ms);
    let doomed = s.doomed(before_ms, max);
    let gone = |message: MessageView| doomed.contains(message);
    let kept = crate::model::outside(doomed);
    crate::counting::lemma_filter_disjoint(s.messages, |message: MessageView| true, gone, kept);
    seqs::lemma_filter_all(s.messages, |message: MessageView| true);
    assert forall|i: int, j: int| 0 <= i < j < s.messages.len() implies #[trigger] s.messages[i]
        != #[trigger] s.messages[j] by {
        assert(s.messages[i].id < s.messages[j].id);
    }
    crate::counting::lemma_members_are_counted(s.messages, p, doomed.len() as int);
    assert(doomed =~= s.messages.filter(p).take(doomed.len() as int));
}

/// Pruning more than the limit allows is refused, and changes nothing.
pub proof fn law_pruning_is_refused(
    fan: &mut LiteFan,
    prune: Prune,
    result: Result<PruneOutcome, Error>,
)
    requires
        call_ensures(LiteFan::prune_messages, (fan, prune), result),
    ensures
        result is Ok <==> prune.max_messages <= old(fan)@.max_batch_size,
        result is Err ==> {
            &&& result matches Err(Error::BatchTooLarge { requested, maximum })
            &&& requested == prune.max_messages
            &&& maximum == old(fan)@.max_batch_size
            &&& final(fan)@ == old(fan)@
        },
{
}

/// Nobody keeps what was published too late for everyone. A message that is
/// published when every consumer either drains or does not receive its topic is
/// removed by the next pruning that has its time and stays below its limit.
pub proof fn law_late_messages_are_pruned(
    fan: &mut LiteFan,
    messages: &[Publish<'_>],
    now: i64,
    outcomes: Vec<PublishOutcome>,
    k: int,
    later_fan: &mut LiteFan,
    prune: Prune,
    outcome: PruneOutcome,
)
    requires
        old(fan)@.consistent(),
        messages@.len() > 0,
        call_ensures(
            LiteFan::publish_batch,
            (fan, messages, Ok(now)),
            Ok::<Vec<PublishOutcome>, Error>(outcomes),
        ),
        old(fan)@.messages.len() <= k < final(fan)@.messages.len(),
        forall|i: int|
            0 <= i < old(fan)@.consumers.len() ==> {
                ||| (#[trigger] old(fan)@.consumers[i]).draining_at_ms is Some
                ||| old(fan)@.consumers[i].filter is Some && old(fan)@.consumers[i].filter
                    != final(fan)@.messages[k].topic
            },
        old(later_fan)@ == final(fan)@,
        call_ensures(
            LiteFan::prune_messages,
            (later_fan, prune),
            Ok::<PruneOutcome, Error>(outcome),
        ),
        now < prune.before_ms,
        outcome.deleted_messages < prune.max_messages,
    ensures
        !final(later_fan)@.messages.contains(final(fan)@.messages[k]),
{
    let s = old(fan)@;
    let t = final(fan)@;
    let batch = seqs::views(messages@);
    let message = t.messages[k];
    crate::laws::publishing::law_publishing_appends(s, batch, now as int);
    crate::laws::publishing::law_publishing_keeps_consistency(s, batch, now as int);
    law_pruning_removes_what_nobody_needs(later_fan, prune, outcome, k);
    assert(message.id > s.last_message_id);
    assert forall|a: int| 0 <= a < t.deliveries.len() implies (
    #[trigger] t.deliveries[a]).message_id != message.id by {
        assert(s.is_copy(s.deliveries[a].consumer_id, s.deliveries[a].message_id));
        let m = choose|m: int|
            0 <= m < s.messages.len() && #[trigger] s.messages[m].id == s.deliveries[a].message_id;
        assert(s.messages[m].id <= s.last_message_id);
    }
    assert forall|a: int| 0 <= a < t.archives.len() implies (#[trigger] t.archives[a]).message_id
        != message.id by {
        assert(s.is_copy(s.archives[a].consumer_id, s.archives[a].message_id));
        let m = choose|m: int|
            0 <= m < s.messages.len() && #[trigger] s.messages[m].id == s.archives[a].message_id;
        assert(s.messages[m].id <= s.last_message_id);
    }
    assert forall|i: int| 0 <= i < t.consumers.len() implies {
        ||| message.id <= (#[trigger] t.consumers[i]).scan_cursor
        ||| t.consumers[i].drain_cursor is Some && message.id > t.consumers[i].drain_cursor->Some_0
        ||| t.consumers[i].filter is Some && message.topic != t.consumers[i].filter
    } by {
        assert(s.consumer_agrees(s.consumers[i]));
        assert(t.consumers[i] == s.consumers[i]);
    }
}

} // verus!
