//! Values: what settings, times and messages to people are, number by number.
use std::time::Duration;

use vstd::prelude::*;

use crate::api::{
    Config, ConsumerSnapshot, ConsumerState, Delivery, Filter, ListArchives, Message, MessageId,
    Poll, Publish, PublishOutcome, Receipt, Retry, Synchronous,
};
use crate::consumer::{Claim, Consumer, ConsumerBuilder, PollStep};
use crate::error::Error;
use crate::storage::LiteFan;
use crate::tables::{ArchiveRow, ConsumerRow, DeliveryRow, LedgerRow, MessageRow, Stored};
use crate::time::Span;

verus! {

// Settings
/// The settings that callers get who do not choose any.
pub proof fn law_default_settings(config: Config, poll: Poll, list: ListArchives)
    requires
        call_ensures(<Config as Default>::default, (), config),
        call_ensures(<Poll as Default>::default, (), poll),
        call_ensures(<ListArchives as Default>::default, (), list),
    ensures
        config.max_connections == 4,
        config.max_batch_size == 500,
        crate::time::duration_nanos(config.busy_timeout) == 5 * 1_000_000_000,
        config.synchronous == Synchronous::Normal,
        config.wal_autocheckpoint_pages == 1_000,
        crate::time::duration_nanos(config.cross_process_poll_interval) == 250 * 1_000_000,
        crate::time::duration_nanos(config.idempotency_window) == 24 * 60 * 60 * 1_000_000_000,
        poll.max_messages == 100,
        crate::time::duration_nanos(poll.visibility_timeout) == 30 * 1_000_000_000,
        crate::time::duration_nanos(poll.wait) == 20 * 1_000_000_000,
        list.after is None,
        list.max_archives == 100,
{
}

/// A database in memory has one connection, any other as many as are configured.
pub proof fn law_memory_has_one_connection(config: &Config, in_memory: bool, connections: u32)
    requires
        call_ensures(Config::connections, (config, in_memory), connections),
    ensures
        in_memory ==> connections == 1,
        !in_memory ==> connections == config.max_connections,
{
}

/// A message to publish carries what it was given, and each part is given
/// independently of the others.
pub proof fn law_publishes_carry_what_they_are_given<'a>(
    body: &'a [u8],
    topic: &'a str,
    key: &'a [u8],
    plain: Publish<'a>,
    with_topic: Publish<'a>,
    with_key: Publish<'a>,
)
    requires
        call_ensures(Publish::new, (body,), plain),
        call_ensures(Publish::with_topic, (plain, topic), with_topic),
        call_ensures(Publish::with_idempotency_key, (with_topic, key), with_key),
    ensures
        plain@.body == body@,
        plain@.topic is None,
        plain@.idempotency_key is None,
        with_topic@.body == body@,
        with_topic@.topic == Some(topic@),
        with_topic@.idempotency_key is None,
        with_key@.body == body@,
        with_key@.topic == Some(topic@),
        with_key@.idempotency_key == Some(key@),
{
}

/// What a snapshot tells of a consumer's progress.
pub proof fn law_progress_of_a_consumer(
    snapshot: &ConsumerSnapshot,
    empty: bool,
    drained: bool,
    hidden: u64,
)
    requires
        call_ensures(ConsumerSnapshot::is_empty, (snapshot,), empty),
        call_ensures(ConsumerSnapshot::is_drained, (snapshot,), drained),
        call_ensures(ConsumerSnapshot::not_ready, (snapshot,), hidden),
    ensures
        empty <==> snapshot.outstanding == 0,
        drained <==> snapshot.outstanding == 0 && snapshot.state == ConsumerState::Draining,
        snapshot.ready <= snapshot.outstanding ==> hidden + snapshot.ready == snapshot.outstanding,
        snapshot.ready > snapshot.outstanding ==> hidden == 0,
{
}

// Times
/// A duration is stored in whole milliseconds, and what is left over is dropped.
pub proof fn law_durations_are_whole_milliseconds(
    duration: Duration,
    result: Result<i64, Error>,
)
    requires
        call_ensures(crate::time::duration_ms, (duration,), result),
    ensures
        ({
            let nanos = crate::time::duration_nanos(duration);
            &&& result is Ok ==> result->Ok_0 >= 0 && result->Ok_0 * 1_000_000 <= nanos < (
            result->Ok_0 + 1) * 1_000_000
            &&& result is Err ==> result->Err_0 is DurationOutOfRange && nanos >= (i64::MAX + 1)
                * 1_000_000
        }),
{
}

/// Moving a timestamp forward adds exactly the whole milliseconds of the duration,
/// wherever the sum can be stored.
pub proof fn law_timestamps_move_by_whole_milliseconds(
    timestamp_ms: i64,
    duration: Duration,
    result: Result<i64, Error>,
)
    requires
        call_ensures(crate::time::add_duration, (timestamp_ms, duration), result),
    ensures
        ({
            let nanos = crate::time::duration_nanos(duration);
            &&& result is Ok ==> (result->Ok_0 - timestamp_ms) * 1_000_000 <= nanos < (result->Ok_0
                - timestamp_ms + 1) * 1_000_000
            &&& result is Err ==> result->Err_0 is DurationOutOfRange && (nanos >= (i64::MAX + 1)
                * 1_000_000 || nanos >= (i64::MAX - timestamp_ms + 1) * 1_000_000)
        }),
{
}

/// What is left until a time is the distance to it, and nothing once it is past.
pub proof fn law_what_is_left_until_a_time(timestamp_ms: i64, now: i64, remaining: Duration)
    requires
        call_ensures(crate::time::duration_until_ms, (timestamp_ms, now), remaining),
    ensures
        timestamp_ms >= now ==> crate::time::duration_nanos(remaining) == (timestamp_ms - now)
            * 1_000_000,
        timestamp_ms < now ==> crate::time::duration_nanos(remaining) == 0,
{
}

/// A reading of the clock is the whole milliseconds since the epoch. One from
/// before the epoch, or too far after it, is reported.
pub proof fn law_readings_are_milliseconds_since_the_epoch(
    since_epoch: Option<Duration>,
    result: Result<i64, Error>,
)
    requires
        call_ensures(crate::time::unix_ms, (since_epoch,), result),
    ensures
        match since_epoch {
            None => result is Err && result->Err_0 is ClockBeforeUnixEpoch,
            Some(duration) => {
                let nanos = crate::time::duration_nanos(duration);
                &&& result is Ok ==> result->Ok_0 * 1_000_000 <= nanos < (result->Ok_0 + 1)
                    * 1_000_000
                &&& result is Err ==> result->Err_0 is DurationOutOfRange && nanos >= (i64::MAX
                    + 1) * 1_000_000
            },
        },
{
}

/// What is asked for from now on, checked before any row is looked at: how long a
/// delay and a timeout last, and when a key expires.
pub proof fn law_spans_start_at_the_clock(
    fan: &LiteFan,
    requested: usize,
    retry: Retry,
    timeout: Duration,
    now: i64,
    released: Result<Span, Error>,
    extended: Result<Span, Error>,
)
    requires
        call_ensures(LiteFan::release_span, (fan, requested, retry, Ok(now)), released),
        call_ensures(LiteFan::extension_span, (fan, requested, timeout, Ok(now)), extended),
    ensures
        ({
            let delay_ms = match retry {
                Retry::Immediately => 0,
                Retry::After(delay) => crate::time::duration_nanos(delay) / 1_000_000,
            };
            let timeout_ms = crate::time::duration_nanos(timeout) / 1_000_000;
            let fits = requested <= fan@.max_batch_size;
            &&& released is Ok <==> fits && delay_ms <= i64::MAX && now + delay_ms <= i64::MAX
            &&& released is Ok ==> released->Ok_0.now == now && released->Ok_0.until == now
                + delay_ms
            &&& extended is Ok <==> fits && 0 < timeout_ms <= i64::MAX && now + timeout_ms
                <= i64::MAX
            &&& extended is Ok ==> extended->Ok_0.now == now && extended->Ok_0.until == now
                + timeout_ms
        }),
{
}

/// A publish starts at the clock, and its keys expire when the window has passed.
pub proof fn law_publish_spans_cover_the_window(
    fan: &LiteFan,
    messages: &[Publish<'_>],
    now: i64,
    result: Result<Span, Error>,
)
    requires
        fan@.wf(),
        call_ensures(LiteFan::publish_span, (fan, messages, Ok(now)), result),
    ensures
        ({
            let keyed = exists|m: int|
                0 <= m < messages@.len() && (#[trigger] messages@[m])@.idempotency_key is Some;
            &&& result is Ok <==> messages@.len() <= fan@.max_batch_size && (keyed ==> now
                + fan@.idempotency_window_ms <= i64::MAX)
            &&& result is Ok ==> result->Ok_0.now == now
            &&& result is Ok && keyed ==> result->Ok_0.until == now + fan@.idempotency_window_ms
        }),
{
    let batch = crate::seqs::views(messages@);
    assert(batch.len() == messages@.len());
    if crate::model::has_keys(batch) {
        let m = choose|m: int| 0 <= m < batch.len() && #[trigger] batch[m].idempotency_key is Some;
        assert(messages@[m]@.idempotency_key is Some);
    }
    if exists|m: int|
        0 <= m < messages@.len() && (#[trigger] messages@[m])@.idempotency_key is Some {
        let m = choose|m: int|
            0 <= m < messages@.len() && (#[trigger] messages@[m])@.idempotency_key is Some;
        assert(batch[m].idempotency_key is Some);
    }
}

/// A lease lasts for the whole milliseconds of the visibility timeout.
pub proof fn law_leases_last_for_the_timeout(
    fan: &LiteFan,
    poll: Poll,
    deadline_fits: bool,
    result: Result<i64, Error>,
)
    requires
        call_ensures(LiteFan::lease_ms, (fan, poll, deadline_fits), result),
    ensures
        ({
            let timeout_ms = crate::time::duration_nanos(poll.visibility_timeout) / 1_000_000;
            &&& result is Ok <==> deadline_fits && poll.max_messages <= fan@.max_batch_size && 0
                < timeout_ms <= i64::MAX
            &&& result is Ok ==> result->Ok_0 == timeout_ms
        }),
{
}

/// A version is accepted up to the current one, and stamped where it is older.
pub proof fn law_versions_are_checked(found: i64, result: Result<bool, Error>)
    requires
        call_ensures(crate::schema::check_version, (found,), result),
    ensures
        result is Ok <==> found <= 2,
        result is Ok ==> result->Ok_0 == (found < 2),
        result is Err ==> {
            &&& result matches Err(Error::UnsupportedSchemaVersion { found: version, maximum })
            &&& version == found
            &&& maximum == 2
        },
{
}

// Messages to people
/// A number is shown in decimal: a digit for what is below ten, and otherwise the
/// digits of its tenth part followed by the one for the rest.
pub proof fn law_numbers_are_decimal(n: nat, digit: nat)
    requires
        digit < 10,
    ensures
        crate::error::decimal_text(digit).len() == 1,
        crate::error::decimal_text(digit)[0] == ('0' as u32 + digit) as char,
        n > 0 ==> crate::error::decimal_text(10 * n + digit) == crate::error::decimal_text(n)
            + crate::error::decimal_text(digit),
        n > 0 ==> crate::error::signed_text(-(n as int)) == seq!['-'] + crate::error::decimal_text(
            n,
        ),
        crate::error::signed_text(n as int) == crate::error::decimal_text(n),
{
    reveal_with_fuel(crate::error::decimal_text, 2);
    if n > 0 {
        let m = 10 * n + digit;
        assert(m / 10 == n && m % 10 == digit) by (nonlinear_arith)
            requires
                m == 10 * n + digit,
                digit < 10,
        ;
        assert(crate::error::decimal_text(m) =~= crate::error::decimal_text(n)
            + crate::error::decimal_text(digit));
    }
}

/// The message of each error, with its numbers and names in place.
pub proof fn law_errors_say_what_happened(error: &Error, text: String)
    requires
        call_ensures(Error::to_string, (error,), text),
    ensures
        match *error {
            Error::Sqlx(_) => "SQLite error: "@.is_prefix_of(text@),
            Error::BatchTooLarge { requested, maximum } => text@ == "batch contains "@
                + crate::error::decimal_text(requested as nat) + " items; maximum is "@
                + crate::error::decimal_text(maximum as nat),
            Error::ConsumerConfigurationMismatch { name } => text@ == "consumer "@
                + crate::error::quoted(name@) + " already exists with a different filter"@,
            Error::EmptyConsumerName => text@ == "consumer name cannot be empty"@,
            Error::InvalidConfig(message) => text@ == "invalid configuration: "@ + message@,
            Error::InvalidPoll(message) => text@ == "invalid poll: "@ + message@,
            Error::InvalidVisibilityTimeout => text@
                == "visibility timeout must be at least one millisecond"@,
            Error::IncompatibleSchema => text@
                == "database contains an incompatible unversioned litefan schema"@,
            Error::UnsupportedSchemaVersion { found, maximum } => text@
                == "database schema version "@ + crate::error::signed_text(found as int)
                + " is newer than supported version "@ + crate::error::signed_text(
                maximum as int,
            ),
            Error::IncompleteIdempotencyEntry => text@
                == "idempotency ledger contains an incomplete entry"@,
            Error::ConsumerDeleted { name } => text@ == "consumer "@ + crate::error::quoted(name@)
                + " has been deleted"@,
            Error::ConsumerNotFound { name } => text@ == "consumer "@ + crate::error::quoted(name@)
                + " does not exist"@,
            Error::ConsumerNotDraining { name } => text@ == "consumer "@ + crate::error::quoted(
                name@,
            ) + " is still active"@,
            Error::ConsumerNotEmpty { name, outstanding } => text@ == "consumer "@
                + crate::error::quoted(name@) + " still has "@ + crate::error::decimal_text(
                outstanding as nat,
            ) + " outstanding deliveries"@,
            Error::ConsumerHasArchives { name, archived } => text@ == "consumer "@
                + crate::error::quoted(name@) + " still has "@ + crate::error::decimal_text(
                archived as nat,
            ) + " archived deliveries"@,
            Error::ClockBeforeUnixEpoch => text@ == "system clock is before the Unix epoch"@,
            Error::DurationOutOfRange => text@ == "duration does not fit in SQLite milliseconds"@,
            Error::CounterOutOfRange => text@ == "SQLite counter does not fit in the Rust type"@,
            Error::StorageInvariant(message) => text@ == "storage invariant violated: "@ + message@,
        },
{
}

// Handles and small values
/// Opening without a choice is opening under the default settings.
pub proof fn law_open_uses_the_defaults(stored: Stored, fan: LiteFan)
    requires
        call_ensures(LiteFan::open, (stored,), Ok::<LiteFan, Error>(fan)),
    ensures
        fan@.max_batch_size == 500,
        fan@.poll_interval_nanos == 250 * 1_000_000,
        fan@.idempotency_window_ms == 24 * 60 * 60 * 1_000,
        fan@.messages.len() == stored.messages@.len(),
        forall|k: int|
            0 <= k < stored.messages@.len() ==> fan@.messages[k] == (
            #[trigger] stored.messages@[k])@,
{
}

/// A builder keeps the name and takes the filter; a handle tells its identifier,
/// name and filter; a log tells its limit and refuses more than that.
pub proof fn law_handles_tell_what_they_are(
    builder: ConsumerBuilder,
    filter: Filter,
    filtered: ConsumerBuilder,
    consumer: &Consumer,
    id: i64,
    name: &str,
    consumer_filter: &Filter,
    fan: &LiteFan,
    limit: usize,
    requested: usize,
    allowed: Result<(), Error>,
)
    requires
        call_ensures(ConsumerBuilder::filter, (builder, filter), filtered),
        call_ensures(Consumer::id, (consumer,), id),
        call_ensures(Consumer::name, (consumer,), name),
        call_ensures(Consumer::filter, (consumer,), consumer_filter),
        call_ensures(LiteFan::max_batch_size, (fan,), limit),
        call_ensures(LiteFan::ensure_batch_size, (fan, requested), allowed),
    ensures
        filtered@.name == builder@.name,
        filtered@.filter == filter@,
        id == consumer@.id,
        name@ == consumer@.name,
        consumer_filter@ == consumer@.filter,
        limit == fan@.max_batch_size,
        allowed is Ok <==> requested <= limit,
        allowed is Err ==> {
            &&& allowed matches Err(Error::BatchTooLarge { requested: asked, maximum })
            &&& asked == requested
            &&& maximum == limit
        },
{
}

/// A filter for a topic lets through that topic alone, and is stored as it; the
/// filter for everything is stored as none.
pub proof fn law_filters_are_exact(filter: &Filter, value: Option<&str>, topic: Option<Seq<char>>)
    requires
        call_ensures(Filter::as_database_value, (filter,), value),
    ensures
        *filter is All ==> value is None && crate::model::topic_matches(filter@, topic),
        *filter matches Filter::Topic(wanted) ==> {
            &&& value is Some
            &&& value->Some_0@ == wanted@
            &&& crate::model::topic_matches(filter@, topic) <==> topic == Some(wanted@)
        },
{
}

/// An outcome names its message and tells whether it was stored just now.
pub proof fn law_outcomes_name_their_message(
    outcome: PublishOutcome,
    id: MessageId,
    published: bool,
    number: i64,
)
    requires
        call_ensures(PublishOutcome::id, (outcome,), id),
        call_ensures(PublishOutcome::is_published, (outcome,), published),
        call_ensures(MessageId::get, (id,), number),
    ensures
        published ==> outcome == (PublishOutcome::Published { id }),
        !published ==> outcome == (PublishOutcome::Duplicate { id }),
        number == id@,
{
}

/// A delivery gives the receipt that it carries, and a stored row becomes the
/// message and the receipt that it holds.
pub proof fn law_rows_and_receipts(
    delivery: &Delivery,
    receipt: Receipt,
    message_row: &MessageRow,
    message: Message,
    row: &DeliveryRow,
    current: Receipt,
)
    requires
        call_ensures(Delivery::receipt, (delivery,), receipt),
        call_ensures(MessageRow::to_message, (message_row,), message),
        call_ensures(DeliveryRow::receipt, (row,), current),
    ensures
        receipt@ == delivery@.receipt,
        message@.id == message_row.id,
        message@.body == message_row.body@,
        message@.published_at_ms == message_row.published_at_ms,
        message@.topic is Some <==> message_row.topic is Some,
        message_row.topic is Some ==> message@.topic == Some(message_row.topic->Some_0@),
        current@.consumer_id == row.consumer_id,
        current@.message_id == row.message_id,
        current@.generation == row.generation,
{
}

/// A released message waits for the delay that was asked for, and for none if
/// none was.
pub proof fn law_delays_are_what_was_asked(retry: Retry, delay: Duration)
    requires
        call_ensures(Retry::delay, (retry,), delay),
    ensures
        retry is Immediately ==> crate::time::duration_nanos(delay) == 0,
        retry matches Retry::After(asked) ==> delay == asked,
{
}

/// A poll goes on from a claim: it is over with what was claimed, or empty-handed
/// where a draining consumer has nothing more to wait for, and otherwise waits.
pub proof fn law_polls_go_on_from_a_claim(claim: Claim, step: PollStep)
    requires
        call_ensures(Claim::step, (claim,), step),
    ensures
        step is Return <==> claim.deliveries@.len() > 0 || claim.draining
            && claim.next_visible_at is None,
        step matches PollStep::Return(deliveries) ==> deliveries@ =~= claim.deliveries@,
        step matches PollStep::Wait { next_visible_at } ==> next_visible_at
            == claim.next_visible_at,
{
}

/// An error of SQLite is carried as it came.
pub proof fn law_causes_are_kept(error: &Error, cause: Option<&sqlx::Error>)
    requires
        call_ensures(Error::source, (error,), cause),
    ensures
        cause is Some <==> *error is Sqlx,
        *error matches Error::Sqlx(inner) ==> cause == Some(&inner),
{
}

/// The rows of a log can be read, table by table and in their order.
pub proof fn law_rows_can_be_read(
    fan: &LiteFan,
    messages: &Vec<MessageRow>,
    consumers: &Vec<ConsumerRow>,
    deliveries: &Vec<DeliveryRow>,
    ledger: &Vec<LedgerRow>,
    archives: &Vec<ArchiveRow>,
    k: int,
)
    requires
        call_ensures(LiteFan::messages, (fan,), messages),
        call_ensures(LiteFan::consumers, (fan,), consumers),
        call_ensures(LiteFan::deliveries, (fan,), deliveries),
        call_ensures(LiteFan::ledger, (fan,), ledger),
        call_ensures(LiteFan::archive_rows, (fan,), archives),
    ensures
        messages@.len() == fan@.messages.len(),
        0 <= k < messages@.len() ==> messages@[k]@ == fan@.messages[k],
        consumers@.len() == fan@.consumers.len(),
        0 <= k < consumers@.len() ==> consumers@[k]@ == fan@.consumers[k],
        deliveries@.len() == fan@.deliveries.len(),
        0 <= k < deliveries@.len() ==> deliveries@[k]@ == fan@.deliveries[k],
        ledger@.len() == fan@.ledger.len(),
        0 <= k < ledger@.len() ==> ledger@[k]@ == fan@.ledger[k],
        archives@.len() == fan@.archives.len(),
        0 <= k < archives@.len() ==> archives@[k]@ == fan@.archives[k],
{
    assert(crate::seqs::views(messages@).len() == messages@.len());
    assert(crate::seqs::views(consumers@).len() == consumers@.len());
    assert(crate::seqs::views(deliveries@).len() == deliveries@.len());
    assert(crate::seqs::views(ledger@).len() == ledger@.len());
    assert(crate::seqs::views(archives@).len() == archives@.len());
    if 0 <= k < messages@.len() {
        assert(crate::seqs::views(messages@)[k] == messages@[k]@);
    }
    if 0 <= k < consumers@.len() {
        assert(crate::seqs::views(consumers@)[k] == consumers@[k]@);
    }
    if 0 <= k < deliveries@.len() {
        assert(crate::seqs::views(deliveries@)[k] == deliveries@[k]@);
    }
    if 0 <= k < ledger@.len() {
        assert(crate::seqs::views(ledger@)[k] == ledger@[k]@);
    }
    if 0 <= k < archives@.len() {
        assert(crate::seqs::views(archives@)[k] == archives@[k]@);
    }
}

/// What a row says, number by number.
pub proof fn law_rows_say_what_they_hold(
    message: MessageRow,
    consumer: ConsumerRow,
    delivery: DeliveryRow,
    entry: LedgerRow,
    archive: ArchiveRow,
)
    ensures
        message@.id == message.id,
        message@.body == message.body@,
        message@.published_at_ms == message.published_at_ms,
        message.topic is Some ==> message@.topic == Some(message.topic->Some_0@),
        message.topic is None ==> message@.topic is None,
        consumer@.id == consumer.id,
        consumer@.name == consumer.name@,
        consumer@.filter == consumer.filter@,
        consumer@.created_at_ms == consumer.created_at_ms,
        consumer@.scan_cursor == consumer.scan_cursor,
        consumer.draining_at_ms is Some ==> consumer@.draining_at_ms == Some(
            consumer.draining_at_ms->Some_0 as int,
        ),
        consumer.draining_at_ms is None ==> consumer@.draining_at_ms is None,
        consumer.drain_cursor is Some ==> consumer@.drain_cursor == Some(
            consumer.drain_cursor->Some_0 as int,
        ),
        consumer.drain_cursor is None ==> consumer@.drain_cursor is None,
        delivery@.consumer_id == delivery.consumer_id,
        delivery@.message_id == delivery.message_id,
        delivery@.visible_at_ms == delivery.visible_at_ms,
        delivery@.generation == delivery.generation,
        delivery@.delivery_count == delivery.delivery_count,
        entry@.key == entry.key@,
        entry@.expires_at_ms == entry.expires_at_ms,
        entry.message_id is Some ==> entry@.message_id == Some(entry.message_id->Some_0 as int),
        entry.message_id is None ==> entry@.message_id is None,
        archive@.id == archive.id,
        archive@.consumer_id == archive.consumer_id,
        archive@.message_id == archive.message_id,
        archive@.generation == archive.generation,
        archive@.delivery_count == archive.delivery_count,
        archive@.archived_at_ms == archive.archived_at_ms,
        archive.detail is Some ==> archive@.detail == Some(archive.detail->Some_0@),
        archive.detail is None ==> archive@.detail is None,
{
}

} // verus!
