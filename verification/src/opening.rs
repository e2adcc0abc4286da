//! Opening a log on its stored rows.
use vstd::prelude::*;

use crate::api::{Config, MessageView};
use crate::error::{Error, ErrorView};
use crate::model::StoreView;
use crate::schema::{check_version, VERSION};
use crate::seqs;
use crate::storage::{same_bytes, LiteFan};
use crate::tables::{ArchiveView, ConsumerView, Stored};
use crate::time::validate_config;

verus! {

/// The highest identifier that a table has assigned: the recorded one, or that of
/// the last row where it is higher. An empty table starts from zero.
pub open spec fn last_assigned<A>(recorded: int, rows: Seq<A>, id: spec_fn(A) -> int) -> int {
    let highest = if rows.len() == 0 {
        0
    } else {
        id(rows.last())
    };
    if recorded < highest {
        highest
    } else {
        recorded
    }
}

/// The higher of the recorded identifier and that of the last row, or zero where
/// there is none.
fn higher(recorded: i64, last: Option<i64>) -> (id: i64)
    ensures
        id == recorded || id == (if last is Some { last->Some_0 } else { 0 }),
        id >= recorded,
        id >= (if last is Some { last->Some_0 } else { 0 }),
{
    let highest: i64 = match last {
        Some(id) => id,
        None => 0,
    };
    if recorded < highest {
        highest
    } else {
        recorded
    }
}

impl Stored {
    /// The log that the rows stand for under a configuration.
    pub open spec fn log(self, config: Config) -> StoreView {
        StoreView {
            max_batch_size: config.max_batch_size as nat,
            poll_interval_nanos: crate::time::duration_nanos(config.cross_process_poll_interval),
            idempotency_window_ms: crate::time::whole_ms(config.idempotency_window) as int,
            messages: seqs::views(self.messages@),
            consumers: seqs::views(self.consumers@),
            deliveries: seqs::views(self.deliveries@),
            ledger: seqs::views(self.ledger@),
            archives: seqs::views(self.archives@),
            last_message_id: last_assigned(
                self.last_message_id as int,
                seqs::views(self.messages@),
                |row: MessageView| row.id,
            ),
            last_consumer_id: last_assigned(
                self.last_consumer_id as int,
                seqs::views(self.consumers@),
                |row: ConsumerView| row.id,
            ),
            last_archive_id: last_assigned(
                self.last_archive_id as int,
                seqs::views(self.archives@),
                |row: ArchiveView| row.id,
            ),
            wakeups: Seq::empty(),
        }
    }

    /// Why a log cannot be opened. Rows are refused only where they break a key, a
    /// unique column or a check of their table, which no database lets happen.
    pub open spec fn open_error(self, config: Config) -> Option<ErrorView> {
        match crate::time::config_problem(config) {
            Some(problem) => Some(ErrorView::InvalidConfig(problem)),
            None => if self.schema_version > VERSION {
                Some(
                    ErrorView::UnsupportedSchemaVersion {
                        found: self.schema_version as int,
                        maximum: VERSION as int,
                    },
                )
            } else if !self.log(config).wf() {
                Some(ErrorView::StorageInvariant("the stored rows break a constraint"@))
            } else {
                None
            },
        }
    }
}

impl LiteFan {
    /// Open a log with the default configuration.
    pub fn open(stored: Stored) -> (result: Result<LiteFan, Error>)
        ensures
            exists|config: Config|
                {
                    &&& call_ensures(<Config as Default>::default, (), config)
                    &&& match #[trigger] stored.open_error(config) {
                        Some(error) => result is Err && result->Err_0@ == error,
                        None => {
                            &&& result is Ok
                            &&& result->Ok_0@ == stored.log(config)
                            &&& result->Ok_0@.wf()
                        },
                    }
                },
    {
        let config = Config::default();
        let ghost chosen = config;
        let result = Self::open_with_config(stored, config);
        assert(call_ensures(<Config as Default>::default, (), chosen));
        result
    }

    /// Open a log on its stored rows.
    pub fn open_with_config(stored: Stored, config: Config) -> (result: Result<LiteFan, Error>)
        ensures
            match stored.open_error(config) {
                Some(error) => result is Err && result->Err_0@ == error,
                None => {
                    &&& result is Ok
                    &&& result->Ok_0@ == stored.log(config)
                    &&& result->Ok_0@.wf()
                },
            },
    {
        match validate_config(&config) {
            Ok(()) => {},
            Err(error) => {
                return Err(error);
            },
        }
        match check_version(stored.schema_version) {
            Ok(_) => {},
            Err(error) => {
                return Err(error);
            },
        }
        let window_ms: u128 = config.idempotency_window.as_millis();
        let last_message: Option<i64> = if stored.messages.len() > 0 {
            Some(stored.messages[stored.messages.len() - 1].id)
        } else {
            None
        };
        let last_consumer: Option<i64> = if stored.consumers.len() > 0 {
            Some(stored.consumers[stored.consumers.len() - 1].id)
        } else {
            None
        };
        let last_archive: Option<i64> = if stored.archives.len() > 0 {
            Some(stored.archives[stored.archives.len() - 1].id)
        } else {
            None
        };
        let fan = LiteFan {
            max_batch_size: config.max_batch_size,
            cross_process_poll_interval: config.cross_process_poll_interval,
            idempotency_window_ms: window_ms as i64,
            messages: stored.messages,
            consumers: stored.consumers,
            deliveries: stored.deliveries,
            ledger: stored.ledger,
            archives: stored.archives,
            last_message_id: higher(stored.last_message_id, last_message),
            last_consumer_id: higher(stored.last_consumer_id, last_consumer),
            last_archive_id: higher(stored.last_archive_id, last_archive),
            wakeups: Vec::new(),
        };
        assert(fan@ =~= stored.log(config));
        if fan.messages_hold() && fan.consumers_hold() && fan.deliveries_hold()
            && fan.ledger_holds() && fan.archives_hold() {
            Ok(fan)
        } else {
            Err(Error::StorageInvariant("the stored rows break a constraint"))
        }
    }

    fn messages_hold(&self) -> (hold: bool)
        ensures
            hold == self@.messages_wf(),
    {
        let ghost store = self@;
        let mut i: usize = 0;
        while i < self.messages.len()
            invariant
                i <= self.messages@.len(),
                store == self@,
                forall|j: int|
                    0 <= j < i ==> #[trigger] store.messages[j].id <= store.last_message_id,
                forall|j: int, k: int|
                    0 <= j < k < i ==> #[trigger] store.messages[j].id
                        < #[trigger] store.messages[k].id,
            decreases self.messages@.len() - i,
        {
            let id: i64 = self.messages[i].id;
            assert(store.messages[i as int].id == id);
            if id > self.last_message_id {
                return false;
            }
            if i > 0 {
                assert(store.messages[i - 1].id == self.messages@[i - 1].id);
                if self.messages[i - 1].id >= id {
                    assert(!(store.messages[i - 1].id < store.messages[i as int].id));
                    return false;
                }
            }
            i += 1;
        }
        true
    }

    fn consumers_hold(&self) -> (hold: bool)
        ensures
            hold == self@.consumers_wf(),
    {
        let ghost store = self@;
        let mut i: usize = 0;
        while i < self.consumers.len()
            invariant
                i <= self.consumers@.len(),
                store == self@,
                forall|j: int| 0 <= j < i ==> store.consumer_wf(#[trigger] store.consumers[j]),
                forall|j: int, k: int|
                    0 <= j < k < i ==> #[trigger] store.consumers[j].id
                        < #[trigger] store.consumers[k].id,
                forall|j: int, k: int|
                    0 <= j < k < i ==> #[trigger] store.consumers[j].name
                        != #[trigger] store.consumers[k].name,
            decreases self.consumers@.len() - i,
        {
            let row = &self.consumers[i];
            assert(store.consumers[i as int] == row@);
            let limit_holds = match row.drain_cursor {
                Some(limit) => row.scan_cursor <= limit,
                None => true,
            };
            if row.id > self.last_consumer_id || row.scan_cursor < 0 || !limit_holds {
                assert(!store.consumer_wf(store.consumers[i as int]));
                return false;
            }
            if i > 0 {
                assert(store.consumers[i - 1].id == self.consumers@[i - 1].id);
                if self.consumers[i - 1].id >= row.id {
                    assert(!(store.consumers[i - 1].id < store.consumers[i as int].id));
                    return false;
                }
            }
            let mut j: usize = 0;
            while j < i
                invariant
                    j <= i,
                    i < self.consumers@.len(),
                    store == self@,
                    *row == self.consumers@[i as int],
                    forall|k: int|
                        0 <= k < j ==> #[trigger] store.consumers[k].name
                            != store.consumers[i as int].name,
                decreases i - j,
            {
                assert(store.consumers[j as int].name == self.consumers@[j as int].name@);
                if self.consumers[j].name == row.name {
                    assert(store.consumers[j as int].name == store.consumers[i as int].name);
                    return false;
                }
                j += 1;
            }
            i += 1;
        }
        true
    }

    fn deliveries_hold(&self) -> (hold: bool)
        ensures
            hold == self@.deliveries_wf(),
    {
        let ghost store = self@;
        let mut i: usize = 0;
        while i < self.deliveries.len()
            invariant
                i <= self.deliveries@.len(),
                store == self@,
                forall|j: int|
                    0 <= j < i ==> {
                        let row = #[trigger] store.deliveries[j];
                        &&& 0 <= row.generation
                        &&& 0 <= row.delivery_count
                    },
                forall|j: int, k: int|
                    0 <= j < k < i ==> {
                        ||| #[trigger] store.deliveries[j].consumer_id
                            != #[trigger] store.deliveries[k].consumer_id
                        ||| store.deliveries[j].message_id != store.deliveries[k].message_id
                    },
            decreases self.deliveries@.len() - i,
        {
            let row = self.deliveries[i];
            assert(store.deliveries[i as int] == row@);
            if row.generation < 0 || row.delivery_count < 0 {
                return false;
            }
            let mut j: usize = 0;
            while j < i
                invariant
                    j <= i,
                    i < self.deliveries@.len(),
                    store == self@,
                    row == self.deliveries@[i as int],
                    forall|k: int|
                        0 <= k < j ==> {
                            ||| #[trigger] store.deliveries[k].consumer_id
                                != store.deliveries[i as int].consumer_id
                            ||| store.deliveries[k].message_id
                                != store.deliveries[i as int].message_id
                        },
                decreases i - j,
            {
                let other = self.deliveries[j];
                assert(store.deliveries[j as int] == other@);
                if other.consumer_id == row.consumer_id && other.message_id == row.message_id {
                    assert(store.deliveries[j as int].consumer_id
                        == store.deliveries[i as int].consumer_id);
                    return false;
                }
                j += 1;
            }
            i += 1;
        }
        true
    }

    fn ledger_holds(&self) -> (holds: bool)
        ensures
            holds == self@.ledger_wf(),
    {
        let ghost store = self@;
        let mut i: usize = 0;
        while i < self.ledger.len()
            invariant
                i <= self.ledger@.len(),
                store == self@,
                forall|j: int, k: int|
                    0 <= j < k < i ==> #[trigger] store.ledger[j].key
                        != #[trigger] store.ledger[k].key,
            decreases self.ledger@.len() - i,
        {
            let row = &self.ledger[i];
            assert(store.ledger[i as int] == row@);
            let mut j: usize = 0;
            while j < i
                invariant
                    j <= i,
                    i < self.ledger@.len(),
                    store == self@,
                    *row == self.ledger@[i as int],
                    forall|k: int|
                        0 <= k < j ==> #[trigger] store.ledger[k].key
                            != store.ledger[i as int].key,
                decreases i - j,
            {
                assert(store.ledger[j as int].key == self.ledger@[j as int].key@);
                if same_bytes(self.ledger[j].key.as_slice(), row.key.as_slice()) {
                    assert(store.ledger[j as int].key == store.ledger[i as int].key);
                    return false;
                }
                j += 1;
            }
            i += 1;
        }
        true
    }

    fn archives_hold(&self) -> (hold: bool)
        ensures
            hold == self@.archives_wf(),
    {
        let ghost store = self@;
        let mut i: usize = 0;
        while i < self.archives.len()
            invariant
                i <= self.archives@.len(),
                store == self@,
                forall|j: int|
                    0 <= j < i ==> {
                        let row = #[trigger] store.archives[j];
                        &&& row.id <= store.last_archive_id
                        &&& 0 <= row.generation
                        &&& 0 <= row.delivery_count
                    },
                forall|j: int, k: int|
                    0 <= j < k < i ==> #[trigger] store.archives[j].id
                        < #[trigger] store.archives[k].id,
                forall|j: int, k: int|
                    0 <= j < k < i ==> {
                        ||| #[trigger] store.archives[j].consumer_id
                            != #[trigger] store.archives[k].consumer_id
                        ||| store.archives[j].message_id != store.archives[k].message_id
                    },
            decreases self.archives@.len() - i,
        {
            let row = &self.archives[i];
            assert(store.archives[i as int] == row@);
            if row.id > self.last_archive_id || row.generation < 0 || row.delivery_count < 0 {
                return false;
            }
            if i > 0 {
                assert(store.archives[i - 1].id == self.archives@[i - 1].id);
                if self.archives[i - 1].id >= row.id {
                    assert(!(store.archives[i - 1].id < store.archives[i as int].id));
                    return false;
                }
            }
            let mut j: usize = 0;
            while j < i
                invariant
                    j <= i,
                    i < self.archives@.len(),
                    store == self@,
                    *row == self.archives@[i as int],
                    forall|k: int|
                        0 <= k < j ==> {
                            ||| #[trigger] store.archives[k].consumer_id
                                != store.archives[i as int].consumer_id
                            ||| store.archives[k].message_id
                                != store.archives[i as int].message_id
                        },
                decreases i - j,
            {
                let other = &self.archives[j];
                assert(store.archives[j as int] == other@);
                if other.consumer_id == row.consumer_id && other.message_id == row.message_id {
                    assert(store.archives[j as int].consumer_id
                        == store.archives[i as int].consumer_id);
                    return false;
                }
                j += 1;
            }
            i += 1;
        }
        true
    }
}

} // verus!
