//! The public failure contract.
use vstd::prelude::*;
use vstd::string::*;

use sqlx::Error as SqlxError;

verus! {

/// `sqlx::Error`, carried unopened by [`Error::Sqlx`].
#[verifier::external_type_specification]
#[verifier::external_body]
pub struct ExSqlxError(SqlxError);

/// Everything that an operation can report besides success.
#[derive(Debug)]
#[allow(inconsistent_fields)]
pub enum Error {
    Sqlx(SqlxError),
    BatchTooLarge { requested: usize, maximum: usize },
    ConsumerConfigurationMismatch { name: String },
    EmptyConsumerName,
    InvalidConfig(&'static str),
    InvalidPoll(&'static str),
    InvalidVisibilityTimeout,
    IncompatibleSchema,
    UnsupportedSchemaVersion { found: i64, maximum: i64 },
    IncompleteIdempotencyEntry,
    ConsumerDeleted { name: String },
    ConsumerNotFound { name: String },
    ConsumerNotDraining { name: String },
    ConsumerNotEmpty { name: String, outstanding: u64 },
    ConsumerHasArchives { name: String, archived: u64 },
    ClockBeforeUnixEpoch,
    DurationOutOfRange,
    CounterOutOfRange,
    StorageInvariant(&'static str),
}

/// [`Error`] with its strings read as character sequences.
#[allow(inconsistent_fields)]
pub enum ErrorView {
    Sqlx(SqlxError),
    BatchTooLarge { requested: nat, maximum: nat },
    ConsumerConfigurationMismatch { name: Seq<char> },
    EmptyConsumerName,
    InvalidConfig(Seq<char>),
    InvalidPoll(Seq<char>),
    InvalidVisibilityTimeout,
    IncompatibleSchema,
    UnsupportedSchemaVersion { found: int, maximum: int },
    IncompleteIdempotencyEntry,
    ConsumerDeleted { name: Seq<char> },
    ConsumerNotFound { name: Seq<char> },
    ConsumerNotDraining { name: Seq<char> },
    ConsumerNotEmpty { name: Seq<char>, outstanding: nat },
    ConsumerHasArchives { name: Seq<char>, archived: nat },
    ClockBeforeUnixEpoch,
    DurationOutOfRange,
    CounterOutOfRange,
    StorageInvariant(Seq<char>),
}

impl View for Error {
    type V = ErrorView;

    open spec fn view(&self) -> ErrorView {
        match *self {
            Error::Sqlx(error) => ErrorView::Sqlx(error),
            Error::BatchTooLarge { requested, maximum } => ErrorView::BatchTooLarge {
                requested: requested as nat,
                maximum: maximum as nat,
            },
            Error::ConsumerConfigurationMismatch { name } =>
                ErrorView::ConsumerConfigurationMismatch { name: name@ },
            Error::EmptyConsumerName => ErrorView::EmptyConsumerName,
            Error::InvalidConfig(message) => ErrorView::InvalidConfig(message@),
            Error::InvalidPoll(message) => ErrorView::InvalidPoll(message@),
            Error::InvalidVisibilityTimeout => ErrorView::InvalidVisibilityTimeout,
            Error::IncompatibleSchema => ErrorView::IncompatibleSchema,
            Error::UnsupportedSchemaVersion { found, maximum } =>
                ErrorView::UnsupportedSchemaVersion {
                    found: found as int,
                    maximum: maximum as int,
                },
            Error::IncompleteIdempotencyEntry => ErrorView::IncompleteIdempotencyEntry,
            Error::ConsumerDeleted { name } => ErrorView::ConsumerDeleted { name: name@ },
            Error::ConsumerNotFound { name } => ErrorView::ConsumerNotFound { name: name@ },
            Error::ConsumerNotDraining { name } => ErrorView::ConsumerNotDraining { name: name@ },
            Error::ConsumerNotEmpty { name, outstanding } => ErrorView::ConsumerNotEmpty {
                name: name@,
                outstanding: outstanding as nat,
            },
            Error::ConsumerHasArchives { name, archived } => ErrorView::ConsumerHasArchives {
                name: name@,
                archived: archived as nat,
            },
            Error::ClockBeforeUnixEpoch => ErrorView::ClockBeforeUnixEpoch,
            Error::DurationOutOfRange => ErrorView::DurationOutOfRange,
            Error::CounterOutOfRange => ErrorView::CounterOutOfRange,
            Error::StorageInvariant(message) => ErrorView::StorageInvariant(message@),
        }
    }
}

/// What `{:?}` prints for a string: the characters between double quotes, with
/// control characters, quotes and backslashes escaped.
pub uninterp spec fn quoted(name: Seq<char>) -> Seq<char>;

/// Debug formatting of a `str` by `std::fmt`. The contract only names the text,
/// a function of the string alone.
#[verifier::external_body]
fn quote(name: &str) -> (text: String)
    ensures
        text@ == quoted(name@),
{
    format!("{name:?}")
}

/// `Display` of `sqlx::Error`. Nothing is claimed of the text itself: it may quote
/// the operating system.
#[verifier::external_body]
pub(crate) fn describe_sqlx(error: &SqlxError) -> (text: String) {
    error.to_string()
}

/// The decimal digits of `n`, most significant first.
pub open spec fn decimal_text(n: nat) -> Seq<char>
    decreases n,
{
    if n < 10 {
        seq![(48 + n) as char]
    } else {
        decimal_text(n / 10).push((48 + n % 10) as char)
    }
}

/// The decimal digits of `n`, after a minus sign where it is negative.
pub open spec fn signed_text(n: int) -> Seq<char> {
    if n < 0 {
        seq!['-'] + decimal_text((-n) as nat)
    } else {
        decimal_text(n as nat)
    }
}

fn digit(n: u64) -> (text: &'static str)
    requires
        n < 10,
    ensures
        text@ == seq![(48 + n) as char],
{
    proof {
        reveal_strlit("0");
        reveal_strlit("1");
        reveal_strlit("2");
        reveal_strlit("3");
        reveal_strlit("4");
        reveal_strlit("5");
        reveal_strlit("6");
        reveal_strlit("7");
        reveal_strlit("8");
        reveal_strlit("9");
    }
    if n == 0 {
        "0"
    } else if n == 1 {
        "1"
    } else if n == 2 {
        "2"
    } else if n == 3 {
        "3"
    } else if n == 4 {
        "4"
    } else if n == 5 {
        "5"
    } else if n == 6 {
        "6"
    } else if n == 7 {
        "7"
    } else if n == 8 {
        "8"
    } else {
        "9"
    }
}

fn decimal(n: u64) -> (text: String)
    ensures
        text@ == decimal_text(n as nat),
    decreases n,
{
    if n < 10 {
        digit(n).to_owned()
    } else {
        let mut text = decimal(n / 10);
        text.append(digit(n % 10));
        text
    }
}

fn signed(n: i64) -> (text: String)
    ensures
        text@ == signed_text(n as int),
{
    if n >= 0 {
        decimal(n as u64)
    } else {
        proof {
            reveal_strlit("-");
        }
        let magnitude: i128 = -(n as i128);
        let mut text = "-".to_owned();
        text.append(decimal(magnitude as u64).as_str());
        text
    }
}

impl ErrorView {
    /// The message shown to people. Of a SQLite error this is what stands before
    /// the words of `sqlx`.
    pub open spec fn text(self) -> Seq<char> {
        match self {
            ErrorView::Sqlx(_) => "SQLite error: "@,
            ErrorView::BatchTooLarge { requested, maximum } => "batch contains "@ + decimal_text(
                requested,
            ) + " items; maximum is "@ + decimal_text(maximum),
            ErrorView::ConsumerConfigurationMismatch { name } => "consumer "@ + quoted(name)
                + " already exists with a different filter"@,
            ErrorView::EmptyConsumerName => "consumer name cannot be empty"@,
            ErrorView::InvalidConfig(message) => "invalid configuration: "@ + message,
            ErrorView::InvalidPoll(message) => "invalid poll: "@ + message,
            ErrorView::InvalidVisibilityTimeout =>
                "visibility timeout must be at least one millisecond"@,
            ErrorView::IncompatibleSchema =>
                "database contains an incompatible unversioned litefan schema"@,
            ErrorView::UnsupportedSchemaVersion { found, maximum } => "database schema version "@
                + signed_text(found) + " is newer than supported version "@ + signed_text(maximum),
            ErrorView::IncompleteIdempotencyEntry =>
                "idempotency ledger contains an incomplete entry"@,
            ErrorView::ConsumerDeleted { name } => "consumer "@ + quoted(name)
                + " has been deleted"@,
            ErrorView::ConsumerNotFound { name } => "consumer "@ + quoted(name)
                + " does not exist"@,
            ErrorView::ConsumerNotDraining { name } => "consumer "@ + quoted(name)
                + " is still active"@,
            ErrorView::ConsumerNotEmpty { name, outstanding } => "consumer "@ + quoted(name)
                + " still has "@ + decimal_text(outstanding) + " outstanding deliveries"@,
            ErrorView::ConsumerHasArchives { name, archived } => "consumer "@ + quoted(name)
                + " still has "@ + decimal_text(archived) + " archived deliveries"@,
            ErrorView::ClockBeforeUnixEpoch => "system clock is before the Unix epoch"@,
            ErrorView::DurationOutOfRange => "duration does not fit in SQLite milliseconds"@,
            ErrorView::CounterOutOfRange => "SQLite counter does not fit in the Rust type"@,
            ErrorView::StorageInvariant(message) => "storage invariant violated: "@ + message,
        }
    }
}

/// The message about a consumer whose quoted name is `quoted_name`.
pub fn consumer_text(quoted_name: &str, what: &str) -> (text: String)
    ensures
        text@ == "consumer "@ + quoted_name@ + what@,
{
    join("consumer ", quoted_name, what)
}

/// The message about a consumer that still has some deliveries.
pub fn remaining_text(quoted_name: &str, count: u64, kind: &str) -> (text: String)
    ensures
        text@ == "consumer "@ + quoted_name@ + " still has "@ + decimal_text(count as nat) + kind@,
{
    let mut text = consumer_text(quoted_name, " still has ");
    text.append(decimal(count).as_str());
    text.append(kind);
    text
}

/// `start`, then `middle`, then `end`, as one string.
fn join(start: &str, middle: &str, end: &str) -> (text: String)
    ensures
        text@ == start@ + middle@ + end@,
{
    let mut text = start.to_owned();
    text.append(middle);
    text.append(end);
    text
}

/// Whether `sqlx` describes the error in these words.
pub open(crate) spec fn describes(error: SqlxError, text: Seq<char>) -> bool {
    exists|described: String|
        #[trigger] call_ensures(describe_sqlx, (&error,), described) && described@ == text
}

/// The message of a SQLite error that `sqlx` describes in these words.
pub fn sqlite_text(described: &str) -> (text: String)
    ensures
        text@ == "SQLite error: "@ + described@,
{
    let mut text = "SQLite error: ".to_owned();
    text.append(described);
    text
}

impl Error {
    /// The message shown to people. That of a SQLite error ends in the words of
    /// `sqlx`, all of them and nothing else.
    pub fn to_string(&self) -> (text: String)
        ensures
            self matches Error::Sqlx(error) ==> exists|words: Seq<char>|
                #[trigger] describes(*error, words) && text@ == self@.text() + words,
            self@ !is Sqlx ==> text@ == self@.text(),
    {
        match self {
            Error::Sqlx(error) => {
                let words = describe_sqlx(error);
                assert(call_ensures(describe_sqlx, (error,), words));
                assert(describes(*error, words@));
                sqlite_text(words.as_str())
            },
            Error::BatchTooLarge { requested, maximum } => {
                let mut text = join(
                    "batch contains ",
                    decimal(*requested as u64).as_str(),
                    " items; maximum is ",
                );
                text.append(decimal(*maximum as u64).as_str());
                text
            },
            Error::ConsumerConfigurationMismatch { name } => consumer_text(
                quote(name.as_str()).as_str(),
                " already exists with a different filter",
            ),
            Error::EmptyConsumerName => "consumer name cannot be empty".to_owned(),
            Error::InvalidConfig(message) => {
                let mut text = "invalid configuration: ".to_owned();
                text.append(message);
                text
            },
            Error::InvalidPoll(message) => {
                let mut text = "invalid poll: ".to_owned();
                text.append(message);
                text
            },
            Error::InvalidVisibilityTimeout => {
                "visibility timeout must be at least one millisecond".to_owned()
            },
            Error::IncompatibleSchema => {
                "database contains an incompatible unversioned litefan schema".to_owned()
            },
            Error::UnsupportedSchemaVersion { found, maximum } => {
                let mut text = join(
                    "database schema version ",
                    signed(*found).as_str(),
                    " is newer than supported version ",
                );
                text.append(signed(*maximum).as_str());
                text
            },
            Error::IncompleteIdempotencyEntry => {
                "idempotency ledger contains an incomplete entry".to_owned()
            },
            Error::ConsumerDeleted { name } => consumer_text(
                quote(name.as_str()).as_str(),
                " has been deleted",
            ),
            Error::ConsumerNotFound { name } => consumer_text(
                quote(name.as_str()).as_str(),
                " does not exist",
            ),
            Error::ConsumerNotDraining { name } => consumer_text(
                quote(name.as_str()).as_str(),
                " is still active",
            ),
            Error::ConsumerNotEmpty { name, outstanding } => remaining_text(
                quote(name.as_str()).as_str(),
                *outstanding,
                " outstanding deliveries",
            ),
            Error::ConsumerHasArchives { name, archived } => remaining_text(
                quote(name.as_str()).as_str(),
                *archived,
                " archived deliveries",
            ),
            Error::ClockBeforeUnixEpoch => "system clock is before the Unix epoch".to_owned(),
            Error::DurationOutOfRange => "duration does not fit in SQLite milliseconds".to_owned(),
            Error::CounterOutOfRange => "SQLite counter does not fit in the Rust type".to_owned(),
            Error::StorageInvariant(message) => {
                let mut text = "storage invariant violated: ".to_owned();
                text.append(message);
                text
            },
        }
    }

    /// The SQLite error underneath, where there is one.
    pub fn source(&self) -> (cause: Option<&SqlxError>)
        ensures
            self matches Error::Sqlx(error) ==> cause == Some(error),
            self !is Sqlx ==> cause is None,
    {
        match self {
            Error::Sqlx(error) => Some(error),
            _ => None,
        }
    }
}

impl From<SqlxError> for Error {
    fn from(value: SqlxError) -> (error: Self) {
        Error::Sqlx(value)
    }
}

impl vstd::std_specs::convert::FromSpecImpl<SqlxError> for Error {
    open spec fn obeys_from_spec() -> bool {
        true
    }

    open spec fn from_spec(value: SqlxError) -> Self {
        Error::Sqlx(value)
    }
}

} // verus!
