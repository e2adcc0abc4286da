//! The version of the stored tables.
use vstd::prelude::*;

use crate::error::{Error, ErrorView};

verus! {

/// The version that this library reads and writes.
pub const VERSION: i64 = 2;

/// Accepts the version that a database carries, and tells whether it has to be
/// stamped with the current one.
pub fn check_version(found: i64) -> (result: Result<bool, Error>)
    ensures
        match result {
            Ok(stamp) => found <= VERSION && stamp == (found < VERSION),
            Err(error) => found > VERSION && error@ == (ErrorView::UnsupportedSchemaVersion {
                found: found as int,
                maximum: VERSION as int,
            }),
        },
{
    if found > VERSION {
        Err(Error::UnsupportedSchemaVersion { found, maximum: VERSION })
    } else {
        Ok(found < VERSION)
    }
}

} // verus!
