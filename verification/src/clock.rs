//! The clock: the one place the library asks the outside world anything.
//!
//! The current time is rendered by chrono in the same 25-byte form the
//! ledger stores, then read back through the verified parser, so everything
//! past this point works on a checked [`Timestamp`].

use vstd::prelude::*;

use crate::codec::parse_timestamp;
use crate::timestamp::Timestamp;

verus! {

/// Relies on chrono's `Utc::now` and `DateTime::format` with the
/// `%Y-%m-%d %H:%M:%S %z` pattern, and on chrono-tz's `Europe::Berlin`
/// zone, to render the current wall-clock time in Berlin civil time.
/// Nothing is promised of a clock reading: every caller must check what
/// comes back.
#[verifier::external_body]
pub fn get_current_time() -> (r: String) {
    let now_utc: chrono::DateTime<chrono::Utc> = chrono::Utc::now();
    let now_berlin = now_utc.with_timezone(&chrono_tz::Europe::Berlin);
    now_berlin.format("%Y-%m-%d %H:%M:%S %z").to_string()
}

/// Reads the clock and parses what it rendered; `None` if the rendering
/// is not a canonical timestamp.  A `Some` is always a valid timestamp.
pub fn current_timestamp() -> (r: Option<Timestamp>)
    ensures
        match r {
            Some(ts) => ts.valid(),
            None => true,
        },
{
    let s = get_current_time();
    parse_timestamp(s.as_str().as_bytes())
}

} // verus!
