//! Date handling. The feed writes absolute timestamps without a zone
//! designator; they are read as UTC by appending `Z` and parsing with the
//! `chrono` crate, and carried in the model as seconds since the epoch.
//!
//! What a zoned date text parses to is named by the uninterpreted function
//! `zoned_utc_timestamp_of`, a function of the text alone; `None` stands
//! for a malformed date. Appending the `Z` designator is this library's own
//! rule and is done in verified code.

use vstd::prelude::*;

use vstd::string::StringExecFns;

verus! {

/// The UTC timestamp, in seconds, that a date text carrying its own zone
/// designator denotes — or `None` when the text is not a well-formed date.
pub uninterp spec fn zoned_utc_timestamp_of(text: Seq<char>) -> Option<i64>;

/// Relies on chrono's `DateTime<Utc>` string parsing (a deterministic,
/// panic-free function of the text) and its `timestamp` accessor, which
/// counts seconds since the epoch.
#[verifier::external_body]
fn parse_zoned_utc_timestamp(text: &str) -> (r: Option<i64>)
    ensures
        r == zoned_utc_timestamp_of(text@),
{
    match text.parse::<chrono::DateTime<chrono::Utc>>() {
        Ok(d) => Some(d.timestamp()),
        Err(_) => None,
    }
}

/// The UTC timestamp, in seconds, that a feed date text denotes once the
/// `Z` designator is appended — or `None` when the text is not a
/// well-formed date.
pub open spec fn utc_timestamp_of(text: Seq<char>) -> Option<i64> {
    zoned_utc_timestamp_of(text + "Z"@)
}

/// Append the UTC designator to a feed date text and parse it.
pub(crate) fn parse_utc_timestamp(text: &str) -> (r: Option<i64>)
    ensures
        r == utc_timestamp_of(text@),
{
    let mut with_zone = String::from_str(text);
    with_zone.append("Z");
    parse_zoned_utc_timestamp(with_zone.as_str())
}

/// Relies on std's `SystemTime` clock, read as seconds since the epoch.
/// Both directions of `duration_since` are handled, so a clock set before
/// the epoch yields a negative timestamp instead of a panic. The clock
/// decides the result, so nothing is promised of it; callers must hold for
/// every value.
#[verifier::external_body]
pub(crate) fn now_timestamp() -> i64 {
    match std::time::SystemTime::now().duration_since(std::time::UNIX_EPOCH) {
        Ok(since) => since.as_secs() as i64,
        Err(before) => -(before.duration().as_secs() as i64),
    }
}

} // verus!
