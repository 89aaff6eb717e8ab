//! Times as milliseconds since the Unix epoch.

use vstd::prelude::*;
use crate::json::{Json, JsonV, opt_doc_ref};
use crate::text::{trim, trimmed};

verus! {

/// The instant that an RFC 3339 date-and-time text names, in milliseconds
/// since the epoch, or `None` where the text is no such value.
pub uninterp spec fn rfc3339_millis(text: Seq<char>) -> Option<int>;

/// `chrono::DateTime::parse_from_rfc3339` followed by `timestamp_millis`.
/// Trusted: the result is the named value `rfc3339_millis` of the text; what
/// chrono accepts and computes is not restated here.
#[verifier::external_body]
fn parse_rfc3339_millis(text: &str) -> (r: Option<i64>)
    ensures
        match r {
            Some(v) => rfc3339_millis(text@) == Some(v as int),
            None => rfc3339_millis(text@) is None,
        },
{
    match chrono::DateTime::parse_from_rfc3339(text) {
        Ok(dt) => Some(dt.timestamp_millis()),
        Err(_) => None,
    }
}

/// `SystemTime::now().duration_since(UNIX_EPOCH)` as whole milliseconds
/// (`Duration::as_millis`); none where the clock reads before the epoch.
/// Nothing is promised of the value.
#[verifier::external_body]
fn epoch_millis() -> (r: Option<u128>) {
    match std::time::SystemTime::now().duration_since(std::time::UNIX_EPOCH) {
        Ok(d) => Some(d.as_millis()),
        Err(_) => None,
    }
}

/// Milliseconds as an `i64`: the same number where it fits, none beyond
/// `i64::MAX`.
pub fn millis_to_i64(ms: u128) -> (r: Option<i64>)
    ensures
        match r {
            Some(t) => t as int == ms as int,
            None => ms > i64::MAX,
        },
{
    if ms <= 9223372036854775807u128 {
        Some(ms as i64)
    } else {
        None
    }
}

/// The current time in milliseconds since the epoch (`millis_to_i64` of what
/// the clock reads); none where the clock reads before the epoch or beyond
/// what an `i64` holds.
pub fn current_time_ms() -> (r: Option<i64>)
    ensures
        r matches Some(t) ==> t >= 0,
{
    match epoch_millis() {
        Some(ms) => millis_to_i64(ms),
        None => None,
    }
}

/// `i64::saturating_mul(raw, 1000)`.
pub open spec fn saturating_ms(raw: int) -> int {
    if raw * 1000 > i64::MAX {
        i64::MAX as int
    } else if raw * 1000 < i64::MIN {
        i64::MIN as int
    } else {
        raw * 1000
    }
}

/// The time that an index field holds, in milliseconds: an RFC 3339 text
/// (around white space) is parsed; an integer above 10^12 is taken as
/// milliseconds and any other integer as seconds; anything else reads 0.
pub open spec fn time_to_ms_spec(value: Option<JsonV>) -> int {
    match value {
        Some(JsonV::Str(t)) => match rfc3339_millis(trim(t)) {
            Some(ms) => ms,
            None => 0,
        },
        Some(JsonV::Int(raw)) => if raw > 1_000_000_000_000 {
            raw
        } else {
            saturating_ms(raw)
        },
        _ => 0,
    }
}

/// Converts a time field of a session index to epoch milliseconds; 0 where
/// it cannot be read.
pub fn time_to_ms(value: Option<&Json>) -> (r: i64)
    ensures
        r as int == time_to_ms_spec(opt_doc_ref(value)),
{
    match value {
        Some(Json::Str(text)) => {
            let t = trimmed(text.as_str());
            match parse_rfc3339_millis(t.as_str()) {
                Some(ms) => ms,
                None => 0,
            }
        },
        Some(Json::Int(raw)) => {
            let raw = *raw;
            if raw > 1_000_000_000_000 {
                raw
            } else {
                match raw.checked_mul(1000) {
                    Some(v) => v,
                    None => if raw >= 0 {
                        i64::MAX
                    } else {
                        i64::MIN
                    },
                }
            }
        },
        _ => 0,
    }
}

} // verus!
