//! The wall clock and timestamp rendering, through chrono.
//!
//! Timestamps are plain milliseconds since the Unix epoch, clamped into a
//! range far wider than any real clock reading but safely inside what
//! chrono can render.

use vstd::prelude::*;

verus! {

/// Timestamps this library handles are bounded to one quadrillion
/// milliseconds either side of the Unix epoch (roughly thirty-one
/// thousand years), comfortably inside the range chrono represents.
pub const TIMESTAMP_LIMIT_MS: i64 = 1_000_000_000_000_000;

/// Relies on chrono's `Utc::now` and `DateTime::timestamp_millis`: the
/// current time as milliseconds since the Unix epoch. Nothing is assumed
/// of the value — the clock may read anything.
#[verifier::external_body]
fn now_millis_raw() -> i64 {
    chrono::Utc::now().timestamp_millis()
}

/// The current clock reading, clamped into the range the library's
/// timestamps must stay within.
pub(crate) fn now_millis_clamped() -> (r: i64)
    ensures
        -TIMESTAMP_LIMIT_MS <= r <= TIMESTAMP_LIMIT_MS,
{
    clamp_timestamp(now_millis_raw())
}

/// What chrono renders for a UTC instant given as milliseconds since the
/// epoch: an RFC 3339 date-and-time string. The rendering depends on the
/// milliseconds alone.
pub uninterp spec fn rfc3339_of(ms: i64) -> Seq<char>;

/// The characters RFC 3339 date-and-time text is built from: digits and
/// the separators `-`, `+`, `:`, `.` and `T`.
pub open spec fn is_rfc3339_char(c: char) -> bool {
    (48 <= c as u32 <= 57) || c == '-' || c == '+' || c == ':' || c == '.' || c == 'T'
}

/// Relies on chrono's `DateTime::from_timestamp_millis` (defined on the
/// whole clamped range; `None` only far outside it) and
/// `DateTime::<Utc>::to_rfc3339`: a nonempty date-and-time string such as
/// `1996-12-19T16:39:57.123+00:00`, made of digits and the separators
/// `-+:.T` only.
#[verifier::external_body]
pub(crate) fn rfc3339_of_millis(ms: i64) -> (r: String)
    requires
        -TIMESTAMP_LIMIT_MS <= ms <= TIMESTAMP_LIMIT_MS,
    ensures
        r@ == rfc3339_of(ms),
        r@.len() > 0,
        forall|i: int| 0 <= i < r@.len() ==> is_rfc3339_char(#[trigger] r@[i]),
{
    match chrono::DateTime::from_timestamp_millis(ms) {
        Some(t) => t.to_rfc3339(),
        None => String::new(),
    }
}

/// Relies on chrono's `DateTime::parse_from_rfc3339`: re-reads a
/// timestamp as milliseconds since the epoch, `None` when the text is not
/// a valid RFC 3339 date-and-time. Nothing is assumed of the value.
#[verifier::external_body]
pub(crate) fn parse_rfc3339_millis(s: &str) -> (r: Option<i64>)
{
    chrono::DateTime::parse_from_rfc3339(s).ok().map(|t| t.timestamp_millis())
}

/// Clamp an arbitrary millisecond reading into the library's timestamp
/// range.
pub(crate) fn clamp_timestamp(t: i64) -> (r: i64)
    ensures
        -TIMESTAMP_LIMIT_MS <= r <= TIMESTAMP_LIMIT_MS,
        -TIMESTAMP_LIMIT_MS <= t <= TIMESTAMP_LIMIT_MS ==> r == t,
{
    if t < -TIMESTAMP_LIMIT_MS {
        -TIMESTAMP_LIMIT_MS
    } else if t > TIMESTAMP_LIMIT_MS {
        TIMESTAMP_LIMIT_MS
    } else {
        t
    }
}

} // verus!
