//! Time as milliseconds since the Unix epoch, read and parsed by chrono.
use vstd::prelude::*;

verus! {

/// The instant that an RFC 3339 text names, in milliseconds since the
/// epoch; `None` when the text is not such a time.
pub uninterp spec fn utc_millis_of(s: Seq<char>) -> Option<i64>;

/// Relies on chrono's `Utc::now` (read as `timestamp_millis`): the current
/// time. Nothing is known of the value.
#[verifier::external_body]
pub(crate) fn now_millis() -> (r: i64) {
    chrono::Utc::now().timestamp_millis()
}

/// Relies on chrono's `FromStr` for `DateTime<Utc>` (relaxed RFC 3339, read
/// as `timestamp_millis`): the result depends on the text alone.
#[verifier::external_body]
pub(crate) fn parse_utc_millis(s: &str) -> (r: Option<i64>)
    ensures
        r == utc_millis_of(s@),
{
    s.parse::<chrono::DateTime<chrono::Utc>>().ok().map(|t| t.timestamp_millis())
}

} // verus!
