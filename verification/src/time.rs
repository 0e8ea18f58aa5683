//! The one clock read the reading-list view needs.

use vstd::prelude::*;

verus! {

/// Relies on chrono's `DateTime::from_timestamp` and `to_rfc3339` for the
/// current time in ISO-8601 / RFC 3339 form. The clock is read through the
/// fallible path: a clock before the Unix epoch, or one `from_timestamp`
/// rejects, falls back to the fixed epoch stamp rather than panicking.
/// Nothing more is assumed of the value than that a stamp is never empty,
/// which holds of `to_rfc3339` and of the fallback alike.
#[verifier::external_body]
pub(crate) fn now_rfc3339() -> (r: String)
    ensures
        r@.len() > 0,
{
    let fallback = "1970-01-01T00:00:00+00:00";
    match std::time::SystemTime::now().duration_since(std::time::UNIX_EPOCH) {
        Ok(d) => match chrono::DateTime::from_timestamp(d.as_secs() as i64, d.subsec_nanos()) {
            Some(t) => t.to_rfc3339(),
            None => fallback.to_string(),
        },
        Err(_) => fallback.to_string(),
    }
}

} // verus!
