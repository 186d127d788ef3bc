use vstd::prelude::*;

verus! {

/// The compact `YYYYMMDDhhmmss` rendering (UTC) of the instant `secs`
/// seconds after the Unix epoch.
pub uninterp spec fn compact_stamp(secs: i64) -> Seq<char>;

/// The last second (seconds since the Unix epoch) of the year 9999 UTC.
pub const LAST_STAMPED_SECOND: i64 = 253402300799;

/// Relies on chrono's `DateTime::from_timestamp` and `format("%Y%m%d%H%M%S")`:
/// `None` when the instant is outside chrono's range, which covers every
/// instant from the epoch to the end of the year 9999; else its compact stamp.
#[verifier::external_body]
pub(crate) fn format_compact(secs: i64) -> (r: Option<String>)
    ensures
        r matches Some(s) ==> s@ == compact_stamp(secs),
        0 <= secs <= LAST_STAMPED_SECOND ==> r is Some,
{
    match chrono::DateTime::from_timestamp(secs, 0) {
        Some(d) => Some(d.format("%Y%m%d%H%M%S").to_string()),
        None => None,
    }
}

} // verus!
