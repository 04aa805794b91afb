//! The wall clock, read through chrono.

use vstd::prelude::*;

verus! {

/// The text shape of every UTC time that chrono writes in RFC 3339 form: at
/// least 25 characters (date, `T`, time, offset), ending with the zero
/// offset `+00:00`.
pub open spec fn utc_rfc3339_shape(s: Seq<char>) -> bool {
    &&& s.len() >= 25
    &&& s.subrange(s.len() - 6, s.len() as int) == seq!['+', '0', '0', ':', '0', '0']
}

/// The current UTC time as an RFC 3339 string.
///
/// Reads `std::time::SystemTime::now`, converts it with chrono's
/// `From<SystemTime> for DateTime<Utc>` (which also takes times before the
/// Unix epoch), and formats it with `chrono::DateTime::to_rfc3339`. The
/// claim is the shape chrono's RFC 3339 writer gives every UTC time: a
/// year of at least four digits, `-MM-DDTHH:MM:SS`, an optional fraction,
/// and the offset `+00:00`. Which time it is depends on the moment of the
/// call and is not claimed. The conversion unwraps chrono's range check,
/// which only fails for a time some 262,000 years from the epoch.
#[verifier::external_body]
pub(crate) fn current_time_rfc3339() -> (res: String)
    ensures
        utc_rfc3339_shape(res@),
{
    chrono::DateTime::<chrono::Utc>::from(std::time::SystemTime::now()).to_rfc3339()
}

} // verus!
