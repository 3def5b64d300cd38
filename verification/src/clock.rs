//! The wall-clock time, as chat messages record it.
use vstd::prelude::*;

verus! {

/// `t` has the shape of a UTC time in RFC 3339 form as `chrono` writes it:
/// at least a four-digit year, month, day, hour, minute and second
/// (25 characters with the offset), ending with the offset "+00:00".
pub open spec fn utc_rfc3339_shape(t: Seq<char>) -> bool {
    &&& t.len() >= 25
    &&& t.subrange(t.len() - 6, t.len() as int) == "+00:00"@
}

/// Calls `chrono::Utc::now().to_rfc3339()`: the current UTC time in RFC 3339
/// form. Which time it is depends on the call; what is stated is the shape
/// that `write_rfc3339` gives every time with a zero offset: the date and
/// time (at least 19 characters), then "+00:00". (`Utc::now` panics if the
/// system clock reads before 1970.)
#[verifier::external_body]
pub(crate) fn now_rfc3339() -> (t: String)
    ensures
        utc_rfc3339_shape(t@),
{
    chrono::Utc::now().to_rfc3339()
}

} // verus!
