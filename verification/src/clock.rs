//! The time of day.
use chrono::{SecondsFormat, Utc};
use crate::text;
use vstd::prelude::*;

verus! {

/// Whether the character at `i`, counted from the end of `s`, is a digit.
pub open spec fn digit_from_end(s: Seq<char>, i: int) -> bool {
    text::digit(s[s.len() - i])
}

/// Whether `s` is written as a UTC time with milliseconds, such as `2024-01-15T08:00:00.000Z`. A
/// year past 9999 takes more than four characters.
pub open spec fn iso_shape(s: Seq<char>) -> bool {
    let n = s.len();
    &&& n >= 24
    &&& s[n - 1] == 'Z'
    &&& s[n - 5] == '.'
    &&& s[n - 8] == ':'
    &&& s[n - 11] == ':'
    &&& s[n - 14] == 'T'
    &&& s[n - 17] == '-'
    &&& s[n - 20] == '-'
    &&& digit_from_end(s, 2) && digit_from_end(s, 3) && digit_from_end(s, 4)
    &&& digit_from_end(s, 6) && digit_from_end(s, 7)
    &&& digit_from_end(s, 9) && digit_from_end(s, 10)
    &&& digit_from_end(s, 12) && digit_from_end(s, 13)
    &&& digit_from_end(s, 15) && digit_from_end(s, 16)
    &&& digit_from_end(s, 18) && digit_from_end(s, 19)
}

/// The current time. `chrono::Utc::now` reads the clock, and `DateTime::to_rfc3339_opts` with
/// milliseconds and `Z` writes what it read in the shape stated here. Which time it is depends on
/// the clock and is left open. A clock that is set before 1970 makes `Utc::now` panic.
#[verifier::external_body]
pub fn now_iso() -> (r: String)
    ensures
        iso_shape(r@),
{
    Utc::now().to_rfc3339_opts(SecondsFormat::Millis, true)
}

} // verus!
