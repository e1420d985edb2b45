//! The wall clock, read through chrono.

use vstd::prelude::*;

use crate::text::is_digit;

verus! {

/// Every character of `s` is printable ASCII (space through tilde).
pub open spec fn printable_ascii(s: Seq<char>) -> bool {
    forall|i: int| 0 <= i < s.len() ==> 32 <= #[trigger] (s[i] as u32) <= 126
}

/// `w` is an English weekday abbreviation.
pub open spec fn is_weekday_abbreviation(w: Seq<char>) -> bool {
    ||| w == "Sun"@
    ||| w == "Mon"@
    ||| w == "Tue"@
    ||| w == "Wed"@
    ||| w == "Thu"@
    ||| w == "Fri"@
    ||| w == "Sat"@
}

/// `m` is an English month abbreviation.
pub open spec fn is_month_abbreviation(m: Seq<char>) -> bool {
    ||| m == "Jan"@
    ||| m == "Feb"@
    ||| m == "Mar"@
    ||| m == "Apr"@
    ||| m == "May"@
    ||| m == "Jun"@
    ||| m == "Jul"@
    ||| m == "Aug"@
    ||| m == "Sep"@
    ||| m == "Oct"@
    ||| m == "Nov"@
    ||| m == "Dec"@
}

/// The `n` characters of `s` from `from` on are ASCII digits.
pub open spec fn digits_at(s: Seq<char>, from: int, n: int) -> bool {
    forall|i: int| from <= i < from + n ==> is_digit(#[trigger] s[i])
}

/// `s` has the shape of an RFC 2822 date and time in UTC as chrono writes it:
/// weekday, `", "`, a day of one or two digits, month, a four-digit year,
/// `hh:mm:ss` and the offset `+0000`, separated by single spaces, as in
/// `Tue, 1 Jul 2003 10:52:37 +0000`; 30 or 31 characters in all.
pub open spec fn rfc2822_utc_stamp(s: Seq<char>) -> bool {
    let d = s.len() - 29;
    &&& s.len() == 30 || s.len() == 31
    &&& is_weekday_abbreviation(s.subrange(0, 3))
    &&& s.subrange(3, 5) == ", "@
    &&& digits_at(s, 5, d)
    &&& s[5 + d] == ' '
    &&& is_month_abbreviation(s.subrange(6 + d, 9 + d))
    &&& s[9 + d] == ' '
    &&& digits_at(s, 10 + d, 4)
    &&& s[14 + d] == ' '
    &&& digits_at(s, 15 + d, 2)
    &&& s[17 + d] == ':'
    &&& digits_at(s, 18 + d, 2)
    &&& s[20 + d] == ':'
    &&& digits_at(s, 21 + d, 2)
    &&& s.subrange(23 + d, s.len() as int) == " +0000"@
}

/// A time stamp as the clock gives it: printable ASCII in the RFC 2822 shape.
pub open spec fn clock_stamp(s: Seq<char>) -> bool {
    printable_ascii(s) && rfc2822_utc_stamp(s)
}

/// The current UTC time as chrono renders it with `DateTime::to_rfc2822`
/// (for instance `Tue, 1 Jul 2003 10:52:37 +0000`).
///
/// Calls `chrono::Utc::now()` and then `to_rfc2822()`. The result depends on
/// the time of the call, so the contract states what holds of every outcome:
/// chrono's `write_rfc2822` writes the English weekday abbreviation, `", "`,
/// the day (one digit below 10, else two), the month abbreviation, the year
/// in four digits, `hh:mm:ss` in two digits each and, for UTC, the offset
/// `+0000`, separated by single spaces; all of it printable ASCII. Left
/// unsaid is which instant is rendered (which weekday, day, month and
/// digits). chrono panics when the system clock reads before the Unix epoch
/// or past the year 9999, states of the machine that no argument can exclude.
/// The two calls stand in one wrapper: the value that passes between them, a
/// `chrono::DateTime<Tz: TimeZone>`, is generic over a chrono trait and has
/// no declared type in this library.
#[verifier::external_body]
pub(crate) fn utc_now_rfc2822() -> (s: String)
    ensures
        clock_stamp(s@),
{
    chrono::Utc::now().to_rfc2822()
}

} // verus!
