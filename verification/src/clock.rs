//! The time of day.

use vstd::prelude::*;

verus! {

/// The number that the two characters from place `i` on denote.
pub open spec fn two_digits(s: Seq<char>, i: int) -> int {
    (s[i] as int - '0' as int) * 10 + (s[i + 1] as int - '0' as int)
}

/// Whether the text is a time of day, as in `09:05:00`: hours up to 23, minutes up
/// to 59, and seconds up to 60, which a leap second has.
pub open spec fn is_time_of_day(s: Seq<char>) -> bool {
    &&& s.len() == 8
    &&& s[2] == ':' && s[5] == ':'
    &&& forall|i: int| 0 <= i < 8 && i != 2 && i != 5 ==> '0' <= #[trigger] s[i] <= '9'
    &&& two_digits(s, 0) < 24
    &&& two_digits(s, 3) < 60
    &&& two_digits(s, 6) <= 60
}

/// The local time, written out in the given format by `chrono::Local::now`,
/// `DateTime::format` and the `Display` of what that returns. The format is held to
/// hours, minutes and seconds with colons between them; what is claimed is the
/// shape that chrono documents for these three fields: two digits each, in their
/// ranges. Which time it is depends on the machine, and nothing is said of it; a
/// system clock set before 1970, or a time zone of the machine that chrono cannot
/// find or use, makes chrono panic.
#[verifier::external_body]
fn formatted_local_time(format: &str) -> (res: String)
    requires
        format@ == "%H:%M:%S"@,
    ensures
        is_time_of_day(res@),
{
    chrono::Local::now().format(format).to_string()
}

/// The time of day.
pub fn time_of_day() -> (res: String)
    ensures
        is_time_of_day(res@),
{
    formatted_local_time("%H:%M:%S")
}

/// A time of day is two digits, a colon, two digits, a colon, two digits; as numbers
/// the pairs are hours of a day, minutes of an hour, and seconds of a minute.
pub proof fn law_time_of_day_is_hours_minutes_seconds(h: int, m: int, s: int, text: Seq<char>)
    requires
        0 <= h < 100 && 0 <= m < 100 && 0 <= s < 100,
        text == seq![
            (48 + h / 10) as char,
            (48 + h % 10) as char,
            ':',
            (48 + m / 10) as char,
            (48 + m % 10) as char,
            ':',
            (48 + s / 10) as char,
            (48 + s % 10) as char,
        ],
    ensures
        is_time_of_day(text) == (h < 24 && m < 60 && s <= 60),
{
}

} // verus!
