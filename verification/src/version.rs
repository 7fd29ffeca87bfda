//! The version line of the tool: semantic version, build time in UTC and
//! revision. The build time is a count of seconds since 1970-01-01; the
//! calendar date is worked out here.

use crate::text::{decimal, decimal_text};
use vstd::prelude::*;
use vstd::string::{StrSliceExecFns, StringExecFns};

verus! {

pub open spec fn spec_is_leap_year(year: int) -> bool {
    (year % 4 == 0 && year % 100 != 0) || year % 400 == 0
}

/// The number of days of a year.
pub open spec fn days_in_year(year: int) -> int {
    if spec_is_leap_year(year) {
        366
    } else {
        365
    }
}

/// The number of days of month `month` (1 to 12) of a leap year or of
/// another year.
pub open spec fn month_days(leap: bool, month: int) -> int {
    if month == 2 {
        if leap {
            29
        } else {
            28
        }
    } else if month == 4 || month == 6 || month == 9 || month == 11 {
        30
    } else {
        31
    }
}

/// The number of days of month `month` (1 to 12) of a year.
pub open spec fn days_in_month(year: int, month: int) -> int {
    month_days(spec_is_leap_year(year), month)
}

/// The days from 1970-01-01 to the first day of a year.
pub open spec fn days_before_year(year: int) -> int
    decreases year - 1970,
{
    if year <= 1970 {
        0
    } else {
        days_before_year(year - 1) + days_in_year(year - 1)
    }
}

/// The days from the first day of a year to the first day of a month.
pub open spec fn days_before_month(year: int, month: int) -> int
    decreases month,
{
    if month <= 1 {
        0
    } else {
        days_before_month(year, month - 1) + days_in_month(year, month - 1)
    }
}

/// Whether year, month and day name a day of the calendar from 1970 on.
pub open spec fn is_date(year: int, month: int, day: int) -> bool {
    year >= 1970 && 1 <= month <= 12 && 1 <= day <= days_in_month(year, month)
}

/// The days from 1970-01-01 to a date.
pub open spec fn day_number(year: int, month: int, day: int) -> int {
    days_before_year(year) + days_before_month(year, month) + day - 1
}

/// The months of a year make up the year.
pub proof fn lemma_months_fill_year(year: int)
    ensures
        days_before_month(year, 13) == days_in_year(year),
{
    reveal_with_fuel(days_before_month, 14);
}

/// Whether a year is a leap year of the Gregorian calendar.
pub fn is_leap_year(year: i64) -> (r: bool)
    requires
        year >= 0,
    ensures
        r == spec_is_leap_year(year as int),
{
    (year % 4 == 0 && year % 100 != 0) || (year % 400 == 0)
}

/// The largest day count that `days_to_ymd` takes: more than any count of
/// seconds in 64 bits holds.
pub const MAX_DAYS: u64 = 0xFFFF_FFFF_FFFF;

/// The date of the day that lies `days` days after 1970-01-01, as year,
/// month and day.
pub fn days_to_ymd(days: u64) -> (r: (u64, u64, u64))
    requires
        days <= MAX_DAYS,
    ensures
        is_date(r.0 as int, r.1 as int, r.2 as int),
        day_number(r.0 as int, r.1 as int, r.2 as int) == days,
{
    let mut remaining: i64 = days as i64;
    let mut year: i64 = 1970;
    loop
        invariant_except_break
            0 <= remaining,
            1970 <= year,
            year - 1970 <= days - remaining,
            days <= MAX_DAYS,
            remaining + days_before_year(year as int) == days,
        ensures
            0 <= remaining < days_in_year(year as int),
            1970 <= year <= 1970 + MAX_DAYS,
            remaining + days_before_year(year as int) == days,
        decreases remaining,
    {
        let days_in_year: i64 = if is_leap_year(year) {
            366
        } else {
            365
        };
        if remaining < days_in_year {
            break ;
        }
        remaining -= days_in_year;
        year += 1;
    }
    let leap: bool = is_leap_year(year);
    let mut month: i64 = 1;
    proof {
        lemma_months_fill_year(year as int);
    }
    while month < 12 && remaining >= month_length(leap, month)
        invariant
            1 <= month <= 12,
            0 <= remaining,
            leap == spec_is_leap_year(year as int),
            remaining + days_before_month(year as int, month as int) + days_before_year(
                year as int,
            ) == days,
            remaining + days_before_month(year as int, month as int) < days_before_month(
                year as int,
                13,
            ),
        decreases 12 - month,
    {
        remaining -= month_length(leap, month);
        month += 1;
    }
    proof {
        reveal_with_fuel(days_before_month, 14);
    }
    (year as u64, month as u64, (remaining + 1) as u64)
}

/// The number of days of a month.
fn month_length(leap: bool, month: i64) -> (r: i64)
    requires
        1 <= month <= 12,
    ensures
        r == month_days(leap, month as int),
        28 <= r <= 31,
{
    if month == 2 {
        if leap {
            29
        } else {
            28
        }
    } else if month == 4 || month == 6 || month == 9 || month == 11 {
        30
    } else {
        31
    }
}

/// The value of a string of decimal digits; the empty string gives 0.
pub open spec fn decimal_value(text: Seq<u8>) -> int
    decreases text.len(),
{
    if text.len() == 0 {
        0
    } else {
        decimal_value(text.drop_last()) * 10 + (text.last() - 0x30)
    }
}

/// Whether every byte is an ASCII digit.
pub open spec fn all_digits(text: Seq<u8>) -> bool {
    forall|i: int| 0 <= i < text.len() ==> 0x30 <= #[trigger] text[i] <= 0x39
}

/// More digits give no smaller value.
pub proof fn lemma_decimal_value_grows(text: Seq<u8>, k: int)
    requires
        all_digits(text),
        0 <= k <= text.len(),
    ensures
        0 <= decimal_value(text.subrange(0, k)) <= decimal_value(text),
    decreases text.len() - k,
{
    if k == text.len() {
        assert(text.subrange(0, k) =~= text);
        lemma_decimal_value_nonnegative(text);
    } else {
        lemma_decimal_value_grows(text, k + 1);
        let longer = text.subrange(0, k + 1);
        assert(longer.drop_last() =~= text.subrange(0, k));
        lemma_decimal_value_nonnegative(text.subrange(0, k));
    }
}

/// The value of a string of digits is not negative.
pub proof fn lemma_decimal_value_nonnegative(text: Seq<u8>)
    requires
        all_digits(text),
    ensures
        decimal_value(text) >= 0,
    decreases text.len(),
{
    if text.len() > 0 {
        lemma_decimal_value_nonnegative(text.drop_last());
    }
}

/// Reads a number from its decimal digits. `None` where a byte is no
/// digit or the number does not fit in 64 bits.
pub fn parse_u64(text: &[u8]) -> (r: Option<u64>)
    ensures
        r == if all_digits(text@) && decimal_value(text@) <= u64::MAX {
            Some(decimal_value(text@) as u64)
        } else {
            None::<u64>
        },
{
    let mut result: u64 = 0;
    let mut i: usize = 0;
    while i < text.len()
        invariant
            i <= text@.len(),
            all_digits(text@.subrange(0, i as int)),
            result == decimal_value(text@.subrange(0, i as int)),
        decreases text@.len() - i,
    {
        let byte: u8 = text[i];
        let ghost longer = text@.subrange(0, i + 1);
        assert(longer.drop_last() =~= text@.subrange(0, i as int));
        assert(longer.last() == byte);
        if byte < 0x30 || byte > 0x39 {
            assert(!all_digits(text@));
            return None;
        }
        assert(all_digits(longer)) by {
            assert forall|j: int| 0 <= j < longer.len() implies 0x30 <= #[trigger] longer[j]
                <= 0x39 by {
                if j < i {
                    assert(longer[j] == text@.subrange(0, i as int)[j]);
                }
            }
        }
        let next = match result.checked_mul(10) {
            Some(scaled) => scaled.checked_add((byte - 0x30) as u64),
            None => None,
        };
        match next {
            Some(value) => {
                result = value;
            },
            None => {
                proof {
                    if all_digits(text@) {
                        lemma_decimal_value_grows(text@, i + 1);
                    }
                }
                return None;
            },
        }
        i += 1;
    }
    assert(text@.subrange(0, i as int) =~= text@);
    Some(result)
}

/// `width` zeros.
pub open spec fn zeros_text(width: nat) -> Seq<char> {
    Seq::new(width, |i: int| '0')
}

/// The decimal digits of a number, with zeros in front up to `width`
/// characters.
pub open spec fn padded_text(n: nat, width: nat) -> Seq<char> {
    if decimal_text(n).len() >= width {
        decimal_text(n)
    } else {
        zeros_text((width - decimal_text(n).len()) as nat) + decimal_text(n)
    }
}

/// The decimal digits of `n`, with zeros in front up to `width`
/// characters.
pub fn padded(n: u64, width: usize) -> (r: String)
    ensures
        r@ == padded_text(n as nat, width as nat),
{
    proof {
        reveal_strlit("0");
    }
    let mut text: String = decimal(n);
    let digits: usize = text.as_str().unicode_len();
    let mut len: usize = digits;
    while len < width
        invariant
            digits == decimal_text(n as nat).len(),
            digits <= len,
            len <= width || len == digits,
            text@ == zeros_text((len - digits) as nat) + decimal_text(n as nat),
            "0"@ == seq!['0'],
        decreases width - len,
    {
        let ghost before = text@;
        text = String::from_str("0").concat(text.as_str());
        len += 1;
        assert(text@ =~= zeros_text((len - digits) as nat) + decimal_text(n as nat));
    }
    assert(zeros_text(0) + decimal_text(n as nat) =~= decimal_text(n as nat));
    text
}

/// The text of a point in time: date and time of day, in UTC.
pub open spec fn time_text(year: int, month: int, day: int, seconds_of_day: int) -> Seq<char> {
    padded_text(year as nat, 4) + "-"@ + padded_text(month as nat, 2) + "-"@ + padded_text(
        day as nat,
        2,
    ) + " "@ + padded_text((seconds_of_day / 3600) as nat, 2) + ":"@ + padded_text(
        ((seconds_of_day % 3600) / 60) as nat,
        2,
    ) + ":"@ + padded_text((seconds_of_day % 60) as nat, 2) + " UTC"@
}

/// Whether `text` is the time that lies `timestamp` seconds after the
/// start of 1970, as `YYYY-MM-DD HH:MM:SS UTC`.
pub open spec fn is_time_text(text: Seq<char>, timestamp: u64) -> bool {
    exists|year: int, month: int, day: int|
        is_date(year, month, day) && day_number(year, month, day) == timestamp / 86400 && text
            == #[trigger] time_text(year, month, day, (timestamp % 86400) as int)
}

/// The time that lies `timestamp` seconds after the start of 1970, as
/// `YYYY-MM-DD HH:MM:SS UTC`.
pub fn format_build_time(timestamp: u64) -> (r: String)
    ensures
        is_time_text(r@, timestamp),
{
    let days_since_epoch: u64 = timestamp / 86400;
    let time_of_day: u64 = timestamp % 86400;
    let hours: u64 = time_of_day / 3600;
    let minutes: u64 = (time_of_day % 3600) / 60;
    let seconds: u64 = time_of_day % 60;
    let (year, month, day) = days_to_ymd(days_since_epoch);
    let text = padded(year, 4).concat("-").concat(padded(month, 2).as_str()).concat("-").concat(
        padded(day, 2).as_str(),
    ).concat(" ").concat(padded(hours, 2).as_str()).concat(":").concat(
        padded(minutes, 2).as_str(),
    ).concat(":").concat(padded(seconds, 2).as_str()).concat(" UTC");
    assert(text@ == time_text(year as int, month as int, day as int, time_of_day as int));
    text
}

/// The version line: version, build time and revision.
pub fn version_long(version: &str, timestamp: u64, revision: &str) -> (r: String)
    ensures
        exists|time: Seq<char>|
            is_time_text(time, timestamp) && r@ == version@ + " (built "@ + time + " git:"@
                + revision@ + ")"@,
{
    let time: String = format_build_time(timestamp);
    let text = String::from_str(version).concat(" (built ").concat(time.as_str()).concat(
        " git:",
    ).concat(revision).concat(")");
    assert(is_time_text(time@, timestamp) && text@ == version@ + " (built "@ + time@ + " git:"@
        + revision@ + ")"@);
    text
}

} // verus!
