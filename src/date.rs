//! RFC 7231 dates (`Sun, 06 Nov 1994 08:49:37 GMT`) from Unix timestamps.

use vstd::prelude::*;
use crate::text::{push_char, push_str, push_decimal, decimal};

verus! {

pub open spec fn is_leap(year: int) -> bool {
    (year % 4 == 0 && year % 100 != 0) || year % 400 == 0
}

pub open spec fn year_length(year: int) -> int {
    if is_leap(year) { 366 } else { 365 }
}

/// The year that day `days` (counted from the first day of `year`) falls
/// in, and the day's index within that year.
pub open spec fn year_and_day(days: int, year: int) -> (int, int)
    decreases days,
{
    if days < year_length(year) || days < 0 {
        (year, days)
    } else {
        year_and_day(days - year_length(year), year + 1)
    }
}

pub open spec fn month_length(month: int, leap: bool) -> int {
    if month == 1 {
        if leap { 29 } else { 28 }
    } else if month == 3 || month == 5 || month == 8 || month == 10 {
        30
    } else {
        31
    }
}

/// The month (0 for January) that the 1-based `day` of the year falls in,
/// counting from `month`, and the day of that month.
pub open spec fn month_and_day(day: int, month: int, leap: bool) -> (int, int)
    decreases 11 - month,
{
    if month >= 11 || day <= month_length(month, leap) {
        (month, day)
    } else {
        month_and_day(day - month_length(month, leap), month + 1, leap)
    }
}

pub open spec fn day_name(i: int) -> Seq<char> {
    if i == 0 { "Sun"@ }
    else if i == 1 { "Mon"@ }
    else if i == 2 { "Tue"@ }
    else if i == 3 { "Wed"@ }
    else if i == 4 { "Thu"@ }
    else if i == 5 { "Fri"@ }
    else { "Sat"@ }
}

pub open spec fn month_name(i: int) -> Seq<char> {
    if i == 0 { "Jan"@ }
    else if i == 1 { "Feb"@ }
    else if i == 2 { "Mar"@ }
    else if i == 3 { "Apr"@ }
    else if i == 4 { "May"@ }
    else if i == 5 { "Jun"@ }
    else if i == 6 { "Jul"@ }
    else if i == 7 { "Aug"@ }
    else if i == 8 { "Sep"@ }
    else if i == 9 { "Oct"@ }
    else if i == 10 { "Nov"@ }
    else { "Dec"@ }
}

/// At least two digits, zero-padded.
pub open spec fn two_digits(n: nat) -> Seq<char> {
    if n < 10 {
        seq!['0'] + decimal(n)
    } else {
        decimal(n)
    }
}

/// The RFC 7231 form of a Unix timestamp, in the proleptic Gregorian
/// calendar.
pub open spec fn http_date(timestamp: nat) -> Seq<char> {
    let days = timestamp / 86400;
    let secs = timestamp % 86400;
    let (year, day_of_year) = year_and_day(days as int, 1970);
    let (month, day) = month_and_day(day_of_year + 1, 0, is_leap(year));
    day_name(((days + 4) % 7) as int) + ", "@ + two_digits(day as nat) + " "@ + month_name(month)
        + " "@ + decimal(year as nat) + " "@ + two_digits(secs / 3600) + ":"@ + two_digits(
        (secs % 3600) / 60,
    ) + ":"@ + two_digits(secs % 60) + " GMT"@
}

pub fn is_leap_year(year: u64) -> (r: bool)
    ensures
        r == is_leap(year as int),
{
    (year % 4 == 0 && year % 100 != 0) || year % 400 == 0
}

fn push_two_digits(s: &mut String, n: u64)
    ensures
        final(s)@ == old(s)@ + two_digits(n as nat),
{
    if n < 10 {
        push_char(s, '0');
    }
    push_decimal(s, n);
    if n < 10 {
        assert(final(s)@ =~= old(s)@ + two_digits(n as nat)) by {
            assert(seq!['0'] + decimal(n as nat) == seq!['0'] + decimal(n as nat));
        }
    }
}

fn day_name_exec(i: u64) -> (r: &'static str)
    ensures
        r@ == day_name(i as int),
{
    if i == 0 { "Sun" }
    else if i == 1 { "Mon" }
    else if i == 2 { "Tue" }
    else if i == 3 { "Wed" }
    else if i == 4 { "Thu" }
    else if i == 5 { "Fri" }
    else { "Sat" }
}

fn month_name_exec(i: u64) -> (r: &'static str)
    ensures
        r@ == month_name(i as int),
{
    if i == 0 { "Jan" }
    else if i == 1 { "Feb" }
    else if i == 2 { "Mar" }
    else if i == 3 { "Apr" }
    else if i == 4 { "May" }
    else if i == 5 { "Jun" }
    else if i == 6 { "Jul" }
    else if i == 7 { "Aug" }
    else if i == 8 { "Sep" }
    else if i == 9 { "Oct" }
    else if i == 10 { "Nov" }
    else { "Dec" }
}

/// Formats a Unix timestamp as an HTTP date, e.g. `Fri, 13 Feb 2009 23:31:30 GMT`.
pub fn format_http_date(timestamp: u64) -> (r: String)
    ensures
        r@ == http_date(timestamp as nat),
{
    let days = timestamp / 86400;
    let secs = timestamp % 86400;
    let mut year: u64 = 1970;
    let mut remaining = days;
    loop
        invariant
            remaining <= days,
            year - 1970 <= days - remaining,
            1970 <= year,
            days == timestamp / 86400,
            year_and_day(days as int, 1970) == year_and_day(remaining as int, year as int),
        ensures
            remaining < year_length(year as int),
            year - 1970 <= days,
            year_and_day(days as int, 1970) == (year as int, remaining as int),
        decreases remaining,
    {
        let len: u64 = if is_leap_year(year) { 366 } else { 365 };
        if remaining < len {
            break;
        }
        remaining = remaining - len;
        year = year + 1;
    }
    let leap = is_leap_year(year);
    let ghost ydays = remaining;
    let mut month: u64 = 0;
    let mut day = remaining + 1;
    while month < 11
        invariant
            month <= 11,
            1 <= day <= ydays + 1,
            ydays < 366,
            month_and_day(ydays + 1, 0, leap) == month_and_day(day as int, month as int, leap),
        ensures
            month <= 11,
            month_and_day(ydays + 1, 0, leap) == (month as int, day as int),
        decreases 11 - month,
    {
        let len: u64 = if month == 1 {
            if leap { 29 } else { 28 }
        } else if month == 3 || month == 5 || month == 8 || month == 10 {
            30
        } else {
            31
        };
        if day <= len {
            break;
        }
        day = day - len;
        month = month + 1;
    }
    let mut s = String::new();
    push_str(&mut s, day_name_exec((days + 4) % 7));
    push_str(&mut s, ", ");
    push_two_digits(&mut s, day);
    push_str(&mut s, " ");
    push_str(&mut s, month_name_exec(month));
    push_str(&mut s, " ");
    push_decimal(&mut s, year);
    push_str(&mut s, " ");
    push_two_digits(&mut s, secs / 3600);
    push_str(&mut s, ":");
    push_two_digits(&mut s, (secs % 3600) / 60);
    push_str(&mut s, ":");
    push_two_digits(&mut s, secs % 60);
    push_str(&mut s, " GMT");
    s
}

} // verus!
