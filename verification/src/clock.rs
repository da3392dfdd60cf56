//! The local wall clock, and the fixed-format stamps derived from it.
//!
//! One trusted call reads the clock; everything that turns its parts into
//! the `YYYY-MM-DD HH:MM` timestamp, the `YYYY-MM-DD` effective date and the
//! compact `YYYYMMDD_HHMMSS` backup stamp is verified here. Years from 0 to
//! 9999 print zero-padded to four digits; wider or negative years print in
//! full, matching the strftime-style `%Y` the original stamps use.

use vstd::prelude::*;

use chrono::Datelike;
use chrono::Timelike;

verus! {

/// Relies on `chrono::Local::now` and the `Datelike`/`Timelike` accessors:
/// the month is 1 to 12, the day of month 1 to 31, the hour 0 to 23, and
/// the minute and second 0 to 59. Nothing is promised of the year: the
/// result is whatever the local clock reads.
#[verifier::external_body]
pub(crate) fn now_parts() -> (r: (i32, u32, u32, u32, u32, u32))
    ensures
        1 <= r.1 <= 12,
        1 <= r.2 <= 31,
        r.3 <= 23,
        r.4 <= 59,
        r.5 <= 59,
{
    let now = chrono::Local::now();
    (now.year(), now.month(), now.day(), now.hour(), now.minute(), now.second())
}

/// The decimal digit character for a value between 0 and 9.
pub open spec fn digit_char(d: int) -> char {
    (48 + d) as char
}

/// The two zero-padded decimal digits of a value below 100.
pub open spec fn two_digit_seq(n: int) -> Seq<char> {
    seq![digit_char(n / 10), digit_char(n % 10)]
}

/// The plain decimal digits of a non-negative value, no padding.
pub open spec fn dec_seq(n: int) -> Seq<char>
    decreases n,
{
    if n < 10 {
        seq![digit_char(n)]
    } else {
        dec_seq(n / 10).push(digit_char(n % 10))
    }
}

/// A year as `%Y` prints it: zero-padded to four digits between 0 and 9999,
/// full decimal digits above, and a leading minus sign below zero.
pub open spec fn year_seq(y: int) -> Seq<char> {
    if 0 <= y <= 9999 {
        seq![
            digit_char(y / 1000),
            digit_char((y / 100) % 10),
            digit_char((y / 10) % 10),
            digit_char(y % 10),
        ]
    } else if y > 9999 {
        dec_seq(y)
    } else {
        seq!['-'] + dec_seq(-y)
    }
}

/// An effective date, `YYYY-MM-DD`.
pub open spec fn date_seq(y: int, mo: int, d: int) -> Seq<char> {
    year_seq(y) + seq!['-'] + two_digit_seq(mo) + seq!['-'] + two_digit_seq(d)
}

/// A record timestamp, `YYYY-MM-DD HH:MM`.
pub open spec fn minute_stamp_seq(y: int, mo: int, d: int, h: int, mi: int) -> Seq<char> {
    date_seq(y, mo, d) + seq![' '] + two_digit_seq(h) + seq![':'] + two_digit_seq(mi)
}

/// A backup-file stamp, `YYYYMMDD_HHMMSS`.
pub open spec fn compact_stamp_seq(y: int, mo: int, d: int, h: int, mi: int, s: int) -> Seq<
    char,
> {
    year_seq(y) + two_digit_seq(mo) + two_digit_seq(d) + seq!['_'] + two_digit_seq(h)
        + two_digit_seq(mi) + two_digit_seq(s)
}

/// A timestamp and an effective date drawn from one reading of the clock:
/// the date is the calendar-date part of the very timestamp, so the two can
/// never straddle midnight.
pub open spec fn stamp_pair(ts: Seq<char>, dt: Seq<char>) -> bool {
    exists|y: int, mo: int, d: int, h: int, mi: int|
        {
            &&& 1 <= mo <= 12
            &&& 1 <= d <= 31
            &&& 0 <= h <= 23
            &&& 0 <= mi <= 59
            &&& ts == #[trigger] minute_stamp_seq(y, mo, d, h, mi)
            &&& dt == date_seq(y, mo, d)
        }
}

/// A compact stamp some reading of the clock yields.
pub open spec fn is_compact_stamp(s: Seq<char>) -> bool {
    exists|y: int, mo: int, d: int, h: int, mi: int, sec: int|
        {
            &&& 1 <= mo <= 12
            &&& 1 <= d <= 31
            &&& 0 <= h <= 23
            &&& 0 <= mi <= 59
            &&& 0 <= sec <= 59
            &&& s == #[trigger] compact_stamp_seq(y, mo, d, h, mi, sec)
        }
}

fn digit_str(d: u32) -> (r: &'static str)
    requires
        d <= 9,
    ensures
        r@ == seq![digit_char(d as int)],
{
    proof {
        reveal_strlit("0");
        reveal_strlit("1");
        reveal_strlit("2");
        reveal_strlit("3");
        reveal_strlit("4");
        reveal_strlit("5");
        reveal_strlit("6");
        reveal_strlit("7");
        reveal_strlit("8");
        reveal_strlit("9");
    }
    let r = match d {
        0 => "0",
        1 => "1",
        2 => "2",
        3 => "3",
        4 => "4",
        5 => "5",
        6 => "6",
        7 => "7",
        8 => "8",
        _ => "9",
    };
    proof {
        assert(r@ =~= seq![digit_char(d as int)]);
    }
    r
}

/// Appends the two zero-padded digits of `n` to `out`.
fn push_two_digits(out: &mut String, n: u32)
    requires
        n <= 99,
    ensures
        final (out)@ == old(out)@ + two_digit_seq(n as int),
{
    out.append(digit_str(n / 10));
    out.append(digit_str(n % 10));
    proof {
        assert(out@ =~= old(out)@ + two_digit_seq(n as int));
    }
}

/// Appends the plain decimal digits of `n` to `out`.
fn push_decimal(out: &mut String, n: u32)
    ensures
        final (out)@ == old(out)@ + dec_seq(n as int),
    decreases n,
{
    if n < 10 {
        out.append(digit_str(n));
    } else {
        push_decimal(out, n / 10);
        out.append(digit_str(n % 10));
    }
    proof {
        assert(out@ =~= old(out)@ + dec_seq(n as int));
    }
}

/// Appends a year as `%Y` prints it.
fn push_year(out: &mut String, y: i32)
    ensures
        final (out)@ == old(out)@ + year_seq(y as int),
{
    if 0 <= y && y <= 9999 {
        let u = y as u32;
        out.append(digit_str(u / 1000));
        out.append(digit_str((u / 100) % 10));
        out.append(digit_str((u / 10) % 10));
        out.append(digit_str(u % 10));
    } else if y > 9999 {
        push_decimal(out, y as u32);
    } else {
        proof {
            reveal_strlit("-");
        }
        out.append("-");
        let m = -(y as i64);
        push_decimal(out, m as u32);
    }
    proof {
        assert(out@ =~= old(out)@ + year_seq(y as int));
    }
}

/// Builds the `YYYY-MM-DD` date string for the given clock parts.
pub fn format_date(y: i32, mo: u32, d: u32) -> (r: String)
    requires
        mo <= 99,
        d <= 99,
    ensures
        r@ == date_seq(y as int, mo as int, d as int),
{
    proof {
        reveal_strlit("-");
    }
    let mut out = String::new();
    push_year(&mut out, y);
    out.append("-");
    push_two_digits(&mut out, mo);
    out.append("-");
    push_two_digits(&mut out, d);
    proof {
        assert(out@ =~= date_seq(y as int, mo as int, d as int));
    }
    out
}

/// Builds the `YYYY-MM-DD HH:MM` timestamp for the given clock parts.
pub fn format_minute_stamp(y: i32, mo: u32, d: u32, h: u32, mi: u32) -> (r: String)
    requires
        mo <= 99,
        d <= 99,
        h <= 99,
        mi <= 99,
    ensures
        r@ == minute_stamp_seq(y as int, mo as int, d as int, h as int, mi as int),
{
    proof {
        reveal_strlit(" ");
        reveal_strlit(":");
    }
    let mut out = format_date(y, mo, d);
    out.append(" ");
    push_two_digits(&mut out, h);
    out.append(":");
    push_two_digits(&mut out, mi);
    proof {
        assert(out@ =~= minute_stamp_seq(y as int, mo as int, d as int, h as int, mi as int));
    }
    out
}

/// Builds the compact `YYYYMMDD_HHMMSS` stamp for the given clock parts.
pub fn format_compact_stamp(y: i32, mo: u32, d: u32, h: u32, mi: u32, s: u32) -> (r: String)
    requires
        mo <= 99,
        d <= 99,
        h <= 99,
        mi <= 99,
        s <= 99,
    ensures
        r@ == compact_stamp_seq(y as int, mo as int, d as int, h as int, mi as int, s as int),
{
    proof {
        reveal_strlit("_");
    }
    let mut out = String::new();
    push_year(&mut out, y);
    push_two_digits(&mut out, mo);
    push_two_digits(&mut out, d);
    out.append("_");
    push_two_digits(&mut out, h);
    push_two_digits(&mut out, mi);
    push_two_digits(&mut out, s);
    proof {
        assert(out@ =~= compact_stamp_seq(
            y as int,
            mo as int,
            d as int,
            h as int,
            mi as int,
            s as int,
        ));
    }
    out
}

/// Reads the clock once and returns the minute-precision timestamp together
/// with the matching effective date.
pub fn now_strings() -> (r: (String, String))
    ensures
        stamp_pair(r.0@, r.1@),
{
    let (y, mo, d, h, mi, _s) = now_parts();
    let ts = format_minute_stamp(y, mo, d, h, mi);
    let dt = format_date(y, mo, d);
    (ts, dt)
}

/// Reads the clock once and returns the compact stamp used in backup file
/// names.
pub fn now_compact_stamp() -> (r: String)
    ensures
        is_compact_stamp(r@),
{
    let (y, mo, d, h, mi, s) = now_parts();
    format_compact_stamp(y, mo, d, h, mi, s)
}

} // verus!
