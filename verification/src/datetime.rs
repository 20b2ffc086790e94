use vstd::prelude::*;

use crate::strutil::{dec_seq, dec_string, digit_char, push_char};
use chrono::{Datelike, TimeZone, Timelike};

verus! {

/// Why a date string was rejected: it does not have the form
/// `YYYY-MM-DD` naming a calendar date, or the local time zone has no
/// unique instant for it.
#[derive(Debug, Clone, Copy, PartialEq, Eq, Structural)]
pub enum DateParseError {
    Format,
    TimeZone,
}

/// Whether `c` is an ASCII decimal digit.
pub open spec fn is_digit(c: char) -> bool {
    '0' <= c && c <= '9'
}

/// Decimal digit value of an ASCII digit character.
pub open spec fn digit_val(c: char) -> int {
    c as int - '0' as int
}

/// Leap years of the proleptic Gregorian calendar.
pub open spec fn is_leap_year(y: int) -> bool {
    y % 4 == 0 && (y % 100 != 0 || y % 400 == 0)
}

/// Number of days in a month.
pub open spec fn days_in_month(y: int, m: int) -> int {
    if m == 2 {
        if is_leap_year(y) {
            29
        } else {
            28
        }
    } else if m == 4 || m == 6 || m == 9 || m == 11 {
        30
    } else {
        31
    }
}

/// Whether year, month and day name a calendar date.
pub open spec fn valid_ymd(y: int, m: int, d: int) -> bool {
    1 <= m <= 12 && 1 <= d <= days_in_month(y, m)
}

/// Whether `s` has the shape `YYYY-MM-DD`: ten characters, digits
/// separated by dashes after the year and the month.
pub open spec fn well_formed_ymd(s: Seq<char>) -> bool {
    &&& s.len() == 10
    &&& is_digit(s[0])
    &&& is_digit(s[1])
    &&& is_digit(s[2])
    &&& is_digit(s[3])
    &&& s[4] == '-'
    &&& is_digit(s[5])
    &&& is_digit(s[6])
    &&& s[7] == '-'
    &&& is_digit(s[8])
    &&& is_digit(s[9])
}

pub open spec fn year_of(s: Seq<char>) -> int {
    digit_val(s[0]) * 1000 + digit_val(s[1]) * 100 + digit_val(s[2]) * 10 + digit_val(s[3])
}

pub open spec fn month_of(s: Seq<char>) -> int {
    digit_val(s[5]) * 10 + digit_val(s[6])
}

pub open spec fn day_of(s: Seq<char>) -> int {
    digit_val(s[8]) * 10 + digit_val(s[9])
}

/// The calendar date written in `s`, when `s` has the shape
/// `YYYY-MM-DD` and names a valid date.
pub open spec fn parse_ymd_spec(s: Seq<char>) -> Option<(int, int, int)> {
    if well_formed_ymd(s) && valid_ymd(year_of(s), month_of(s), day_of(s)) {
        Some((year_of(s), month_of(s), day_of(s)))
    } else {
        None
    }
}

/// Digit value of `c`, or `None` when `c` is no digit.
fn char_digit(c: char) -> (r: Option<u32>)
    ensures
        r is Some <==> is_digit(c),
        r matches Some(v) ==> v == digit_val(c) && v < 10,
{
    let u = c as u32;
    if 48 <= u && u <= 57 {
        Some(u - 48)
    } else {
        None
    }
}

fn days_in_month_exec(y: i32, m: u32) -> (r: u32)
    ensures
        r == days_in_month(y as int, m as int),
{
    if m == 2 {
        if y % 4 == 0 && (y % 100 != 0 || y % 400 == 0) {
            29
        } else {
            28
        }
    } else if m == 4 || m == 6 || m == 9 || m == 11 {
        30
    } else {
        31
    }
}

/// Reads a calendar date of the shape `YYYY-MM-DD`; exactly the
/// strings accepted by `parse_ymd_spec`, with the values it names.
pub fn parse_ymd(s: &str) -> (r: Option<(i32, u32, u32)>)
    ensures
        r is Some <==> parse_ymd_spec(s@) is Some,
        r matches Some(p) ==> parse_ymd_spec(s@) == Some(
            (p.0 as int, p.1 as int, p.2 as int),
        ),
{
    if s.unicode_len() != 10 {
        return None;
    }
    if s.get_char(4) != '-' || s.get_char(7) != '-' {
        return None;
    }
    let d0 = char_digit(s.get_char(0));
    let d1 = char_digit(s.get_char(1));
    let d2 = char_digit(s.get_char(2));
    let d3 = char_digit(s.get_char(3));
    let d5 = char_digit(s.get_char(5));
    let d6 = char_digit(s.get_char(6));
    let d8 = char_digit(s.get_char(8));
    let d9 = char_digit(s.get_char(9));
    match (d0, d1, d2, d3, d5, d6, d8, d9) {
        (
            Some(v0),
            Some(v1),
            Some(v2),
            Some(v3),
            Some(v5),
            Some(v6),
            Some(v8),
            Some(v9),
        ) => {
            let y = v0 * 1000 + v1 * 100 + v2 * 10 + v3;
            let m = v5 * 10 + v6;
            let d = v8 * 10 + v9;
            if 1 <= m && m <= 12 && 1 <= d && d <= days_in_month_exec(y as i32, m) {
                Some((y as i32, m, d))
            } else {
                None
            }
        },
        _ => None,
    }
}

/// Whether `s` has the shape `YYYY-MM-DD HH:MM:SS`.
pub open spec fn well_formed_ymd_hms(s: Seq<char>) -> bool {
    &&& s.len() == 19
    &&& well_formed_ymd(s.take(10))
    &&& s[10] == ' '
    &&& is_digit(s[11])
    &&& is_digit(s[12])
    &&& s[13] == ':'
    &&& is_digit(s[14])
    &&& is_digit(s[15])
    &&& s[16] == ':'
    &&& is_digit(s[17])
    &&& is_digit(s[18])
}

pub open spec fn hour_of(s: Seq<char>) -> int {
    digit_val(s[11]) * 10 + digit_val(s[12])
}

pub open spec fn minute_of(s: Seq<char>) -> int {
    digit_val(s[14]) * 10 + digit_val(s[15])
}

pub open spec fn second_of(s: Seq<char>) -> int {
    digit_val(s[17]) * 10 + digit_val(s[18])
}

/// The calendar fields written in `s`, when `s` has the shape
/// `YYYY-MM-DD HH:MM:SS`, names a valid date and stays inside a
/// day's hours, minutes and seconds.
pub open spec fn parse_ymd_hms_spec(s: Seq<char>) -> Option<(int, int, int, int, int, int)> {
    if well_formed_ymd_hms(s) && valid_ymd(year_of(s.take(10)), month_of(s.take(10)), day_of(
        s.take(10),
    )) && hour_of(s) < 24 && minute_of(s) < 60 && second_of(s) < 60 {
        Some(
            (
                year_of(s.take(10)),
                month_of(s.take(10)),
                day_of(s.take(10)),
                hour_of(s),
                minute_of(s),
                second_of(s),
            ),
        )
    } else {
        None
    }
}

/// Reads a detail row's date text, `YYYY-MM-DD HH:MM:SS`; exactly
/// the strings accepted by `parse_ymd_hms_spec`, with the fields it
/// names.
pub fn parse_ymd_hms(s: &str) -> (r: Option<(i32, u32, u32, u32, u32, u32)>)
    ensures
        r is Some <==> parse_ymd_hms_spec(s@) is Some,
        r matches Some(p) ==> parse_ymd_hms_spec(s@) == Some(
            (p.0 as int, p.1 as int, p.2 as int, p.3 as int, p.4 as int, p.5 as int),
        ),
{
    if s.unicode_len() != 19 {
        return None;
    }
    let day = s.substring_char(0, 10);
    proof {
        assert(day@ =~= s@.take(10));
    }
    let ymd = match parse_ymd(day) {
        Some(p) => p,
        None => {
            return None;
        },
    };
    if s.get_char(10) != ' ' || s.get_char(13) != ':' || s.get_char(16) != ':' {
        return None;
    }
    let h1 = char_digit(s.get_char(11));
    let h2 = char_digit(s.get_char(12));
    let m1 = char_digit(s.get_char(14));
    let m2 = char_digit(s.get_char(15));
    let s1 = char_digit(s.get_char(17));
    let s2 = char_digit(s.get_char(18));
    match (h1, h2, m1, m2, s1, s2) {
        (Some(a), Some(b), Some(c), Some(d), Some(e), Some(f)) => {
            let h = a * 10 + b;
            let mi = c * 10 + d;
            let sec = e * 10 + f;
            if h < 24 && mi < 60 && sec < 60 {
                Some((ymd.0, ymd.1, ymd.2, h, mi, sec))
            } else {
                None
            }
        },
        _ => None,
    }
}

/// Reads a detail row's date text back into the epoch second of that
/// local instant. Exactly the ill-shaped texts are refused with
/// `Format`; a well-shaped one is refused with `TimeZone` only when
/// the local time zone has no instant for it.
pub fn detail_datetime_to_epoch(s: &str) -> (r: Result<i64, DateParseError>)
    ensures
        r is Ok ==> parse_ymd_hms_spec(s@) is Some,
        r == Err::<i64, DateParseError>(DateParseError::Format) <==> parse_ymd_hms_spec(
            s@,
        ) is None,
{
    let p = match parse_ymd_hms(s) {
        Some(p) => p,
        None => {
            return Err(DateParseError::Format);
        },
    };
    match epoch_from_local(p.0, p.1, p.2, p.3, p.4, p.5) {
        Some(t) => Ok(t),
        None => Err(DateParseError::TimeZone),
    }
}

/// Seconds of the local-time instant `y-mo-d h:mi:s`, when the local
/// time zone gives it one.
///
/// Relies on chrono's `TimeZone::with_ymd_and_hms` on `Local`, which
/// builds a local `DateTime` from calendar fields, and on
/// `DateTime::timestamp`, which returns its seconds since the Unix
/// epoch. The result depends on the machine's time zone; an ambiguous
/// local time yields its earlier reading.
#[verifier::external_body]
fn epoch_from_local(y: i32, mo: u32, d: u32, h: u32, mi: u32, s: u32) -> (r: Option<i64>) {
    match chrono::Local.with_ymd_and_hms(y, mo, d, h, mi, s) {
        chrono::LocalResult::Single(dt) => Some(dt.timestamp()),
        chrono::LocalResult::Ambiguous(dt, _) => Some(dt.timestamp()),
        chrono::LocalResult::None => None,
    }
}

/// Whether an epoch second lies inside the calendar years 0001
/// through 9999, a conservative slice of the far wider range chrono
/// represents.
pub open spec fn epoch_in_range(t: int) -> bool {
    -62135596800 <= t <= 253402300799
}

/// Local calendar fields of the instant `t` seconds after the Unix
/// epoch.
///
/// Relies on chrono's `TimeZone::timestamp_opt` on `Local`: its
/// documentation promises `None` only for an out-of-range number of
/// seconds and otherwise always a single value, so every second of
/// the years 0001 through 9999 yields fields. The `Datelike` and
/// `Timelike` accessors bound month in 1..=12, day in 1..=31, hour
/// below 24, minute and second below 60. The fields depend on the
/// machine's time zone.
#[verifier::external_body]
fn local_parts_from_epoch(t: i64) -> (r: Option<(i32, u32, u32, u32, u32, u32)>)
    ensures
        r matches Some(p) ==> 1 <= p.1 <= 12 && 1 <= p.2 <= 31 && p.3 < 24 && p.4 < 60 && p.5
            < 60,
        epoch_in_range(t as int) ==> r is Some,
{
    match chrono::Local.timestamp_opt(t, 0) {
        chrono::LocalResult::Single(dt) => Some(
            (dt.year(), dt.month(), dt.day(), dt.hour(), dt.minute(), dt.second()),
        ),
        _ => None,
    }
}

/// Reads a date of the shape `YYYY-MM-DD` and gives the epoch second
/// of that date at local time `hms`. Exactly the ill-shaped strings
/// are refused with `Format`; a well-shaped date is refused with
/// `TimeZone` only when the local time zone has no instant for it.
pub fn parse_date(s: &str, hms: [u32; 3]) -> (r: Result<i64, DateParseError>)
    requires
        hms[0] < 24,
        hms[1] < 60,
        hms[2] < 60,
    ensures
        r is Ok ==> parse_ymd_spec(s@) is Some,
        r == Err::<i64, DateParseError>(DateParseError::Format) <==> parse_ymd_spec(s@) is None,
{
    let parts = match parse_ymd(s) {
        Some(p) => p,
        None => {
            return Err(DateParseError::Format);
        },
    };
    match epoch_from_local(parts.0, parts.1, parts.2, hms[0], hms[1], hms[2]) {
        Some(t) => Ok(t),
        None => Err(DateParseError::TimeZone),
    }
}

/// Reads a `since` bound: the named date at local midnight.
pub fn parse_since(s: &str) -> (r: Result<i64, DateParseError>)
    ensures
        r is Ok ==> parse_ymd_spec(s@) is Some,
        r == Err::<i64, DateParseError>(DateParseError::Format) <==> parse_ymd_spec(s@) is None,
{
    parse_date(s, [0, 0, 0])
}

/// Reads an `until` bound: the named date at the last local second of
/// the day, `23:59:59`.
pub fn parse_until(s: &str) -> (r: Result<i64, DateParseError>)
    ensures
        r is Ok ==> parse_ymd_spec(s@) is Some,
        r == Err::<i64, DateParseError>(DateParseError::Format) <==> parse_ymd_spec(s@) is None,
{
    parse_date(s, [23, 59, 59])
}

/// Two decimal digits.
pub open spec fn pad2(n: int) -> Seq<char> {
    seq![digit_char(n / 10), digit_char(n % 10)]
}

/// Four decimal digits.
pub open spec fn pad4(n: int) -> Seq<char> {
    seq![
        digit_char(n / 1000),
        digit_char((n / 100) % 10),
        digit_char((n / 10) % 10),
        digit_char(n % 10),
    ]
}

/// A year, four digits wide within `0..=9999`, plain decimal with an
/// optional sign outside that range.
pub open spec fn fmt_year(y: int) -> Seq<char> {
    if 0 <= y < 10000 {
        pad4(y)
    } else if y < 0 {
        seq!['-'] + dec_seq((-y) as nat)
    } else {
        dec_seq(y as nat)
    }
}

/// The shape `YYYY-MM-DD HH:MM:SS` of local calendar fields.
pub open spec fn fmt_ymd_hms(y: int, mo: int, d: int, h: int, mi: int, s: int) -> Seq<char> {
    fmt_year(y) + seq!['-'] + pad2(mo) + seq!['-'] + pad2(d) + seq![' '] + pad2(h) + seq![':']
        + pad2(mi) + seq![':'] + pad2(s)
}

fn pad2_exec(n: u32) -> (r: String)
    requires
        n < 100,
    ensures
        r@ == pad2(n as int),
{
    let mut r = String::new();
    push_char(&mut r, digit_char_exec(n / 10));
    push_char(&mut r, digit_char_exec(n % 10));
    proof {
        assert(r@ =~= pad2(n as int));
    }
    r
}

fn digit_char_exec(d: u32) -> (c: char)
    requires
        d < 10,
    ensures
        c == digit_char(d as int),
{
    match d {
        0 => '0',
        1 => '1',
        2 => '2',
        3 => '3',
        4 => '4',
        5 => '5',
        6 => '6',
        7 => '7',
        8 => '8',
        _ => '9',
    }
}

fn fmt_year_exec(y: i32) -> (r: String)
    ensures
        r@ == fmt_year(y as int),
{
    if 0 <= y && y < 10000 {
        let u = y as u32;
        let mut r = String::new();
        push_char(&mut r, digit_char_exec(u / 1000));
        push_char(&mut r, digit_char_exec((u / 100) % 10));
        push_char(&mut r, digit_char_exec((u / 10) % 10));
        push_char(&mut r, digit_char_exec(u % 10));
        proof {
            assert(r@ =~= pad4(y as int));
        }
        r
    } else if y < 0 {
        let mut r = String::new();
        push_char(&mut r, '-');
        let n = -(y as i64);
        let d = dec_string(n as usize);
        r.append(d.as_str());
        proof {
            assert(r@ =~= fmt_year(y as int));
        }
        r
    } else {
        dec_string(y as usize)
    }
}

/// Writes local calendar fields in the shape `YYYY-MM-DD HH:MM:SS`.
pub fn format_ymd_hms(y: i32, mo: u32, d: u32, h: u32, mi: u32, s: u32) -> (r: String)
    requires
        mo < 100,
        d < 100,
        h < 100,
        mi < 100,
        s < 100,
    ensures
        r@ == fmt_ymd_hms(y as int, mo as int, d as int, h as int, mi as int, s as int),
{
    let mut r = fmt_year_exec(y);
    push_char(&mut r, '-');
    r.append(pad2_exec(mo).as_str());
    push_char(&mut r, '-');
    r.append(pad2_exec(d).as_str());
    push_char(&mut r, ' ');
    r.append(pad2_exec(h).as_str());
    push_char(&mut r, ':');
    r.append(pad2_exec(mi).as_str());
    push_char(&mut r, ':');
    r.append(pad2_exec(s).as_str());
    proof {
        assert(r@ =~= fmt_ymd_hms(y as int, mo as int, d as int, h as int, mi as int, s as int));
    }
    r
}

/// Whether a text is some local-calendar rendering of an instant:
/// the shape `YYYY-MM-DD HH:MM:SS` over fields a calendar can carry.
pub open spec fn shaped_datetime(d: Seq<char>) -> bool {
    exists|y: int, mo: int, dd: int, h: int, mi: int, sec: int|
        1 <= mo <= 12 && 1 <= dd <= 31 && 0 <= h < 24 && 0 <= mi < 60 && 0 <= sec < 60 && d
            == #[trigger] fmt_ymd_hms(y, mo, dd, h, mi, sec)
}

/// A shaped date text is never empty.
pub proof fn lemma_shaped_nonempty(d: Seq<char>)
    requires
        shaped_datetime(d),
    ensures
        d.len() >= 16,
{
    let (y, mo, dd, h, mi, sec) = choose|y: int, mo: int, dd: int, h: int, mi: int, sec: int|
        1 <= mo <= 12 && 1 <= dd <= 31 && 0 <= h < 24 && 0 <= mi < 60 && 0 <= sec < 60 && d
            == #[trigger] fmt_ymd_hms(y, mo, dd, h, mi, sec);
    if 0 <= y < 10000 {
        assert(fmt_year(y).len() == 4);
    } else if y < 0 {
        crate::strutil::lemma_dec_seq_len((-y) as nat);
        assert(fmt_year(y).len() >= 2);
    } else {
        crate::strutil::lemma_dec_seq_len(y as nat);
        assert(fmt_year(y).len() >= 1);
    }
    assert(d.len() == fmt_year(y).len() + 15);
}

/// Writes the epoch second `t` as a local `YYYY-MM-DD HH:MM:SS`
/// string; a second inside the calendar years 0001 through 9999
/// always gets one, and nothing comes back only outside the range
/// the calendar covers.
pub fn format_epoch(t: i64) -> (r: Option<String>)
    ensures
        r matches Some(s) ==> shaped_datetime(s@),
        epoch_in_range(t as int) ==> r is Some,
{
    match local_parts_from_epoch(t) {
        Some(p) => {
            let s = format_ymd_hms(p.0, p.1, p.2, p.3, p.4, p.5);
            proof {
                let (gy, gmo, gd, gh, gmi, gs) = (
                    p.0 as int,
                    p.1 as int,
                    p.2 as int,
                    p.3 as int,
                    p.4 as int,
                    p.5 as int,
                );
                assert(s@ == fmt_ymd_hms(gy, gmo, gd, gh, gmi, gs));
                assert(shaped_datetime(s@));
            }
            Some(s)
        },
        None => None,
    }
}

} // verus!
