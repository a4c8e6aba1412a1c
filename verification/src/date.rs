//! Calendar dates and the arithmetic the period calculus needs: month lengths,
//! leap years, a day count since the calendar's first day, weekdays, stepping
//! backwards by days, and the `YYYY-MM-DD` text form used on disk and on the
//! plugin wire.
use vstd::arithmetic::div_mod::lemma_div_is_ordered_by_denominator;
use vstd::arithmetic::div_mod::lemma_fundamental_div_mod;
use vstd::arithmetic::div_mod::lemma_fundamental_div_mod_converse;
use vstd::arithmetic::div_mod::lemma_mod_division_less_than_divisor;
use vstd::prelude::*;

use crate::numbers::digit_char;
use crate::numbers::spec_digit_char;
use crate::text::push_char;

verus! {

/// A calendar date (no time of day), in the proleptic Gregorian calendar.
/// Years run from 1 through 9999.
#[derive(Clone, Copy, PartialEq, Eq, Structural, Debug)]
pub struct Date {
    pub year: u32,
    pub month: u32,
    pub day: u32,
}

pub open spec fn spec_leap_year(y: int) -> bool {
    (y % 4 == 0 && y % 100 != 0) || y % 400 == 0
}

pub open spec fn spec_days_in_month(y: int, m: int) -> int {
    if m == 2 {
        if spec_leap_year(y) {
            29
        } else {
            28
        }
    } else if m == 4 || m == 6 || m == 9 || m == 11 {
        30
    } else {
        31
    }
}

/// Days in year `y` that fall before the first of month `m`.
pub open spec fn spec_days_before_month(y: int, m: int) -> int {
    let base = if m == 1 {
        0int
    } else if m == 2 {
        31
    } else if m == 3 {
        59
    } else if m == 4 {
        90
    } else if m == 5 {
        120
    } else if m == 6 {
        151
    } else if m == 7 {
        181
    } else if m == 8 {
        212
    } else if m == 9 {
        243
    } else if m == 10 {
        273
    } else if m == 11 {
        304
    } else {
        334
    };
    base + if m > 2 && spec_leap_year(y) {
        1int
    } else {
        0int
    }
}

pub open spec fn valid_date(d: Date) -> bool {
    1 <= d.year <= 9999 && 1 <= d.month <= 12 && 1 <= d.day <= spec_days_in_month(
        d.year as int,
        d.month as int,
    )
}

/// Leap years in the range `1..=y`.
pub open spec fn spec_leap_count(y: int) -> int {
    y / 4 - y / 100 + y / 400
}

/// Days from the calendar's first day (year 1, January 1st is day 0).
pub open spec fn spec_day_number(d: Date) -> int {
    365 * (d.year - 1) + spec_leap_count(d.year - 1) + spec_days_before_month(
        d.year as int,
        d.month as int,
    ) + (d.day - 1)
}

/// Weekday index of a date: 0 is Monday through 6 is Sunday. Day 0 of the
/// proleptic Gregorian calendar (year 1, January 1st) was a Monday, so the
/// index is the day count modulo seven.
pub open spec fn spec_weekday(d: Date) -> int {
    spec_day_number(d) % 7
}

pub fn leap_year(y: u32) -> (r: bool)
    ensures
        r == spec_leap_year(y as int),
{
    (y % 4 == 0 && y % 100 != 0) || y % 400 == 0
}

pub fn days_in_month(y: u32, m: u32) -> (r: u32)
    requires
        1 <= m <= 12,
    ensures
        r == spec_days_in_month(y as int, m as int),
{
    if m == 2 {
        if leap_year(y) {
            29
        } else {
            28
        }
    } else if m == 4 || m == 6 || m == 9 || m == 11 {
        30
    } else {
        31
    }
}

pub fn is_valid_date(d: Date) -> (r: bool)
    ensures
        r == valid_date(d),
{
    1 <= d.year && d.year <= 9999 && 1 <= d.month && d.month <= 12 && 1 <= d.day && d.day
        <= days_in_month(d.year, d.month)
}

fn days_before_month(y: u32, m: u32) -> (r: u32)
    requires
        1 <= m <= 12,
    ensures
        r == spec_days_before_month(y as int, m as int),
{
    let base: u32 = match m {
        1 => 0,
        2 => 31,
        3 => 59,
        4 => 90,
        5 => 120,
        6 => 151,
        7 => 181,
        8 => 212,
        9 => 243,
        10 => 273,
        11 => 304,
        _ => 334,
    };
    if m > 2 && leap_year(y) {
        base + 1
    } else {
        base
    }
}

pub fn day_number(d: Date) -> (r: u32)
    requires
        valid_date(d),
    ensures
        r == spec_day_number(d),
{
    let y = d.year - 1;
    proof {
        lemma_div_is_ordered_by_denominator(y as int, 4, 100);
    }
    let leaps = y / 4 - y / 100 + y / 400;
    365 * y + leaps + days_before_month(d.year, d.month) + (d.day - 1)
}

pub fn weekday(d: Date) -> (r: u32)
    requires
        valid_date(d),
    ensures
        r == spec_weekday(d),
        r < 7,
{
    day_number(d) % 7
}

pub open spec fn spec_weekday_name(w: int) -> Seq<char> {
    if w == 0 {
        seq!['M', 'o', 'n']
    } else if w == 1 {
        seq!['T', 'u', 'e']
    } else if w == 2 {
        seq!['W', 'e', 'd']
    } else if w == 3 {
        seq!['T', 'h', 'u']
    } else if w == 4 {
        seq!['F', 'r', 'i']
    } else if w == 5 {
        seq!['S', 'a', 't']
    } else {
        seq!['S', 'u', 'n']
    }
}

/// Three-letter label of a weekday index (0 is Monday).
pub fn weekday_short(w: u32) -> (r: &'static str)
    requires
        w < 7,
    ensures
        r@ == spec_weekday_name(w as int),
{
    proof {
        reveal_strlit("Mon");
        reveal_strlit("Tue");
        reveal_strlit("Wed");
        reveal_strlit("Thu");
        reveal_strlit("Fri");
        reveal_strlit("Sat");
        reveal_strlit("Sun");
    }
    match w {
        0 => "Mon",
        1 => "Tue",
        2 => "Wed",
        3 => "Thu",
        4 => "Fri",
        5 => "Sat",
        _ => "Sun",
    }
}

/// The date one day earlier.
pub open spec fn spec_prev_day(d: Date) -> Date {
    if d.day > 1 {
        Date { year: d.year, month: d.month, day: (d.day - 1) as u32 }
    } else if d.month > 1 {
        Date {
            year: d.year,
            month: (d.month - 1) as u32,
            day: spec_days_in_month(d.year as int, d.month - 1) as u32,
        }
    } else {
        Date { year: (d.year - 1) as u32, month: 12, day: 31 }
    }
}

/// One division step: going from `n - 1` to `n` raises `n / k` exactly when
/// `k` divides `n`.
proof fn lemma_div_step(n: int, k: int)
    requires
        n >= 1,
        k >= 1,
    ensures
        n / k - (n - 1) / k == if n % k == 0 {
            1int
        } else {
            0int
        },
{
    lemma_fundamental_div_mod(n, k);
    lemma_mod_division_less_than_divisor(n, k);
    let q = n / k;
    let r = n % k;
    if r == 0 {
        assert(n - 1 == (q - 1) * k + (k - 1)) by (nonlinear_arith)
            requires
                n == k * q + r,
                r == 0,
                k >= 1,
        ;
        lemma_fundamental_div_mod_converse(n - 1, k, q - 1, k - 1);
    } else {
        assert(n - 1 == q * k + (r - 1)) by (nonlinear_arith)
            requires
                n == k * q + r,
        ;
        lemma_fundamental_div_mod_converse(n - 1, k, q, r - 1);
    }
}

/// Divisibility by 400 implies divisibility by 100, which implies
/// divisibility by 4.
proof fn lemma_mod_chain(n: int)
    ensures
        n % 400 == 0 ==> n % 100 == 0,
        n % 100 == 0 ==> n % 4 == 0,
{
    if n % 400 == 0 {
        lemma_fundamental_div_mod(n, 400);
        assert(n == (4 * (n / 400)) * 100 + 0) by (nonlinear_arith)
            requires
                n == 400 * (n / 400),
        ;
        lemma_fundamental_div_mod_converse(n, 100, 4 * (n / 400), 0);
    }
    if n % 100 == 0 {
        lemma_fundamental_div_mod(n, 100);
        assert(n == (25 * (n / 100)) * 4 + 0) by (nonlinear_arith)
            requires
                n == 100 * (n / 100),
        ;
        lemma_fundamental_div_mod_converse(n, 4, 25 * (n / 100), 0);
    }
}

/// The running leap-year count rises by one exactly at leap years.
proof fn lemma_leap_count_step(n: int)
    requires
        n >= 1,
    ensures
        spec_leap_count(n) - spec_leap_count(n - 1) == if spec_leap_year(n) {
            1int
        } else {
            0int
        },
{
    lemma_div_step(n, 4);
    lemma_div_step(n, 100);
    lemma_div_step(n, 400);
    lemma_mod_chain(n);
}

/// Each month's days sit between the day counts before it and before the
/// next month.
proof fn lemma_days_before_month_step(y: int, m: int)
    requires
        1 <= m <= 11,
    ensures
        spec_days_before_month(y, m + 1) == spec_days_before_month(y, m) + spec_days_in_month(
            y,
            m,
        ),
{
}

proof fn lemma_days_before_month_gap(y: int, m1: int, m2: int)
    requires
        1 <= m1 < m2 <= 12,
    ensures
        spec_days_before_month(y, m2) >= spec_days_before_month(y, m1) + spec_days_in_month(
            y,
            m1,
        ),
    decreases m2 - m1,
{
    lemma_days_before_month_step(y, m1);
    if m1 + 1 < m2 {
        lemma_days_before_month_gap(y, m1 + 1, m2);
        lemma_days_before_month_step(y, m1 + 1);
    }
}

/// No month runs past the end of its year.
proof fn lemma_days_before_month_year_total(y: int, m: int)
    requires
        1 <= m <= 12,
    ensures
        spec_days_before_month(y, m) + spec_days_in_month(y, m) <= 365 + if spec_leap_year(y) {
            1int
        } else {
            0int
        },
{
}

proof fn lemma_leap_count_mono(n1: int, n2: int)
    requires
        0 <= n1 <= n2,
    ensures
        spec_leap_count(n1) <= spec_leap_count(n2),
    decreases n2 - n1,
{
    if n1 < n2 {
        lemma_leap_count_step(n2);
        lemma_leap_count_mono(n1, n2 - 1);
    }
}

/// The day count grows strictly along the calendar order of valid dates:
/// by year, then month, then day.
pub proof fn lemma_day_number_strictly_monotone(a: Date, b: Date)
    requires
        valid_date(a),
        valid_date(b),
        a.year < b.year || (a.year == b.year && (a.month < b.month || (a.month == b.month && a.day
            < b.day))),
    ensures
        spec_day_number(a) < spec_day_number(b),
{
    let ya = a.year as int;
    let yb = b.year as int;
    if ya == yb {
        if a.month < b.month {
            lemma_days_before_month_gap(ya, a.month as int, b.month as int);
        }
    } else {
        lemma_days_before_month_year_total(ya, a.month as int);
        lemma_leap_count_step(ya);
        lemma_leap_count_mono(ya, yb - 1);
        assert(spec_day_number(a) < 365 * ya + spec_leap_count(ya));
        assert(spec_day_number(b) >= 365 * (yb - 1) + spec_leap_count(yb - 1));
        assert(365 * ya + spec_leap_count(ya) <= 365 * (yb - 1) + spec_leap_count(yb - 1));
    }
}

/// Stepping back one day keeps the date valid and lowers the day count by
/// exactly one.
pub proof fn lemma_prev_day(d: Date)
    requires
        valid_date(d),
        spec_day_number(d) >= 1,
    ensures
        valid_date(spec_prev_day(d)),
        spec_day_number(spec_prev_day(d)) == spec_day_number(d) - 1,
{
    if d.day > 1 {
    } else if d.month > 1 {
        assert(spec_days_before_month(d.year as int, d.month as int) == spec_days_before_month(
            d.year as int,
            d.month - 1,
        ) + spec_days_in_month(d.year as int, d.month - 1));
    } else {
        assert(d.year >= 2) by {
            if d.year == 1 {
                assert(spec_day_number(d) == 0);
            }
        }
        lemma_leap_count_step(d.year - 1);
    }
}

pub fn prev_day(d: Date) -> (r: Date)
    requires
        valid_date(d),
        spec_day_number(d) >= 1,
    ensures
        r == spec_prev_day(d),
        valid_date(r),
        spec_day_number(r) == spec_day_number(d) - 1,
{
    proof {
        lemma_prev_day(d);
    }
    if d.day > 1 {
        Date { year: d.year, month: d.month, day: d.day - 1 }
    } else if d.month > 1 {
        Date { year: d.year, month: d.month - 1, day: days_in_month(d.year, d.month - 1) }
    } else {
        Date { year: d.year - 1, month: 12, day: 31 }
    }
}

/// The date `n` days earlier.
pub open spec fn spec_sub_days(d: Date, n: nat) -> Date
    decreases n,
{
    if n == 0 {
        d
    } else {
        spec_prev_day(spec_sub_days(d, (n - 1) as nat))
    }
}

pub fn sub_days(d: Date, n: u32) -> (r: Date)
    requires
        valid_date(d),
        n <= spec_day_number(d),
    ensures
        r == spec_sub_days(d, n as nat),
        valid_date(r),
        spec_day_number(r) == spec_day_number(d) - n,
{
    let mut cur = d;
    let mut i: u32 = 0;
    while i < n
        invariant
            i <= n,
            valid_date(d),
            n <= spec_day_number(d),
            valid_date(cur),
            cur == spec_sub_days(d, i as nat),
            spec_day_number(cur) == spec_day_number(d) - i,
        decreases n - i,
    {
        cur = prev_day(cur);
        i = i + 1;
    }
    cur
}

pub open spec fn spec_is_digit(c: char) -> bool {
    48 <= c as u32 <= 57
}

pub open spec fn spec_digit_val(c: char) -> int {
    c as u32 - 48
}

/// The `YYYY-MM-DD` text of a date, fields zero-padded.
pub open spec fn spec_format_date(d: Date) -> Seq<char> {
    let y = d.year as int;
    let m = d.month as int;
    let dd = d.day as int;
    seq![
        spec_digit_char(y / 1000),
        spec_digit_char((y / 100) % 10),
        spec_digit_char((y / 10) % 10),
        spec_digit_char(y % 10),
        '-',
        spec_digit_char(m / 10),
        spec_digit_char(m % 10),
        '-',
        spec_digit_char(dd / 10),
        spec_digit_char(dd % 10),
    ]
}

pub fn format_date(d: Date) -> (r: String)
    requires
        valid_date(d),
    ensures
        r@ == spec_format_date(d),
{
    let mut out = String::new();
    push_char(&mut out, digit_char((d.year / 1000) as u64));
    push_char(&mut out, digit_char(((d.year / 100) % 10) as u64));
    push_char(&mut out, digit_char(((d.year / 10) % 10) as u64));
    push_char(&mut out, digit_char((d.year % 10) as u64));
    push_char(&mut out, '-');
    push_char(&mut out, digit_char((d.month / 10) as u64));
    push_char(&mut out, digit_char((d.month % 10) as u64));
    push_char(&mut out, '-');
    push_char(&mut out, digit_char((d.day / 10) as u64));
    push_char(&mut out, digit_char((d.day % 10) as u64));
    assert(out@ =~= spec_format_date(d));
    out
}

/// What `YYYY-MM-DD` text denotes: a date exactly when the shape, the digits
/// and the calendar ranges all hold.
pub open spec fn spec_parse_date(s: Seq<char>) -> Option<Date> {
    if s.len() == 10 && s[4] == '-' && s[7] == '-' && spec_is_digit(s[0]) && spec_is_digit(s[1])
        && spec_is_digit(s[2]) && spec_is_digit(s[3]) && spec_is_digit(s[5]) && spec_is_digit(s[6])
        && spec_is_digit(s[8]) && spec_is_digit(s[9]) {
        let d = Date {
            year: (1000 * spec_digit_val(s[0]) + 100 * spec_digit_val(s[1]) + 10 * spec_digit_val(
                s[2],
            ) + spec_digit_val(s[3])) as u32,
            month: (10 * spec_digit_val(s[5]) + spec_digit_val(s[6])) as u32,
            day: (10 * spec_digit_val(s[8]) + spec_digit_val(s[9])) as u32,
        };
        if valid_date(d) {
            Some(d)
        } else {
            None
        }
    } else {
        None
    }
}

fn char_digit_val(c: char) -> (r: Option<u32>)
    ensures
        r is Some <==> spec_is_digit(c),
        r is Some ==> r.unwrap() == spec_digit_val(c) && r.unwrap() <= 9,
{
    let v = c as u32;
    if 48 <= v && v <= 57 {
        Some(v - 48)
    } else {
        None
    }
}

pub fn parse_date(s: &str) -> (r: Option<Date>)
    ensures
        r == spec_parse_date(s@),
{
    let n = s.unicode_len();
    if n != 10 {
        return None;
    }
    if s.get_char(4) != '-' || s.get_char(7) != '-' {
        return None;
    }
    let d0 = match char_digit_val(s.get_char(0)) {
        Some(v) => v,
        None => { return None; },
    };
    let d1 = match char_digit_val(s.get_char(1)) {
        Some(v) => v,
        None => { return None; },
    };
    let d2 = match char_digit_val(s.get_char(2)) {
        Some(v) => v,
        None => { return None; },
    };
    let d3 = match char_digit_val(s.get_char(3)) {
        Some(v) => v,
        None => { return None; },
    };
    let d5 = match char_digit_val(s.get_char(5)) {
        Some(v) => v,
        None => { return None; },
    };
    let d6 = match char_digit_val(s.get_char(6)) {
        Some(v) => v,
        None => { return None; },
    };
    let d8 = match char_digit_val(s.get_char(8)) {
        Some(v) => v,
        None => { return None; },
    };
    let d9 = match char_digit_val(s.get_char(9)) {
        Some(v) => v,
        None => { return None; },
    };
    let d = Date {
        year: 1000 * d0 + 100 * d1 + 10 * d2 + d3,
        month: 10 * d5 + d6,
        day: 10 * d8 + d9,
    };
    if is_valid_date(d) {
        Some(d)
    } else {
        None
    }
}

} // verus!
