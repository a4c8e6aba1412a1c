//! Completed records and their row form in the record store. A row is a list
//! of fields; the store's byte-level encoding of rows is the collaborator's
//! business. A legacy three-field row still parses, with no project; a row of
//! four or more fields reads an empty fourth field as "no project".
use vstd::arithmetic::div_mod::lemma_div_is_ordered;
use vstd::arithmetic::div_mod::lemma_fundamental_div_mod;
use vstd::prelude::*;

use crate::date::spec_format_date;
use crate::date::spec_is_digit;
use crate::date::spec_digit_val;
use crate::date::spec_parse_date;
use crate::date::format_date;
use crate::date::parse_date;
use crate::date::valid_date;
use crate::date::Date;
use crate::numbers::spec_dec;
use crate::numbers::spec_dec_i64;
use crate::numbers::spec_digit_char;
use crate::numbers::format_i64;

verus! {

/// A completed, time-bounded task entry, created by stopping a task
/// (or rewritten by an amendment).
#[derive(Clone, Debug, PartialEq)]
pub struct Record {
    pub task: String,
    pub duration_ms: i64,
    pub date: Date,
    pub project: Option<String>,
}

/// Why a row could not be read back as a record.
#[derive(Clone, Copy, PartialEq, Eq, Structural, Debug)]
pub enum RecordParseError {
    /// Fewer than three fields in the row.
    InvalidFieldCount,
    /// The duration field is not a signed decimal integer in range.
    InvalidDuration,
    /// The date field is not a valid `YYYY-MM-DD` date.
    InvalidDate,
}

pub open spec fn spec_all_digits(s: Seq<char>) -> bool {
    forall|i: int| 0 <= i < s.len() ==> spec_is_digit(#[trigger] s[i])
}

/// The value of a sequence of decimal digits.
pub open spec fn spec_digits_val(s: Seq<char>) -> int
    decreases s.len(),
{
    if s.len() == 0 {
        0
    } else {
        10 * spec_digits_val(s.drop_last()) + spec_digit_val(s.last())
    }
}

/// What signed decimal text denotes: an optional sign, then at least one
/// digit, the value within the i64 range.
pub open spec fn spec_parse_i64(s: Seq<char>) -> Option<i64> {
    let neg = s.len() > 0 && s[0] == '-';
    let digits = if s.len() > 0 && (s[0] == '-' || s[0] == '+') {
        s.subrange(1, s.len() as int)
    } else {
        s
    };
    if digits.len() == 0 || !spec_all_digits(digits) {
        None
    } else {
        let v = if neg {
            -spec_digits_val(digits)
        } else {
            spec_digits_val(digits)
        };
        if i64::MIN <= v <= i64::MAX {
            Some(v as i64)
        } else {
            None
        }
    }
}

proof fn lemma_digits_val_nonneg(s: Seq<char>)
    requires
        spec_all_digits(s),
    ensures
        spec_digits_val(s) >= 0,
    decreases s.len(),
{
    if s.len() > 0 {
        lemma_digits_val_nonneg(s.drop_last());
    }
}

/// With every character a digit, the value over a longer prefix is no
/// smaller than over a shorter one.
proof fn lemma_digits_val_prefix_le(s: Seq<char>, i: int, j: int)
    requires
        spec_all_digits(s),
        0 <= i <= j <= s.len(),
    ensures
        spec_digits_val(s.subrange(0, i)) <= spec_digits_val(s.subrange(0, j)),
    decreases j - i,
{
    if i < j {
        lemma_digits_val_prefix_le(s, i, j - 1);
        let p = s.subrange(0, j - 1);
        let q = s.subrange(0, j);
        assert(q.drop_last() =~= p);
        assert(spec_all_digits(p)) by {
            assert(forall|k: int| 0 <= k < p.len() ==> p[k] == s[k]);
        }
        lemma_digits_val_nonneg(p);
    }
}

fn char_digit_val_u64(c: char) -> (r: Option<u64>)
    ensures
        r is Some <==> spec_is_digit(c),
        r is Some ==> r.unwrap() == spec_digit_val(c) && r.unwrap() <= 9,
{
    let v = c as u32;
    if 48 <= v && v <= 57 {
        Some((v - 48) as u64)
    } else {
        None
    }
}

/// Parses signed decimal text exactly as the record store's duration field
/// demands: optional sign, one or more digits, value within the i64 range.
pub fn parse_i64(s: &str) -> (r: Option<i64>)
    ensures
        r == spec_parse_i64(s@),
{
    let n = s.unicode_len();
    if n == 0 {
        return None;
    }
    let first = s.get_char(0);
    let neg = first == '-';
    let start: usize = if first == '-' || first == '+' {
        1
    } else {
        0
    };
    let ghost digits = if first == '-' || first == '+' {
        s@.subrange(1, s@.len() as int)
    } else {
        s@
    };
    if n == start {
        return None;
    }
    let mut acc: u64 = 0;
    let mut i: usize = start;
    while i < n
        invariant
            start <= i <= n,
            n == s@.len(),
            start == if s@.len() > 0 && (s@[0] == '-' || s@[0] == '+') {
                1int
            } else {
                0int
            },
            digits == s@.subrange(start as int, s@.len() as int),
            spec_all_digits(digits.subrange(0, i - start)),
            acc == spec_digits_val(digits.subrange(0, i - start)),
        decreases n - i,
    {
        let c = s.get_char(i);
        let ghost prefix = digits.subrange(0, i - start);
        let ghost prefix1 = digits.subrange(0, i + 1 - start);
        assert(prefix1.drop_last() =~= prefix);
        assert(prefix1.last() == s@[i as int]);
        match char_digit_val_u64(c) {
            Some(d) => {
                let scaled = match acc.checked_mul(10) {
                    Some(v) => v,
                    None => {
                        proof {
                            lemma_parse_overflow(s@, digits, start as int, i + 1 - start);
                        }
                        return None;
                    },
                };
                let next = match scaled.checked_add(d) {
                    Some(v) => v,
                    None => {
                        proof {
                            lemma_parse_overflow(s@, digits, start as int, i + 1 - start);
                        }
                        return None;
                    },
                };
                acc = next;
            },
            None => {
                return None;
            },
        }
        i = i + 1;
    }
    proof {
        assert(digits.subrange(0, i - start) =~= digits);
    }
    if neg {
        if acc > 9223372036854775808u64 {
            return None;
        }
        if acc == 9223372036854775808u64 {
            Some(i64::MIN)
        } else {
            Some(-(acc as i64))
        }
    } else {
        if acc > i64::MAX as u64 {
            return None;
        }
        Some(acc as i64)
    }
}

/// When the running value has already outgrown u64, the numeral (if it is one
/// at all) denotes a value outside the i64 range, so parsing yields nothing.
proof fn lemma_parse_overflow(s: Seq<char>, digits: Seq<char>, start: int, k: int)
    requires
        0 <= start <= s.len(),
        start == if s.len() > 0 && (s[0] == '-' || s[0] == '+') {
            1int
        } else {
            0int
        },
        digits == s.subrange(start, s.len() as int),
        0 < k <= digits.len(),
        spec_all_digits(digits.subrange(0, k)),
        spec_digits_val(digits.subrange(0, k)) > u64::MAX,
    ensures
        spec_parse_i64(s) is None,
{
    assert(s.subrange(0, s.len() as int) =~= s);
    if spec_all_digits(digits) {
        lemma_digits_val_prefix_le(digits, k, digits.len() as int);
        assert(digits.subrange(0, digits.len() as int) =~= digits);
    }
}

/// Reads one row of the record store: task, duration in milliseconds, date,
/// and (in the four-or-more-field form) an optional project label.
pub fn record_from_fields(fields: &Vec<String>) -> (r: Result<Record, RecordParseError>)
    ensures
        match r {
            Ok(rec) => {
                &&& fields@.len() >= 3
                &&& rec.task@ == fields@[0]@
                &&& Some(rec.duration_ms) == spec_parse_i64(fields@[1]@)
                &&& Some(rec.date) == spec_parse_date(fields@[2]@)
                &&& valid_date(rec.date)
                &&& if fields@.len() == 3 || fields@[3]@.len() == 0 {
                    rec.project is None
                } else {
                    rec.project is Some && rec.project.unwrap()@ == fields@[3]@
                }
            },
            Err(e) => {
                &&& e == RecordParseError::InvalidFieldCount <==> fields@.len() < 3
                &&& e == RecordParseError::InvalidDuration <==> fields@.len() >= 3
                    && spec_parse_i64(fields@[1]@) is None
                &&& e == RecordParseError::InvalidDate <==> fields@.len() >= 3 && spec_parse_i64(
                    fields@[1]@,
                ) is Some && spec_parse_date(fields@[2]@) is None
            },
        },
        r is Ok <==> fields@.len() >= 3 && spec_parse_i64(fields@[1]@) is Some && spec_parse_date(
            fields@[2]@,
        ) is Some,
{
    if fields.len() < 3 {
        return Err(RecordParseError::InvalidFieldCount);
    }
    let duration_ms = match parse_i64(fields[1].as_str()) {
        Some(v) => v,
        None => {
            return Err(RecordParseError::InvalidDuration);
        },
    };
    let date = match parse_date(fields[2].as_str()) {
        Some(d) => d,
        None => {
            return Err(RecordParseError::InvalidDate);
        },
    };
    let project: Option<String> = if fields.len() == 3 {
        None
    } else if fields[3].as_str().is_empty() {
        None
    } else {
        Some(fields[3].clone())
    };
    proof {
        lemma_parse_date_valid(fields@[2]@);
    }
    Ok(Record { task: fields[0].clone(), duration_ms, date, project })
}

/// A successfully parsed date is a valid calendar date.
proof fn lemma_parse_date_valid(s: Seq<char>)
    ensures
        spec_parse_date(s) is Some ==> valid_date(spec_parse_date(s).unwrap()),
{
}

/// Writes a record as the four-field row the store persists: task, duration,
/// date, and the project label (empty when there is none).
pub fn record_to_fields(rec: &Record) -> (r: Vec<String>)
    requires
        valid_date(rec.date),
    ensures
        r@.len() == 4,
        r@[0]@ == rec.task@,
        r@[1]@ == spec_dec_i64(rec.duration_ms as int),
        r@[2]@ == spec_format_date(rec.date),
        r@[3]@ == match rec.project {
            Some(p) => p@,
            None => Seq::<char>::empty(),
        },
{
    let mut out: Vec<String> = Vec::new();
    out.push(rec.task.clone());
    out.push(format_i64(rec.duration_ms));
    out.push(format_date(rec.date));
    match &rec.project {
        Some(p) => out.push(p.clone()),
        None => out.push(String::new()),
    }
    out
}

/// Each digit character is a digit and reads back as its value.
proof fn lemma_digit_char_val(v: int)
    requires
        0 <= v < 10,
    ensures
        spec_is_digit(spec_digit_char(v)),
        spec_digit_val(spec_digit_char(v)) == v,
{
}

/// Formatted non-negative integers are all digits and read back exactly.
proof fn lemma_dec_digits(n: nat)
    ensures
        spec_dec(n).len() >= 1,
        spec_all_digits(spec_dec(n)),
        spec_digits_val(spec_dec(n)) == n,
        spec_is_digit(spec_dec(n)[0]),
    decreases n,
{
    if n < 10 {
        reveal_with_fuel(spec_digits_val, 2);
        lemma_digit_char_val(n as int);
        assert(spec_dec(n).drop_last() =~= Seq::<char>::empty());
    } else {
        lemma_dec_digits(n / 10);
        lemma_digit_char_val((n % 10) as int);
        let s = spec_dec(n);
        assert(s.drop_last() =~= spec_dec(n / 10));
        lemma_fundamental_div_mod(n as int, 10);
    }
}

/// Formatting a signed integer and parsing it back yields the same value.
pub proof fn lemma_parse_format_i64(n: i64)
    ensures
        spec_parse_i64(spec_dec_i64(n as int)) == Some(n),
{
    if n >= 0 {
        lemma_dec_digits(n as nat);
        let s = spec_dec(n as nat);
        assert(!(s[0] == '-' || s[0] == '+'));
    } else {
        lemma_dec_digits((-n) as nat);
        let s = spec_dec_i64(n as int);
        assert(s[0] == '-');
        assert(s.subrange(1, s.len() as int) =~= spec_dec((-n) as nat));
    }
}

/// Formatting a valid date and parsing it back yields the same date.
pub proof fn lemma_parse_format_date(d: Date)
    requires
        valid_date(d),
    ensures
        spec_parse_date(spec_format_date(d)) == Some(d),
{
    let y = d.year as int;
    let m = d.month as int;
    let dd = d.day as int;
    lemma_div_is_ordered(y, 9999, 1000);
    lemma_div_is_ordered(m, 12, 10);
    lemma_div_is_ordered(dd, 31, 10);
    lemma_fundamental_div_mod(y, 10);
    lemma_fundamental_div_mod(y / 10, 10);
    lemma_fundamental_div_mod(y / 100, 10);
    vstd::arithmetic::div_mod::lemma_div_denominator(y, 10, 10);
    vstd::arithmetic::div_mod::lemma_div_denominator(y, 100, 10);
    assert(y / 10 / 10 == y / 100);
    assert(y / 100 / 10 == y / 1000);
    lemma_fundamental_div_mod(m, 10);
    lemma_fundamental_div_mod(dd, 10);
    lemma_digit_char_val(y / 1000);
    lemma_digit_char_val((y / 100) % 10);
    lemma_digit_char_val((y / 10) % 10);
    lemma_digit_char_val(y % 10);
    lemma_digit_char_val(m / 10);
    lemma_digit_char_val(m % 10);
    lemma_digit_char_val(dd / 10);
    lemma_digit_char_val(dd % 10);
    let s = spec_format_date(d);
    let parsed = Date {
        year: (1000 * spec_digit_val(s[0]) + 100 * spec_digit_val(s[1]) + 10 * spec_digit_val(s[2])
            + spec_digit_val(s[3])) as u32,
        month: (10 * spec_digit_val(s[5]) + spec_digit_val(s[6])) as u32,
        day: (10 * spec_digit_val(s[8]) + spec_digit_val(s[9])) as u32,
    };
    assert(parsed == d);
}

/// Writing a record as a row and reading the row back preserves every field,
/// provided the project label, when present, is not the empty string (the row
/// form cannot tell an empty label from an absent one).
pub proof fn lemma_record_row_roundtrip(rec: Record, fields: Seq<Seq<char>>)
    requires
        valid_date(rec.date),
        rec.project is Some ==> rec.project.unwrap()@.len() > 0,
        fields.len() == 4,
        fields[0] == rec.task@,
        fields[1] == spec_dec_i64(rec.duration_ms as int),
        fields[2] == spec_format_date(rec.date),
        fields[3] == match rec.project {
            Some(p) => p@,
            None => Seq::<char>::empty(),
        },
    ensures
        spec_parse_i64(fields[1]) == Some(rec.duration_ms),
        spec_parse_date(fields[2]) == Some(rec.date),
        (fields[3].len() == 0) <==> rec.project is None,
{
    lemma_parse_format_i64(rec.duration_ms);
    lemma_parse_format_date(rec.date);
}

} // verus!
