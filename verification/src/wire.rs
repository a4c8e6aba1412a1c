//! The request half of the plugin wire contract: one structured-text payload
//! holding the records of the chosen period, the period's canonical name, and
//! the plugin's configuration object, spliced in verbatim.
use vstd::prelude::*;

use crate::date::spec_format_date;
use crate::date::format_date;
use crate::date::valid_date;
use crate::numbers::digit_char;
use crate::numbers::spec_dec_i64;
use crate::numbers::spec_digit_char;
use crate::numbers::format_i64;
use crate::period::spec_period_name;
use crate::period::period_name;
use crate::period::Period;
use crate::records::Record;
use crate::text::push_char;

verus! {

pub open spec fn spec_hex_char(v: int) -> char {
    if v < 10 {
        spec_digit_char(v)
    } else if v == 10 {
        'a'
    } else if v == 11 {
        'b'
    } else if v == 12 {
        'c'
    } else if v == 13 {
        'd'
    } else if v == 14 {
        'e'
    } else {
        'f'
    }
}

fn hex_char(v: u32) -> (c: char)
    requires
        v < 16,
    ensures
        c == spec_hex_char(v as int),
{
    if v < 10 {
        digit_char(v as u64)
    } else {
        match v {
            10 => 'a',
            11 => 'b',
            12 => 'c',
            13 => 'd',
            14 => 'e',
            _ => 'f',
        }
    }
}

/// How one character is written inside a quoted wire string: quotes and
/// backslashes are escaped, common control characters use their short escape,
/// other control characters use the four-digit form, everything else stands
/// as itself.
pub open spec fn spec_escape_char(c: char) -> Seq<char> {
    if c == '"' {
        seq!['\\', '"']
    } else if c == '\\' {
        seq!['\\', '\\']
    } else if c == '\n' {
        seq!['\\', 'n']
    } else if c == '\r' {
        seq!['\\', 'r']
    } else if c == '\t' {
        seq!['\\', 't']
    } else if (c as u32) < 32 {
        seq!['\\', 'u', '0', '0', spec_hex_char((c as u32 / 16) as int), spec_hex_char((c as u32 % 16) as int)]
    } else {
        seq![c]
    }
}

pub open spec fn spec_escape(s: Seq<char>) -> Seq<char>
    decreases s.len(),
{
    if s.len() == 0 {
        Seq::<char>::empty()
    } else {
        spec_escape(s.drop_last()) + spec_escape_char(s.last())
    }
}

/// Appends the escaped form of `s` to `out`.
fn append_escaped(out: &mut String, s: &str)
    ensures
        final(out)@ == old(out)@ + spec_escape(s@),
{
    let n = s.unicode_len();
    let mut i: usize = 0;
    while i < n
        invariant
            i <= n,
            n == s@.len(),
            out@ == old(out)@ + spec_escape(s@.take(i as int)),
        decreases n - i,
    {
        let c = s.get_char(i);
        let v = c as u32;
        if c == '"' {
            push_char(out, '\\');
            push_char(out, '"');
        } else if c == '\\' {
            push_char(out, '\\');
            push_char(out, '\\');
        } else if c == '\n' {
            push_char(out, '\\');
            push_char(out, 'n');
        } else if c == '\r' {
            push_char(out, '\\');
            push_char(out, 'r');
        } else if c == '\t' {
            push_char(out, '\\');
            push_char(out, 't');
        } else if v < 32 {
            push_char(out, '\\');
            push_char(out, 'u');
            push_char(out, '0');
            push_char(out, '0');
            push_char(out, hex_char(v / 16));
            push_char(out, hex_char(v % 16));
        } else {
            push_char(out, c);
        }
        proof {
            assert(s@.take(i + 1).drop_last() =~= s@.take(i as int));
            assert(s@.take(i + 1).last() == s@[i as int]);
            assert(out@ =~= old(out)@ + spec_escape(s@.take(i + 1)));
        }
        i = i + 1;
    }
    proof {
        assert(s@.take(n as int) =~= s@);
    }
}

/// One record on the wire: task, milliseconds, date, and a nullable project.
pub open spec fn spec_record_json(rec: Record) -> Seq<char> {
    "{\"task\":\""@ + spec_escape(rec.task@) + "\",\"duration_ms\":"@ + spec_dec_i64(
        rec.duration_ms as int,
    ) + ",\"date\":\""@ + spec_format_date(rec.date) + "\",\"project\":"@ + (match rec.project {
        None => "null"@,
        Some(p) => seq!['"'] + spec_escape(p@) + seq!['"'],
    }) + "}"@
}

pub open spec fn spec_records_items(rs: Seq<Record>) -> Seq<char>
    decreases rs.len(),
{
    if rs.len() == 0 {
        Seq::<char>::empty()
    } else if rs.len() == 1 {
        spec_record_json(rs[0])
    } else {
        spec_records_items(rs.drop_last()) + seq![','] + spec_record_json(rs.last())
    }
}

/// The whole request payload: the records array, the period's canonical
/// lowercase name, and the configuration text spliced in verbatim. The caller
/// is responsible for the configuration being a well-formed object.
pub open spec fn spec_request_json(rs: Seq<Record>, period: Period, config: Seq<char>) -> Seq<
    char,
> {
    "{\"records\":["@ + spec_records_items(rs) + "],\"period\":\""@ + spec_period_name(period)
        + "\",\"config\":"@ + config + "}"@
}

fn append_record_json(out: &mut String, rec: &Record)
    requires
        valid_date(rec.date),
    ensures
        final(out)@ == old(out)@ + spec_record_json(*rec),
{
    proof {
        reveal_strlit("{\"task\":\"");
        reveal_strlit("\",\"duration_ms\":");
        reveal_strlit(",\"date\":\"");
        reveal_strlit("\",\"project\":");
        reveal_strlit("null");
        reveal_strlit("}");
    }
    out.append("{\"task\":\"");
    append_escaped(out, rec.task.as_str());
    out.append("\",\"duration_ms\":");
    let dur = format_i64(rec.duration_ms);
    out.append(dur.as_str());
    out.append(",\"date\":\"");
    let date = format_date(rec.date);
    out.append(date.as_str());
    out.append("\",\"project\":");
    match &rec.project {
        None => out.append("null"),
        Some(p) => {
            push_char(out, '"');
            append_escaped(out, p.as_str());
            push_char(out, '"');
        },
    }
    out.append("}");
    assert(out@ =~= old(out)@ + spec_record_json(*rec));
}

/// Builds the request payload sent to a plugin's input stream.
pub fn serialize_request(records: &Vec<Record>, period: Period, config: &str) -> (r: String)
    requires
        forall|k: int| 0 <= k < records@.len() ==> valid_date((#[trigger] records@[k]).date),
    ensures
        r@ == spec_request_json(records@, period, config@),
{
    proof {
        reveal_strlit("{\"records\":[");
        reveal_strlit("],\"period\":\"");
        reveal_strlit("\",\"config\":");
        reveal_strlit("}");
    }
    let mut out = String::from_str("{\"records\":[");
    let ghost header = out@;
    let mut i: usize = 0;
    while i < records.len()
        invariant
            i <= records@.len(),
            forall|k: int| 0 <= k < records@.len() ==> valid_date((#[trigger] records@[k]).date),
            out@ == header + spec_records_items(records@.take(i as int)),
        decreases records@.len() - i,
    {
        if i > 0 {
            push_char(&mut out, ',');
        }
        append_record_json(&mut out, &records[i]);
        proof {
            assert(records@.take(i + 1).drop_last() =~= records@.take(i as int));
            assert(records@.take(i + 1).last() == records@[i as int]);
            if i > 0 {
                assert(records@.take(i + 1).len() > 1);
            } else {
                assert(records@.take(1).len() == 1);
                assert(records@.take(1)[0] == records@[0]);
            }
            assert(out@ =~= header + spec_records_items(records@.take(i + 1)));
        }
        i = i + 1;
    }
    proof {
        assert(records@.take(records@.len() as int) =~= records@);
    }
    out.append("],\"period\":\"");
    out.append(period_name(period));
    out.append("\",\"config\":");
    out.append(config);
    out.append("}");
    assert(out@ =~= spec_request_json(records@, period, config@));
    out
}

} // verus!
