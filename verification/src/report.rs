//! The report engine: filters completed records to a period's inclusive date
//! range and an optional exact project label, sorts ascending by date and then
//! task name, and totals the durations for display.
use vstd::prelude::*;
use vstd::seq_lib::to_multiset_build;
use vstd::seq_lib::to_multiset_insert;

use crate::date::spec_format_date;
use crate::date::spec_weekday;
use crate::date::spec_weekday_name;
use crate::date::format_date;
use crate::date::valid_date;
use crate::date::weekday;
use crate::date::weekday_short;
use crate::date::Date;
use crate::duration::spec_fmt_duration;
use crate::duration::fmt_duration;
use crate::numbers::spec_pad2;
use crate::numbers::pad2;
use crate::period::Period;
use crate::records::Record;
use crate::text::push_char;

verus! {

/// Calendar order on dates: by year, then month, then day.
pub open spec fn spec_date_le(a: Date, b: Date) -> bool {
    a.year < b.year || (a.year == b.year && (a.month < b.month || (a.month == b.month && a.day
        <= b.day)))
}

/// On valid dates, the report's calendar order is exactly the order of the
/// period calculus's day count: the records kept by a range filter are the
/// ones dated within that range's days.
pub proof fn lemma_date_le_matches_day_count(a: Date, b: Date)
    requires
        valid_date(a),
        valid_date(b),
    ensures
        spec_date_le(a, b) <==> crate::date::spec_day_number(a) <= crate::date::spec_day_number(b),
{
    if a != b {
        if spec_date_le(a, b) {
            crate::date::lemma_day_number_strictly_monotone(a, b);
        } else {
            crate::date::lemma_day_number_strictly_monotone(b, a);
        }
    }
}

pub fn date_le(a: Date, b: Date) -> (r: bool)
    ensures
        r == spec_date_le(a, b),
{
    a.year < b.year || (a.year == b.year && (a.month < b.month || (a.month == b.month && a.day
        <= b.day)))
}

/// Lexicographic order on text, by code point.
pub open spec fn spec_str_le(a: Seq<char>, b: Seq<char>) -> bool
    decreases a.len(),
{
    if a.len() == 0 {
        true
    } else if b.len() == 0 {
        false
    } else if (a[0] as u32) < (b[0] as u32) {
        true
    } else if (a[0] as u32) > (b[0] as u32) {
        false
    } else {
        spec_str_le(a.drop_first(), b.drop_first())
    }
}

proof fn lemma_str_le_total(a: Seq<char>, b: Seq<char>)
    ensures
        spec_str_le(a, b) || spec_str_le(b, a),
    decreases a.len(),
{
    if a.len() > 0 && b.len() > 0 && a[0] as u32 == b[0] as u32 {
        lemma_str_le_total(a.drop_first(), b.drop_first());
    }
}

proof fn lemma_str_le_trans(a: Seq<char>, b: Seq<char>, c: Seq<char>)
    requires
        spec_str_le(a, b),
        spec_str_le(b, c),
    ensures
        spec_str_le(a, c),
    decreases a.len(),
{
    if a.len() > 0 && b.len() > 0 && c.len() > 0 && a[0] as u32 == b[0] as u32 && b[0] as u32
        == c[0] as u32 {
        lemma_str_le_trans(a.drop_first(), b.drop_first(), c.drop_first());
    }
}

pub fn str_le(a: &str, b: &str) -> (r: bool)
    ensures
        r == spec_str_le(a@, b@),
{
    let la = a.unicode_len();
    let lb = b.unicode_len();
    let mut i: usize = 0;
    proof {
        assert(a@.skip(0) =~= a@);
        assert(b@.skip(0) =~= b@);
    }
    while i < la && i < lb
        invariant
            i <= la,
            i <= lb,
            la == a@.len(),
            lb == b@.len(),
            spec_str_le(a@, b@) == spec_str_le(a@.skip(i as int), b@.skip(i as int)),
        decreases la - i,
    {
        let ca = a.get_char(i) as u32;
        let cb = b.get_char(i) as u32;
        proof {
            assert(a@.skip(i as int)[0] == a@[i as int]);
            assert(b@.skip(i as int)[0] == b@[i as int]);
        }
        if ca < cb {
            return true;
        }
        if ca > cb {
            return false;
        }
        proof {
            assert(a@[i as int] as u32 == b@[i as int] as u32);
            assert(a@.skip(i as int).drop_first() =~= a@.skip(i + 1));
            assert(b@.skip(i as int).drop_first() =~= b@.skip(i + 1));
        }
        i = i + 1;
    }
    proof {
        if i == la {
            assert(a@.skip(i as int).len() == 0);
        } else {
            assert(b@.skip(i as int).len() == 0);
            assert(a@.skip(i as int).len() > 0);
        }
    }
    la <= lb
}

/// The report's sort order on records: by date, ties broken by task name.
pub open spec fn spec_record_le(a: Record, b: Record) -> bool {
    if a.date == b.date {
        spec_str_le(a.task@, b.task@)
    } else {
        spec_date_le(a.date, b.date)
    }
}

proof fn lemma_record_le_total(a: Record, b: Record)
    ensures
        spec_record_le(a, b) || spec_record_le(b, a),
{
    lemma_str_le_total(a.task@, b.task@);
}

proof fn lemma_record_le_trans(a: Record, b: Record, c: Record)
    requires
        spec_record_le(a, b),
        spec_record_le(b, c),
    ensures
        spec_record_le(a, c),
{
    if a.date == b.date && b.date == c.date {
        lemma_str_le_trans(a.task@, b.task@, c.task@);
    }
}

fn record_le(a: &Record, b: &Record) -> (r: bool)
    ensures
        r == spec_record_le(*a, *b),
{
    if a.date == b.date {
        str_le(a.task.as_str(), b.task.as_str())
    } else {
        date_le(a.date, b.date)
    }
}

impl Record {
    /// A field-for-field copy.
    pub fn duplicate(&self) -> (r: Record)
        ensures
            r == *self,
    {
        Record {
            task: self.task.clone(),
            duration_ms: self.duration_ms,
            date: self.date,
            project: match &self.project {
                Some(p) => Some(p.clone()),
                None => None,
            },
        }
    }
}

/// Whether a record passes the project filter: no filter keeps everything; a
/// filter keeps exactly the records whose project label matches it, so records
/// without a project never match a filter.
pub open spec fn spec_project_matches(rp: Option<String>, filter: Option<String>) -> bool {
    match filter {
        None => true,
        Some(f) => match rp {
            Some(p) => p@ == f@,
            None => false,
        },
    }
}

/// Whether the report keeps a record: dated within the inclusive range and
/// passing the project filter.
pub open spec fn spec_report_keep(rec: Record, start: Date, end: Date, filter: Option<
    String,
>) -> bool {
    spec_date_le(start, rec.date) && spec_date_le(rec.date, end) && spec_project_matches(
        rec.project,
        filter,
    )
}

fn project_matches(rp: &Option<String>, filter: &Option<String>) -> (r: bool)
    ensures
        r == spec_project_matches(*rp, *filter),
{
    match filter {
        None => true,
        Some(f) => match rp {
            Some(p) => p.eq(f),
            None => false,
        },
    }
}

/// Keeps, in their original order, exactly the records dated within the
/// inclusive range that pass the project filter.
pub fn filter_records(records: &Vec<Record>, start: Date, end: Date, project: &Option<String>) -> (r:
    Vec<Record>)
    ensures
        r@ == records@.filter(
            |rec: Record| spec_report_keep(rec, start, end, *project),
        ),
{
    let ghost pred = |rec: Record| spec_report_keep(rec, start, end, *project);
    let mut out: Vec<Record> = Vec::new();
    let mut i: usize = 0;
    proof {
        reveal(Seq::filter);
        assert(records@.take(0).filter(pred) =~= Seq::<Record>::empty());
    }
    while i < records.len()
        invariant
            i <= records@.len(),
            out@ == records@.take(i as int).filter(pred),
            pred == (|rec: Record| spec_report_keep(rec, start, end, *project)),
        decreases records@.len() - i,
    {
        let rec = &records[i];
        let keep = date_le(start, rec.date) && date_le(rec.date, end) && project_matches(
            &rec.project,
            project,
        );
        proof {
            reveal(Seq::filter);
            assert(records@.take(i + 1).drop_last() =~= records@.take(i as int));
            assert(records@.take(i + 1).last() == records@[i as int]);
            assert(keep == pred(records@[i as int]));
        }
        if keep {
            out.push(rec.duplicate());
        }
        i = i + 1;
    }
    proof {
        assert(records@.take(records@.len() as int) =~= records@);
    }
    out
}

pub open spec fn spec_sorted_records(s: Seq<Record>) -> bool {
    forall|i: int, j: int|
        0 <= i < j < s.len() ==> spec_record_le(#[trigger] s[i], #[trigger] s[j])
}

/// Insertion into a sorted sequence, after every record that compares
/// less-or-equal: a stable insertion.
pub open spec fn spec_insert_sorted(s: Seq<Record>, rec: Record) -> Seq<Record>
    decreases s.len(),
{
    if s.len() == 0 {
        seq![rec]
    } else if spec_record_le(s[0], rec) {
        seq![s[0]] + spec_insert_sorted(s.drop_first(), rec)
    } else {
        seq![rec] + s
    }
}

/// The stable insertion sort of a sequence of records: each record goes in
/// after all the records it ties with, so equal keys keep their store order.
pub open spec fn spec_sort_records(s: Seq<Record>) -> Seq<Record>
    decreases s.len(),
{
    if s.len() == 0 {
        Seq::<Record>::empty()
    } else {
        spec_insert_sorted(spec_sort_records(s.drop_last()), s.last())
    }
}

/// Inserting after exactly the `pos` leading records that compare
/// less-or-equal is the stable insertion.
proof fn lemma_insert_sorted_at(s: Seq<Record>, rec: Record, pos: int)
    requires
        0 <= pos <= s.len(),
        forall|k: int| 0 <= k < pos ==> spec_record_le(#[trigger] s[k], rec),
        pos < s.len() ==> !spec_record_le(s[pos], rec),
    ensures
        spec_insert_sorted(s, rec) == s.insert(pos, rec),
    decreases s.len(),
{
    if s.len() == 0 {
        assert(spec_insert_sorted(s, rec) =~= s.insert(0, rec));
    } else if spec_record_le(s[0], rec) {
        assert(pos >= 1);
        assert forall|k: int| 0 <= k < pos - 1 implies spec_record_le(
            #[trigger] s.drop_first()[k],
            rec,
        ) by {
            assert(s.drop_first()[k] == s[k + 1]);
        }
        assert(pos - 1 < s.drop_first().len() ==> !spec_record_le(s.drop_first()[pos - 1], rec));
        lemma_insert_sorted_at(s.drop_first(), rec, pos - 1);
        assert(spec_insert_sorted(s, rec) =~= s.insert(pos, rec));
    } else {
        assert(pos == 0);
        assert(spec_insert_sorted(s, rec) =~= s.insert(0, rec));
    }
}

/// Sorts records ascending by date, ties by task name: the result is the
/// stable insertion sort of the input — ordered, the same records with the
/// same multiplicity, and equal keys in their original order.
pub fn sort_records(records: &Vec<Record>) -> (r: Vec<Record>)
    ensures
        r@ == spec_sort_records(records@),
        spec_sorted_records(r@),
        r@.to_multiset() == records@.to_multiset(),
{
    let mut out: Vec<Record> = Vec::new();
    let mut i: usize = 0;
    proof {
        broadcast use to_multiset_build;
        broadcast use to_multiset_insert;

        assert(records@.take(0) =~= Seq::<Record>::empty());
        assert(out@.to_multiset() =~= records@.take(0).to_multiset());
        assert(out@ =~= spec_sort_records(records@.take(0)));
    }
    while i < records.len()
        invariant
            i <= records@.len(),
            spec_sorted_records(out@),
            out@ == spec_sort_records(records@.take(i as int)),
            out@.to_multiset() == records@.take(i as int).to_multiset(),
        decreases records@.len() - i,
    {
        broadcast use to_multiset_build;
        broadcast use to_multiset_insert;

        let rec = records[i].duplicate();
        let mut pos: usize = 0;
        while pos < out.len()
            invariant
                pos <= out@.len(),
                forall|k: int| 0 <= k < pos ==> spec_record_le(#[trigger] out@[k], rec),
            ensures
                pos <= out@.len(),
                forall|k: int| 0 <= k < pos ==> spec_record_le(#[trigger] out@[k], rec),
                pos < out@.len() ==> !spec_record_le(out@[pos as int], rec),
            decreases out@.len() - pos,
        {
            if !record_le(&out[pos], &rec) {
                break ;
            }
            pos = pos + 1;
        }
        proof {
            if pos < out@.len() {
                lemma_record_le_total(out@[pos as int], rec);
            }
            let prev = out@;
            let ins = prev.insert(pos as int, rec);
            assert forall|x: int, y: int| 0 <= x < y < ins.len() implies spec_record_le(
                #[trigger] ins[x],
                #[trigger] ins[y],
            ) by {
                if x < pos && y == pos {
                } else if x == pos && y > pos {
                    assert(ins[y] == prev[y - 1]);
                    if y - 1 > pos {
                        lemma_record_le_trans(rec, prev[pos as int], prev[y - 1]);
                    }
                } else if x < pos && y > pos {
                    assert(ins[x] == prev[x] && ins[y] == prev[y - 1]);
                } else if x > pos && y > pos {
                    assert(ins[x] == prev[x - 1] && ins[y] == prev[y - 1]);
                } else {
                }
            }
            assert(records@.take(i + 1) =~= records@.take(i as int).push(records@[i as int]));
            assert(records@.take(i as int).push(records@[i as int]).to_multiset()
                =~= records@.take(i as int).to_multiset().insert(records@[i as int]));
            assert(prev.insert(pos as int, rec).to_multiset() == prev.to_multiset().insert(rec));
            lemma_insert_sorted_at(prev, rec, pos as int);
            assert(records@.take(i + 1).drop_last() =~= records@.take(i as int));
            assert(spec_sort_records(records@.take(i + 1)) == spec_insert_sorted(prev, rec));
        }
        out.insert(pos, rec);
        i = i + 1;
    }
    proof {
        assert(records@.take(records@.len() as int) =~= records@);
    }
    out
}

/// The running total of the durations of a sequence of records.
pub open spec fn spec_total_ms(s: Seq<Record>) -> int
    decreases s.len(),
{
    if s.len() == 0 {
        0
    } else {
        spec_total_ms(s.drop_last()) + s.last().duration_ms
    }
}

proof fn lemma_total_take_le(s: Seq<Record>, i: int)
    requires
        forall|k: int| 0 <= k < s.len() ==> (#[trigger] s[k]).duration_ms >= 0,
        0 <= i <= s.len(),
    ensures
        spec_total_ms(s.take(i)) <= spec_total_ms(s),
        spec_total_ms(s.take(i)) >= 0,
    decreases s.len() - i,
{
    assert forall|k: int| 0 <= k < s.take(i).len() implies (#[trigger] s.take(
        i,
    )[k]).duration_ms >= 0 by {
        assert(s.take(i)[k] == s[k]);
    }
    lemma_total_nonneg(s.take(i));
    if i == s.len() {
        assert(s.take(i) =~= s);
    } else {
        lemma_total_take_le(s, i + 1);
        assert(s.take(i + 1).drop_last() =~= s.take(i));
        assert(s.take(i + 1).last() == s[i]);
    }
}

proof fn lemma_total_nonneg(s: Seq<Record>)
    requires
        forall|k: int| 0 <= k < s.len() ==> (#[trigger] s[k]).duration_ms >= 0,
    ensures
        spec_total_ms(s) >= 0,
    decreases s.len(),
{
    if s.len() > 0 {
        assert forall|k: int| 0 <= k < s.drop_last().len() implies (#[trigger] s.drop_last()[k]).duration_ms
            >= 0 by {
            assert(s.drop_last()[k] == s[k]);
        }
        lemma_total_nonneg(s.drop_last());
    }
}

/// Sums the durations of records whose durations are all non-negative.
pub fn total_duration(records: &Vec<Record>) -> (r: i64)
    requires
        forall|k: int|
            0 <= k < records@.len() ==> (#[trigger] records@[k]).duration_ms >= 0,
        spec_total_ms(records@) <= i64::MAX,
    ensures
        r == spec_total_ms(records@),
{
    let mut acc: i64 = 0;
    let mut i: usize = 0;
    proof {
        assert(records@.take(0) =~= Seq::<Record>::empty());
    }
    while i < records.len()
        invariant
            i <= records@.len(),
            forall|k: int|
                0 <= k < records@.len() ==> (#[trigger] records@[k]).duration_ms >= 0,
            spec_total_ms(records@) <= i64::MAX,
            acc == spec_total_ms(records@.take(i as int)),
        decreases records@.len() - i,
    {
        proof {
            assert(records@.take(i + 1).drop_last() =~= records@.take(i as int));
            assert(records@.take(i + 1).last() == records@[i as int]);
            lemma_total_take_le(records@, i + 1);
            lemma_total_take_le(records@, i as int);
        }
        acc = acc + records[i].duration_ms;
        i = i + 1;
    }
    proof {
        assert(records@.take(records@.len() as int) =~= records@);
    }
    acc
}

/// The date label a report row shows, tailored to the period: a fixed word
/// for single-day periods, weekday and month-day within weeks, month-day
/// within months, and the full date for year-long periods.
pub open spec fn spec_date_label(period: Period, d: Date) -> Seq<char> {
    match period {
        Period::Today => "Today"@,
        Period::Yesterday => "Yesterday"@,
        Period::ThisWeek | Period::LastWeek => spec_weekday_name(spec_weekday(d)) + seq![' ']
            + spec_pad2(d.month as nat) + seq!['-'] + spec_pad2(d.day as nat),
        Period::ThisMonth | Period::LastMonth => spec_pad2(d.month as nat) + seq!['-'] + spec_pad2(
            d.day as nat,
        ),
        Period::YTD | Period::LastYear => spec_format_date(d),
    }
}

pub open spec fn spec_spaces(n: nat) -> Seq<char>
    decreases n,
{
    if n == 0 {
        Seq::<char>::empty()
    } else {
        spec_spaces((n - 1) as nat).push(' ')
    }
}

fn spaces(n: usize) -> (r: String)
    ensures
        r@ == spec_spaces(n as nat),
{
    let mut out = String::new();
    let mut i: usize = 0;
    while i < n
        invariant
            i <= n,
            out@ == spec_spaces(i as nat),
        decreases n - i,
    {
        push_char(&mut out, ' ');
        i = i + 1;
    }
    out
}

/// One bullet line of a report: the task name padded to eighteen characters,
/// the formatted duration, and the period-tailored date label in parentheses.
pub open spec fn spec_fmt_record_for_period(rec: Record, period: Period) -> Seq<char> {
    let pad = if rec.task@.len() < 18 {
        (18 - rec.task@.len()) as nat
    } else {
        0nat
    };
    seq!['\u{2022}', ' '] + rec.task@ + spec_spaces(pad) + seq![' '] + spec_fmt_duration(
        rec.duration_ms as int,
    ) + seq![' ', ' ', '('] + spec_date_label(period, rec.date) + seq![')']
}

pub fn fmt_record_for_period(rec: &Record, period: Period, _today: Date) -> (r: String)
    requires
        valid_date(rec.date),
        rec.duration_ms >= 0,
    ensures
        r@ == spec_fmt_record_for_period(*rec, period),
{
    let mut out = String::new();
    push_char(&mut out, '\u{2022}');
    push_char(&mut out, ' ');
    out.append(rec.task.as_str());
    let task_len = rec.task.as_str().unicode_len();
    let pad = if task_len < 18 {
        18 - task_len
    } else {
        0
    };
    let padding = spaces(pad);
    out.append(padding.as_str());
    push_char(&mut out, ' ');
    let dur = fmt_duration(rec.duration_ms);
    out.append(dur.as_str());
    push_char(&mut out, ' ');
    push_char(&mut out, ' ');
    push_char(&mut out, '(');
    let label = date_label(period, rec.date);
    out.append(label.as_str());
    push_char(&mut out, ')');
    assert(out@ =~= spec_fmt_record_for_period(*rec, period));
    out
}

fn date_label(period: Period, d: Date) -> (r: String)
    requires
        valid_date(d),
    ensures
        r@ == spec_date_label(period, d),
{
    match period {
        Period::Today => {
            proof {
                reveal_strlit("Today");
            }
            String::from_str("Today")
        },
        Period::Yesterday => {
            proof {
                reveal_strlit("Yesterday");
            }
            String::from_str("Yesterday")
        },
        Period::ThisWeek | Period::LastWeek => {
            let w = weekday(d);
            let mut out = String::from_str(weekday_short(w));
            push_char(&mut out, ' ');
            let mpart = pad2(d.month as u64);
            out.append(mpart.as_str());
            push_char(&mut out, '-');
            let dpart = pad2(d.day as u64);
            out.append(dpart.as_str());
            assert(out@ =~= spec_date_label(period, d));
            out
        },
        Period::ThisMonth | Period::LastMonth => {
            let mut out = pad2(d.month as u64);
            push_char(&mut out, '-');
            let dpart = pad2(d.day as u64);
            out.append(dpart.as_str());
            assert(out@ =~= spec_date_label(period, d));
            out
        },
        Period::YTD | Period::LastYear => format_date(d),
    }
}

} // verus!
