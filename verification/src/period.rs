//! The period-range calculus: maps a named reporting period and a reference
//! date to an inclusive range of calendar dates.
use vstd::arithmetic::div_mod::lemma_div_is_ordered_by_denominator;
use vstd::arithmetic::div_mod::lemma_fundamental_div_mod;
use vstd::arithmetic::div_mod::lemma_fundamental_div_mod_converse;
use vstd::arithmetic::div_mod::lemma_mod_division_less_than_divisor;
use vstd::prelude::*;

use crate::date::spec_day_number;
use crate::date::spec_days_in_month;
use crate::date::spec_prev_day;
use crate::date::spec_sub_days;
use crate::date::spec_weekday;
use crate::date::lemma_prev_day;
use crate::date::prev_day;
use crate::date::sub_days;
use crate::date::valid_date;
use crate::date::weekday;
use crate::date::Date;

verus! {

/// The closed set of reporting periods.
#[derive(Clone, Copy, PartialEq, Eq, Structural, Debug)]
pub enum Period {
    Today,
    Yesterday,
    ThisWeek,
    LastWeek,
    ThisMonth,
    LastMonth,
    YTD,
    LastYear,
}

/// The inclusive date range a period selects around a reference date.
/// Weeks start on Monday; LastMonth and LastYear are whole calendar units.
pub open spec fn spec_period_range(period: Period, today: Date) -> (Date, Date) {
    match period {
        Period::Today => (today, today),
        Period::Yesterday => (spec_prev_day(today), spec_prev_day(today)),
        Period::ThisWeek => (spec_sub_days(today, spec_weekday(today) as nat), today),
        Period::LastWeek => (
            spec_sub_days(today, (spec_weekday(today) + 7) as nat),
            spec_sub_days(today, (spec_weekday(today) + 1) as nat),
        ),
        Period::ThisMonth => (Date { year: today.year, month: today.month, day: 1 }, today),
        Period::LastMonth => {
            let y = if today.month == 1 {
                today.year - 1
            } else {
                today.year as int
            };
            let m = if today.month == 1 {
                12int
            } else {
                today.month - 1
            };
            (
                Date { year: y as u32, month: m as u32, day: 1 },
                Date { year: y as u32, month: m as u32, day: spec_days_in_month(y, m) as u32 },
            )
        },
        Period::YTD => (Date { year: today.year, month: 1, day: 1 }, today),
        Period::LastYear => (
            Date { year: (today.year - 1) as u32, month: 1, day: 1 },
            Date { year: (today.year - 1) as u32, month: 12, day: 31 },
        ),
    }
}

/// A valid date in year 2 or later lies at least a full year's worth of days
/// into the calendar, so any range this module builds stays representable.
proof fn lemma_day_number_lower_bound(d: Date)
    requires
        valid_date(d),
        d.year >= 2,
    ensures
        spec_day_number(d) >= 365,
{
    lemma_div_is_ordered_by_denominator(d.year - 1, 4, 100);
}

/// Stepping back any number of days keeps a date valid and lowers its day
/// count by exactly that number.
pub proof fn lemma_sub_days_props(d: Date, n: nat)
    requires
        valid_date(d),
        n <= spec_day_number(d),
    ensures
        valid_date(spec_sub_days(d, n)),
        spec_day_number(spec_sub_days(d, n)) == spec_day_number(d) - n,
    decreases n,
{
    if n > 0 {
        lemma_sub_days_props(d, (n - 1) as nat);
        lemma_prev_day(spec_sub_days(d, (n - 1) as nat));
    }
}

/// The inclusive `(start, end)` range of a period around a reference date.
pub fn period_range(period: Period, today: Date) -> (r: (Date, Date))
    requires
        valid_date(today),
        today.year >= 2,
    ensures
        r == spec_period_range(period, today),
        valid_date(r.0),
        valid_date(r.1),
        spec_day_number(r.0) <= spec_day_number(r.1),
{
    proof {
        lemma_day_number_lower_bound(today);
    }
    match period {
        Period::Today => (today, today),
        Period::Yesterday => {
            let y = prev_day(today);
            (y, y)
        },
        Period::ThisWeek => {
            let start = sub_days(today, weekday(today));
            (start, today)
        },
        Period::LastWeek => {
            let w = weekday(today);
            let start = sub_days(today, w + 7);
            let end = sub_days(today, w + 1);
            (start, end)
        },
        Period::ThisMonth => {
            let start = Date { year: today.year, month: today.month, day: 1 };
            (start, today)
        },
        Period::LastMonth => {
            let start = if today.month == 1 {
                Date { year: today.year - 1, month: 12, day: 1 }
            } else {
                Date { year: today.year, month: today.month - 1, day: 1 }
            };
            let this_month_start = Date { year: today.year, month: today.month, day: 1 };
            let end = prev_day(this_month_start);
            (start, end)
        },
        Period::YTD => {
            let start = Date { year: today.year, month: 1, day: 1 };
            (start, today)
        },
        Period::LastYear => {
            let start = Date { year: today.year - 1, month: 1, day: 1 };
            let end = Date { year: today.year - 1, month: 12, day: 31 };
            (start, end)
        },
    }
}

/// The ThisWeek range always starts on a Monday, ends on the reference date
/// itself, and spans at most seven days.
pub proof fn lemma_this_week_starts_monday(today: Date)
    requires
        valid_date(today),
        today.year >= 2,
    ensures
        ({
            let (start, end) = spec_period_range(Period::ThisWeek, today);
            &&& valid_date(start)
            &&& spec_weekday(start) == 0
            &&& end == today
            &&& 0 <= spec_day_number(end) - spec_day_number(start) <= 6
        }),
{
    let dn = spec_day_number(today);
    lemma_day_number_lower_bound(today);
    lemma_mod_division_less_than_divisor(dn, 7);
    let w = spec_weekday(today);
    lemma_sub_days_props(today, w as nat);
    let start = spec_sub_days(today, w as nat);
    lemma_fundamental_div_mod(dn, 7);
    assert(spec_day_number(start) == 7 * (dn / 7));
    assert(7 * (dn / 7) == (dn / 7) * 7 + 0) by (nonlinear_arith);
    lemma_fundamental_div_mod_converse(spec_day_number(start), 7, dn / 7, 0);
}

/// The period calculus is idempotent under its own output: the ThisWeek range
/// around its own start — a Monday — is that single Monday.
pub proof fn lemma_this_week_idempotent(today: Date)
    requires
        valid_date(today),
        today.year >= 2,
    ensures
        ({
            let (start, end) = spec_period_range(Period::ThisWeek, today);
            spec_period_range(Period::ThisWeek, start) == (start, start)
        }),
{
    lemma_this_week_starts_monday(today);
}

/// In January, the LastMonth range is exactly December of the previous year,
/// ending on December 31st.
pub proof fn lemma_last_month_in_january(today: Date)
    requires
        valid_date(today),
        today.year >= 2,
        today.month == 1,
    ensures
        spec_period_range(Period::LastMonth, today) == (
            Date { year: (today.year - 1) as u32, month: 12, day: 1 },
            Date { year: (today.year - 1) as u32, month: 12, day: 31 },
        ),
{
}

/// The canonical lowercase name of a period, as sent to plugins.
pub open spec fn spec_period_name(p: Period) -> Seq<char> {
    match p {
        Period::Today => "today"@,
        Period::Yesterday => "yesterday"@,
        Period::ThisWeek => "thisweek"@,
        Period::LastWeek => "lastweek"@,
        Period::ThisMonth => "thismonth"@,
        Period::LastMonth => "lastmonth"@,
        Period::YTD => "ytd"@,
        Period::LastYear => "lastyear"@,
    }
}

pub fn period_name(p: Period) -> (r: &'static str)
    ensures
        r@ == spec_period_name(p),
{
    match p {
        Period::Today => "today",
        Period::Yesterday => "yesterday",
        Period::ThisWeek => "thisweek",
        Period::LastWeek => "lastweek",
        Period::ThisMonth => "thismonth",
        Period::LastMonth => "lastmonth",
        Period::YTD => "ytd",
        Period::LastYear => "lastyear",
    }
}

/// The human-readable report title of a period.
pub open spec fn spec_period_title(p: Period) -> Seq<char> {
    match p {
        Period::Today => "Today"@,
        Period::Yesterday => "Yesterday"@,
        Period::ThisWeek => "This Week"@,
        Period::LastWeek => "Last Week"@,
        Period::ThisMonth => "This Month"@,
        Period::LastMonth => "Last Month"@,
        Period::YTD => "Year To Date"@,
        Period::LastYear => "Last Year"@,
    }
}

pub fn period_title(p: Period) -> (r: &'static str)
    ensures
        r@ == spec_period_title(p),
{
    match p {
        Period::Today => "Today",
        Period::Yesterday => "Yesterday",
        Period::ThisWeek => "This Week",
        Period::LastWeek => "Last Week",
        Period::ThisMonth => "This Month",
        Period::LastMonth => "Last Month",
        Period::YTD => "Year To Date",
        Period::LastYear => "Last Year",
    }
}

} // verus!
