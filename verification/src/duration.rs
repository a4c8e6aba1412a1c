//! Display formatting for elapsed times, which are always whole milliseconds.
use vstd::prelude::*;

use crate::numbers::{pad2, pad3, spec_pad2, spec_pad3};
use crate::text::push_char;

verus! {

/// `HHhMMm` or `HHhMMmSSs` text of a millisecond count: the seconds component
/// appears exactly when it is non-zero.
pub open spec fn spec_fmt_duration(ms: int) -> Seq<char>
    recommends
        ms >= 0,
{
    let total = ms / 1000;
    let h = total / 3600;
    let m = (total % 3600) / 60;
    let s = total % 60;
    if s == 0 {
        spec_pad2(h as nat) + seq!['h'] + spec_pad2(m as nat) + seq!['m']
    } else {
        spec_pad2(h as nat) + seq!['h'] + spec_pad2(m as nat) + seq!['m'] + spec_pad2(s as nat)
            + seq!['s']
    }
}

/// `HH:MM:SS.mmm` text of a millisecond count.
pub open spec fn spec_fmt_hms_ms(ms: int) -> Seq<char>
    recommends
        ms >= 0,
{
    let total = ms / 1000;
    let h = total / 3600;
    let m = (total % 3600) / 60;
    let s = total % 60;
    let frac = ms % 1000;
    spec_pad2(h as nat) + seq![':'] + spec_pad2(m as nat) + seq![':'] + spec_pad2(s as nat)
        + seq!['.'] + spec_pad3(frac as nat)
}

pub fn fmt_duration(ms: i64) -> (r: String)
    requires
        ms >= 0,
    ensures
        r@ == spec_fmt_duration(ms as int),
{
    let total = ms / 1000;
    let h = total / 3600;
    let m = (total % 3600) / 60;
    let s = total % 60;
    let mut out = pad2(h as u64);
    push_char(&mut out, 'h');
    let mpart = pad2(m as u64);
    out.append(mpart.as_str());
    push_char(&mut out, 'm');
    if s == 0 {
        assert(out@ =~= spec_fmt_duration(ms as int));
        out
    } else {
        let spart = pad2(s as u64);
        out.append(spart.as_str());
        push_char(&mut out, 's');
        assert(out@ =~= spec_fmt_duration(ms as int));
        out
    }
}

pub fn fmt_hms_ms(ms: i64) -> (r: String)
    requires
        ms >= 0,
    ensures
        r@ == spec_fmt_hms_ms(ms as int),
{
    let total = ms / 1000;
    let h = total / 3600;
    let m = (total % 3600) / 60;
    let s = total % 60;
    let frac = ms % 1000;
    let mut out = pad2(h as u64);
    push_char(&mut out, ':');
    let mpart = pad2(m as u64);
    out.append(mpart.as_str());
    push_char(&mut out, ':');
    let spart = pad2(s as u64);
    out.append(spart.as_str());
    push_char(&mut out, '.');
    let fpart = pad3(frac as u64);
    out.append(fpart.as_str());
    assert(out@ =~= spec_fmt_hms_ms(ms as int));
    out
}

/// Clamps a millisecond count to be non-negative; negative elapsed times
/// (possible only under clock skew) are never displayed, and never persisted
/// as a completed record's duration.
pub fn clamp_nonneg(ms: i64) -> (r: i64)
    ensures
        r == if ms < 0 { 0int } else { ms as int },
{
    if ms < 0 {
        0
    } else {
        ms
    }
}

} // verus!
