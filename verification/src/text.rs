//! Small string-building helpers shared by the formatting and protocol code.
use vstd::prelude::*;

verus! {

/// Relies on std's `String::push`: appends exactly one character at the end.
#[verifier::external_body]
pub(crate) fn push_char(s: &mut String, c: char)
    ensures
        final(s)@ == old(s)@.push(c),
{
    s.push(c)
}

/// The terminal escape that starts bold text.
pub open spec fn spec_bold_on() -> Seq<char> {
    seq!['\x1b', '[', '1', 'm']
}

/// The terminal escape that returns to normal text.
pub open spec fn spec_bold_off() -> Seq<char> {
    seq!['\x1b', '[', '0', 'm']
}

pub open spec fn spec_emph(s: Seq<char>, tty: bool) -> Seq<char> {
    if tty {
        spec_bold_on() + s + spec_bold_off()
    } else {
        s
    }
}

/// Emphasised form of a message: wrapped in the terminal's bold escapes when
/// the output is a terminal, unchanged otherwise.
pub fn emph(s: &str, tty: bool) -> (r: String)
    ensures
        r@ == spec_emph(s@, tty),
{
    if tty {
        proof {
            reveal_strlit("\x1b[1m");
            reveal_strlit("\x1b[0m");
        }
        let mut out = String::from_str("\x1b[1m");
        out.append(s);
        out.append("\x1b[0m");
        assert(out@ =~= spec_emph(s@, true));
        out
    } else {
        s.to_owned()
    }
}

} // verus!
