//! The plugin executor's decisions: which plugin to run, what its exit status
//! and output streams mean, and the validated response handed back to the
//! caller. Spawning the child process and moving its bytes is the caller's
//! work; every decision about those bytes is made here.
use vstd::prelude::*;
use vstd::utf8::decode_utf8;
use vstd::utf8::valid_utf8;

use crate::json::spec_parse_response;
use crate::json::spec_raw_view;
use crate::json::parse_response_bytes;
use crate::json::SpecResponse;

verus! {

/// A plugin's validated response: it ran, exited zero, and spoke the wire
/// contract. Its `success` flag may still be false — a reported failure,
/// distinct from any protocol failure.
#[derive(Clone, Debug, PartialEq)]
pub struct PluginOutput {
    pub success: bool,
    pub uploaded_count: Option<usize>,
    pub message: String,
    pub errors: Vec<String>,
}

/// A protocol-level failure of a plugin run, after the child ran to an exit.
#[derive(Clone, Debug, PartialEq)]
pub enum PluginRunError {
    /// The child exited non-zero; its output stream counts for nothing.
    /// Carries the exit code (if the child was not killed by a signal) and
    /// the captured error-stream text.
    NonZeroExit(Option<i32>, String),
    /// The child exited zero but its output stream does not parse as a
    /// response.
    MalformedResponse,
}

/// Relies on std's `String::from_utf8`: succeeds exactly on valid UTF-8,
/// decoding the bytes; vstd's `valid_utf8` and `decode_utf8` state the same
/// encoding.
#[verifier::external_body]
fn string_from_utf8(v: Vec<u8>) -> (r: Option<String>)
    ensures
        r is Some <==> valid_utf8(v@),
        r is Some ==> r.unwrap()@ == decode_utf8(v@),
{
    String::from_utf8(v).ok()
}

/// A byte-level response converts to text exactly when its strings are valid
/// UTF-8 and its count fits the platform.
pub open spec fn spec_response_convertible(sr: SpecResponse) -> bool {
    &&& valid_utf8(sr.message)
    &&& forall|k: int| 0 <= k < sr.errors.len() ==> valid_utf8(#[trigger] sr.errors[k])
    &&& match sr.uploaded_count {
        Some(n) => n <= usize::MAX,
        None => true,
    }
}

pub open spec fn spec_output_matches(out: PluginOutput, sr: SpecResponse) -> bool {
    &&& out.success == sr.success
    &&& out.message@ == decode_utf8(sr.message)
    &&& out.errors@.len() == sr.errors.len()
    &&& forall|k: int|
        0 <= k < sr.errors.len() ==> (#[trigger] out.errors@[k])@ == decode_utf8(sr.errors[k])
    &&& match (out.uploaded_count, sr.uploaded_count) {
        (Some(a), Some(b)) => a == b,
        (None, None) => true,
        _ => false,
    }
}

/// Parses a plugin's output stream as a response and decodes its strings.
pub fn parse_plugin_response(stdout: &Vec<u8>) -> (r: Option<PluginOutput>)
    ensures
        match spec_parse_response(stdout@) {
            None => r is None,
            Some(sr) => if spec_response_convertible(sr) {
                r is Some && spec_output_matches(r.unwrap(), sr)
            } else {
                r is None
            },
        },
{
    let raw = match parse_response_bytes(stdout) {
        Some(x) => x,
        None => {
            return None;
        },
    };
    let ghost sr = spec_parse_response(stdout@).unwrap();
    proof {
        assert(spec_raw_view(raw) == sr);
    }
    let uploaded_count: Option<usize> = match raw.uploaded_count {
        Some(u) => {
            if u > usize::MAX as u64 {
                return None;
            }
            Some(u as usize)
        },
        None => None,
    };
    let message = match string_from_utf8(raw.message) {
        Some(m) => m,
        None => {
            return None;
        },
    };
    let ghost orig_errors = raw.errors@.map_values(|y: Vec<u8>| y@);
    let mut rest = raw.errors;
    let mut errors: Vec<String> = Vec::new();
    proof {
        assert(rest@.map_values(|y: Vec<u8>| y@) =~= orig_errors.subrange(
            0,
            orig_errors.len() as int,
        ));
    }
    while rest.len() > 0
        invariant
            spec_parse_response(stdout@) == Some(sr),
            orig_errors == sr.errors,
            errors@.len() + rest@.len() == orig_errors.len(),
            rest@.map_values(|y: Vec<u8>| y@) =~= orig_errors.subrange(
                errors@.len() as int,
                orig_errors.len() as int,
            ),
            forall|k: int|
                0 <= k < errors@.len() ==> valid_utf8(#[trigger] orig_errors[k]) && errors@[k]@
                    == decode_utf8(orig_errors[k]),
        decreases rest@.len(),
    {
        let ghost done = errors@.len() as int;
        let ghost old_rest = rest@;
        let item = rest.remove(0);
        proof {
            assert(old_rest.map_values(|y: Vec<u8>| y@)[0] == old_rest[0]@);
            assert(orig_errors.subrange(done, orig_errors.len() as int)[0] == orig_errors[done]);
            assert(item@ == orig_errors[done]);
        }
        let text = match string_from_utf8(item) {
            Some(t) => t,
            None => {
                proof {
                    assert(!valid_utf8(sr.errors[done]));
                    assert(!spec_response_convertible(sr));
                }
                return None;
            },
        };
        errors.push(text);
        proof {
            assert forall|k2: int| 0 <= k2 < rest@.len() implies rest@.map_values(
                |y: Vec<u8>| y@,
            )[k2] == orig_errors.subrange(errors@.len() as int, orig_errors.len() as int)[k2] by {
                assert(rest@[k2] == old_rest[k2 + 1]);
                assert(old_rest.map_values(|y: Vec<u8>| y@)[k2 + 1] == old_rest[k2 + 1]@);
                assert(old_rest.map_values(|y: Vec<u8>| y@)[k2 + 1] == orig_errors.subrange(
                    done,
                    orig_errors.len() as int,
                )[k2 + 1]);
                assert(rest@.map_values(|y: Vec<u8>| y@)[k2] == rest@[k2]@);
            }
            assert(rest@.map_values(|y: Vec<u8>| y@) =~= orig_errors.subrange(
                errors@.len() as int,
                orig_errors.len() as int,
            ));
        }
    }
    Some(PluginOutput { success: raw.success, uploaded_count, message, errors })
}

/// How the executor reads a finished child process: a non-zero exit is always
/// a failure, whatever the child printed; on a zero exit the output stream
/// must parse as a response, and anything else is a malformed response —
/// a distinct failure from the exit-code one.
pub fn interpret_plugin_result(
    exit_success: bool,
    exit_code: Option<i32>,
    stdout: &Vec<u8>,
    stderr: String,
) -> (r: Result<PluginOutput, PluginRunError>)
    ensures
        !exit_success ==> r == Err::<PluginOutput, PluginRunError>(
            PluginRunError::NonZeroExit(exit_code, stderr),
        ),
        exit_success ==> match spec_parse_response(stdout@) {
            None => r == Err::<PluginOutput, PluginRunError>(PluginRunError::MalformedResponse),
            Some(sr) => if spec_response_convertible(sr) {
                r is Ok && spec_output_matches(r.unwrap(), sr)
            } else {
                r == Err::<PluginOutput, PluginRunError>(PluginRunError::MalformedResponse)
            },
        },
{
    if !exit_success {
        return Err(PluginRunError::NonZeroExit(exit_code, stderr));
    }
    match parse_plugin_response(stdout) {
        Some(out) => Ok(out),
        None => Err(PluginRunError::MalformedResponse),
    }
}

/// Why no plugin could be chosen.
#[derive(Clone, Copy, PartialEq, Eq, Structural, Debug)]
pub enum PluginSelectError {
    /// Nothing is registered.
    NoPlugins,
    /// Several are registered and none was named; the executor never guesses.
    Ambiguous,
}

/// Chooses the plugin to run: an explicitly named one is taken as given;
/// otherwise a sole registered plugin is selected automatically, none is a
/// configuration error, and several without a name is an ambiguity error.
pub fn select_plugin(explicit: Option<String>, available: &Vec<String>) -> (r: Result<
    String,
    PluginSelectError,
>)
    ensures
        match explicit {
            Some(name) => r == Ok::<String, PluginSelectError>(name),
            None => if available@.len() == 0 {
                r == Err::<String, PluginSelectError>(PluginSelectError::NoPlugins)
            } else if available@.len() == 1 {
                r is Ok && r.unwrap() == available@[0]
            } else {
                r == Err::<String, PluginSelectError>(PluginSelectError::Ambiguous)
            },
        },
{
    match explicit {
        Some(name) => Ok(name),
        None => {
            if available.len() == 0 {
                Err(PluginSelectError::NoPlugins)
            } else if available.len() == 1 {
                Ok(available[0].clone())
            } else {
                Err(PluginSelectError::Ambiguous)
            }
        },
    }
}

pub open spec fn spec_starts_with(s: Seq<char>, p: Seq<char>) -> bool {
    s.len() >= p.len() && s.subrange(0, p.len() as int) == p
}

pub open spec fn spec_ends_with(s: Seq<char>, p: Seq<char>) -> bool {
    s.len() >= p.len() && s.subrange(s.len() - p.len(), s.len() as int) == p
}

fn starts_with(s: &str, p: &str) -> (r: bool)
    ensures
        r == spec_starts_with(s@, p@),
{
    let n = s.unicode_len();
    let m = p.unicode_len();
    if n < m {
        return false;
    }
    let mut i: usize = 0;
    while i < m
        invariant
            i <= m,
            m <= n,
            n == s@.len(),
            m == p@.len(),
            forall|k: int| 0 <= k < i ==> s@[k] == p@[k],
        decreases m - i,
    {
        if s.get_char(i) != p.get_char(i) {
            proof {
                assert(s@.subrange(0, p@.len() as int)[i as int] == s@[i as int]);
            }
            return false;
        }
        i = i + 1;
    }
    proof {
        assert(s@.subrange(0, p@.len() as int) =~= p@);
    }
    true
}

fn ends_with(s: &str, p: &str) -> (r: bool)
    ensures
        r == spec_ends_with(s@, p@),
{
    let n = s.unicode_len();
    let m = p.unicode_len();
    if n < m {
        return false;
    }
    let off = n - m;
    let mut i: usize = 0;
    while i < m
        invariant
            i <= m,
            m <= n,
            off == n - m,
            n == s@.len(),
            m == p@.len(),
            forall|k: int| 0 <= k < i ==> s@[off + k] == p@[k],
        decreases m - i,
    {
        if s.get_char(off + i) != p.get_char(i) {
            proof {
                assert(s@.subrange(s@.len() - p@.len(), s@.len() as int)[i as int] == s@[off + i]);
            }
            return false;
        }
        i = i + 1;
    }
    proof {
        assert(s@.subrange(s@.len() - p@.len(), s@.len() as int) =~= p@);
    }
    true
}

/// The position of the last dot in a name, or -1 when it has none.
pub open spec fn spec_last_dot(s: Seq<char>) -> int
    decreases s.len(),
{
    if s.len() == 0 {
        -1
    } else if s.last() == '.' {
        s.len() - 1
    } else {
        spec_last_dot(s.drop_last())
    }
}

/// A file name's stem: what stands before the last dot, except that a name
/// without a dot, or with its only dot first, is its own stem.
pub open spec fn spec_stem(s: Seq<char>) -> Seq<char> {
    let d = spec_last_dot(s);
    if d >= 1 {
        s.subrange(0, d)
    } else {
        s
    }
}

proof fn lemma_last_dot_none(s: Seq<char>)
    requires
        forall|k: int| 0 <= k < s.len() ==> s[k] != '.',
    ensures
        spec_last_dot(s) == -1,
    decreases s.len(),
{
    if s.len() > 0 {
        assert forall|k: int| 0 <= k < s.drop_last().len() implies s.drop_last()[k] != '.' by {
            assert(s.drop_last()[k] == s[k]);
        }
        lemma_last_dot_none(s.drop_last());
    }
}

proof fn lemma_last_dot_at(s: Seq<char>, d: int)
    requires
        0 <= d < s.len(),
        s[d] == '.',
        forall|k: int| d < k < s.len() ==> s[k] != '.',
    ensures
        spec_last_dot(s) == d,
    decreases s.len(),
{
    if d < s.len() - 1 {
        assert forall|k: int| d < k < s.drop_last().len() implies s.drop_last()[k] != '.' by {
            assert(s.drop_last()[k] == s[k]);
        }
        lemma_last_dot_at(s.drop_last(), d);
    }
}

/// What a plugin registry entry is listed as: an executable file named
/// `timelog-<name>`, not a `.json` configuration file, shown by the stem of
/// its name with that prefix removed (a stem no longer than the prefix is
/// shown whole).
pub open spec fn spec_plugin_name(file_name: Seq<char>, executable: bool) -> Option<Seq<char>> {
    if executable && spec_starts_with(file_name, "timelog-"@) && !spec_ends_with(
        file_name,
        ".json"@,
    ) {
        let stem = spec_stem(file_name);
        if stem.len() > 8 {
            Some(stem.subrange(8, stem.len() as int))
        } else {
            Some(stem)
        }
    } else {
        None
    }
}

/// The registry's display name for one directory entry, if it is a plugin.
pub fn plugin_display_name(file_name: &str, executable: bool) -> (r: Option<String>)
    ensures
        match spec_plugin_name(file_name@, executable) {
            Some(name) => r is Some && r.unwrap()@ == name,
            None => r is None,
        },
{
    if !executable {
        return None;
    }
    if !starts_with(file_name, "timelog-") {
        return None;
    }
    if ends_with(file_name, ".json") {
        return None;
    }
    proof {
        reveal_strlit("timelog-");
    }
    let n = file_name.unicode_len();
    let mut dot: Option<usize> = None;
    let mut i: usize = 0;
    while i < n
        invariant
            i <= n,
            n == file_name@.len(),
            match dot {
                Some(d) => d < i && file_name@[d as int] == '.' && (forall|k: int|
                    d < k < i ==> file_name@[k] != '.'),
                None => forall|k: int| 0 <= k < i ==> file_name@[k] != '.',
            },
        decreases n - i,
    {
        if file_name.get_char(i) == '.' {
            dot = Some(i);
        }
        i = i + 1;
    }
    let stem_end: usize = match dot {
        Some(d) => {
            proof {
                lemma_last_dot_at(file_name@, d as int);
            }
            if d >= 1 {
                d
            } else {
                n
            }
        },
        None => {
            proof {
                lemma_last_dot_none(file_name@);
            }
            n
        },
    };
    proof {
        assert(file_name@.subrange(0, n as int) =~= file_name@);
    }
    let start: usize = if stem_end > 8 {
        8
    } else {
        0
    };
    let name = file_name.substring_char(start, stem_end);
    proof {
        if stem_end > 8 {
            assert(spec_stem(file_name@).subrange(8, spec_stem(file_name@).len() as int)
                =~= file_name@.subrange(8, stem_end as int));
        }
    }
    Some(name.to_owned())
}

} // verus!
