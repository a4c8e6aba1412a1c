//! The response half of the plugin wire contract: a byte-level parser for the
//! structured object a plugin must print on success. The object holds exactly
//! the keys `success` (boolean), `uploaded_count` (null or a non-negative
//! integer, and it may be absent), `message` (string) and `errors` (array of
//! strings), in any order, each at most once; quoted strings accept the
//! single-character escapes (the four-digit escape form is not accepted).
use vstd::prelude::*;

verus! {

/// A parsed response, still at the byte level: strings are the unescaped
/// bytes, not yet decoded as UTF-8.
pub struct SpecResponse {
    pub success: bool,
    pub uploaded_count: Option<int>,
    pub message: Seq<u8>,
    pub errors: Seq<Seq<u8>>,
}

/// The fields seen so far while reading the object's members.
pub struct SpecPartial {
    pub success: Option<bool>,
    pub uploaded_count: Option<Option<int>>,
    pub message: Option<Seq<u8>>,
    pub errors: Option<Seq<Seq<u8>>>,
}

pub open spec fn spec_empty_partial() -> SpecPartial {
    SpecPartial { success: None, uploaded_count: None, message: None, errors: None }
}

/// A member value: boolean, non-negative integer, null, string, or array of
/// strings — the only shapes the response's keys take.
pub enum SpecVal {
    B(bool),
    U(int),
    Null,
    S(Seq<u8>),
    A(Seq<Seq<u8>>),
}

pub open spec fn is_ws(b: u8) -> bool {
    b == 32 || b == 9 || b == 10 || b == 13
}

pub open spec fn is_digit_byte(b: u8) -> bool {
    48 <= b <= 57
}

pub open spec fn spec_skip_ws(s: Seq<u8>, i: int) -> int
    decreases s.len() - i,
{
    if 0 <= i < s.len() && is_ws(s[i]) {
        spec_skip_ws(s, i + 1)
    } else {
        i
    }
}

proof fn lemma_skip_ws_bounds(s: Seq<u8>, i: int)
    requires
        0 <= i <= s.len(),
    ensures
        i <= spec_skip_ws(s, i) <= s.len(),
    decreases s.len() - i,
{
    if i < s.len() && is_ws(s[i]) {
        lemma_skip_ws_bounds(s, i + 1);
    }
}

fn skip_ws(s: &Vec<u8>, i: usize) -> (r: usize)
    requires
        i <= s@.len(),
    ensures
        r == spec_skip_ws(s@, i as int),
        i <= r <= s@.len(),
{
    let mut j = i;
    while j < s.len() && (s[j] == 32 || s[j] == 9 || s[j] == 10 || s[j] == 13)
        invariant
            i <= j <= s@.len(),
            spec_skip_ws(s@, i as int) == spec_skip_ws(s@, j as int),
        decreases s@.len() - j,
    {
        j = j + 1;
    }
    j
}

/// What a backslash escape denotes, if anything.
pub open spec fn spec_unescape_byte(b: u8) -> Option<u8> {
    if b == 34 {
        Some(34u8)
    } else if b == 92 {
        Some(92u8)
    } else if b == 47 {
        Some(47u8)
    } else if b == 110 {
        Some(10u8)
    } else if b == 114 {
        Some(13u8)
    } else if b == 116 {
        Some(9u8)
    } else if b == 98 {
        Some(8u8)
    } else if b == 102 {
        Some(12u8)
    } else {
        None
    }
}

/// The content and end of a quoted string whose opening quote sits just
/// before `i`: bytes up to the closing quote, escapes decoded, control bytes
/// refused.
pub open spec fn spec_string_body(s: Seq<u8>, i: int) -> Option<(Seq<u8>, int)>
    decreases s.len() - i,
{
    if !(0 <= i < s.len()) {
        None
    } else if s[i] == 34 {
        Some((Seq::<u8>::empty(), i + 1))
    } else if s[i] == 92 {
        if i + 1 < s.len() {
            match spec_unescape_byte(s[i + 1]) {
                Some(u) => match spec_string_body(s, i + 2) {
                    Some((c, j)) => Some((seq![u] + c, j)),
                    None => None,
                },
                None => None,
            }
        } else {
            None
        }
    } else if s[i] >= 32 {
        match spec_string_body(s, i + 1) {
            Some((c, j)) => Some((seq![s[i]] + c, j)),
            None => None,
        }
    } else {
        None
    }
}

proof fn lemma_string_body_bounds(s: Seq<u8>, i: int)
    ensures
        match spec_string_body(s, i) {
            Some((c, j)) => i < j <= s.len(),
            None => true,
        },
    decreases s.len() - i,
{
    if 0 <= i < s.len() {
        if s[i] == 92 {
            if i + 1 < s.len() {
                lemma_string_body_bounds(s, i + 2);
            }
        } else if s[i] != 34 && s[i] >= 32 {
            lemma_string_body_bounds(s, i + 1);
        }
    }
}

fn parse_string_body(s: &Vec<u8>, i: usize) -> (r: Option<(Vec<u8>, usize)>)
    requires
        i <= s@.len(),
    ensures
        match spec_string_body(s@, i as int) {
            Some((c, j)) => r is Some && r.unwrap().0@ == c && r.unwrap().1 == j && i < j
                <= s@.len(),
            None => r is None,
        },
{
    proof {
        lemma_string_body_bounds(s@, i as int);
    }
    let mut acc: Vec<u8> = Vec::new();
    let mut k = i;
    proof {
        assert(match spec_string_body(s@, i as int) {
            Some((c, j)) => acc@ + c =~= c,
            None => true,
        });
    }
    loop
        invariant
            i <= k <= s@.len(),
            spec_string_body(s@, i as int) == match spec_string_body(s@, k as int) {
                Some((c, j)) => Some::<(Seq<u8>, int)>((acc@ + c, j)),
                None => None::<(Seq<u8>, int)>,
            },
        decreases s@.len() - k,
    {
        proof {
            lemma_string_body_bounds(s@, k as int);
        }
        if k >= s.len() {
            return None;
        }
        let b = s[k];
        if b == 34 {
            proof {
                assert(acc@ + Seq::<u8>::empty() =~= acc@);
            }
            return Some((acc, k + 1));
        } else if b == 92 {
            if k + 1 >= s.len() {
                return None;
            }
            let e = s[k + 1];
            let u: u8 = if e == 34 {
                34
            } else if e == 92 {
                92
            } else if e == 47 {
                47
            } else if e == 110 {
                10
            } else if e == 114 {
                13
            } else if e == 116 {
                9
            } else if e == 98 {
                8
            } else if e == 102 {
                12
            } else {
                return None;
            };
            proof {
                assert(spec_unescape_byte(s@[k as int + 1]) == Some(u));
                assert(match spec_string_body(s@, k as int + 2) {
                    Some((c, j)) => acc@.push(u) + c =~= acc@ + (seq![u] + c),
                    None => true,
                });
            }
            acc.push(u);
            k = k + 2;
        } else if b >= 32 {
            proof {
                assert(match spec_string_body(s@, k as int + 1) {
                    Some((c, j)) => acc@.push(b) + c =~= acc@ + (seq![b] + c),
                    None => true,
                });
            }
            acc.push(b);
            k = k + 1;
        } else {
            return None;
        }
    }
}

/// The value and end of a run of digits, continuing from an already
/// accumulated value; a value beyond u64 is refused.
pub open spec fn spec_uint(s: Seq<u8>, i: int, acc: int) -> Option<(int, int)>
    decreases s.len() - i,
{
    if 0 <= i < s.len() && is_digit_byte(s[i]) {
        let acc2 = acc * 10 + (s[i] - 48);
        if acc2 > u64::MAX {
            None
        } else {
            spec_uint(s, i + 1, acc2)
        }
    } else {
        Some((acc, i))
    }
}

proof fn lemma_uint_bounds(s: Seq<u8>, i: int, acc: int)
    requires
        0 <= i <= s.len(),
        0 <= acc <= u64::MAX,
    ensures
        match spec_uint(s, i, acc) {
            Some((v, j)) => i <= j <= s.len() && 0 <= v <= u64::MAX,
            None => true,
        },
    decreases s.len() - i,
{
    if 0 <= i < s.len() && is_digit_byte(s[i]) {
        let acc2 = acc * 10 + (s[i] - 48);
        if acc2 <= u64::MAX {
            lemma_uint_bounds(s, i + 1, acc2);
        }
    }
}

fn parse_uint(s: &Vec<u8>, i: usize) -> (r: Option<(u64, usize)>)
    requires
        i <= s@.len(),
    ensures
        match spec_uint(s@, i as int, 0) {
            Some((v, j)) => r is Some && r.unwrap().0 == v && r.unwrap().1 == j && i <= j
                <= s@.len(),
            None => r is None,
        },
{
    proof {
        lemma_uint_bounds(s@, i as int, 0);
    }
    let mut acc: u64 = 0;
    let mut k = i;
    while k < s.len() && 48 <= s[k] && s[k] <= 57
        invariant
            i <= k <= s@.len(),
            spec_uint(s@, i as int, 0) == spec_uint(s@, k as int, acc as int),
        decreases s@.len() - k,
    {
        let d = (s[k] - 48) as u64;
        let scaled = match acc.checked_mul(10) {
            Some(v) => v,
            None => {
                return None;
            },
        };
        let next = match scaled.checked_add(d) {
            Some(v) => v,
            None => {
                return None;
            },
        };
        acc = next;
        k = k + 1;
    }
    Some((acc, k))
}

/// The items and end of a non-empty string array whose next byte must open a
/// string; items found earlier are carried in `acc`.
pub open spec fn spec_str_items(s: Seq<u8>, i: int, acc: Seq<Seq<u8>>) -> Option<
    (Seq<Seq<u8>>, int),
>
    decreases s.len() - i,
    when 0 <= i
    via spec_str_items_dec
{
    if !(0 <= i < s.len() && s[i] == 34) {
        None
    } else {
        match spec_string_body(s, i + 1) {
            None => None,
            Some((c, j)) => {
                let k = spec_skip_ws(s, j);
                if k < s.len() && s[k] == 44 {
                    let n = spec_skip_ws(s, k + 1);
                    spec_str_items(s, n, acc.push(c))
                } else if k < s.len() && s[k] == 93 {
                    Some((acc.push(c), k + 1))
                } else {
                    None
                }
            },
        }
    }
}

#[via_fn]
proof fn spec_str_items_dec(s: Seq<u8>, i: int, acc: Seq<Seq<u8>>) {
    if 0 <= i < s.len() && s[i] == 34 {
        lemma_string_body_bounds(s, i + 1);
        match spec_string_body(s, i + 1) {
            None => {},
            Some((c, j)) => {
                lemma_skip_ws_bounds(s, j);
                let k = spec_skip_ws(s, j);
                if k < s.len() && s[k] == 44 {
                    lemma_skip_ws_bounds(s, k + 1);
                }
            },
        }
    }
}

proof fn lemma_str_items_bounds(s: Seq<u8>, i: int, acc: Seq<Seq<u8>>)
    requires
        0 <= i,
    ensures
        match spec_str_items(s, i, acc) {
            Some((a, j)) => i < j <= s.len(),
            None => true,
        },
    decreases s.len() - i,
{
    if 0 <= i < s.len() && s[i] == 34 {
        lemma_string_body_bounds(s, i + 1);
        match spec_string_body(s, i + 1) {
            None => {},
            Some((c, j)) => {
                lemma_skip_ws_bounds(s, j);
                let k = spec_skip_ws(s, j);
                if k < s.len() && s[k] == 44 {
                    lemma_skip_ws_bounds(s, k + 1);
                    lemma_str_items_bounds(s, spec_skip_ws(s, k + 1), acc.push(c));
                }
            },
        }
    }
}

fn parse_str_items(s: &Vec<u8>, i: usize) -> (r: Option<(Vec<Vec<u8>>, usize)>)
    requires
        i <= s@.len(),
    ensures
        match spec_str_items(s@, i as int, Seq::<Seq<u8>>::empty()) {
            Some((a, j)) => r is Some && r.unwrap().0@.map_values(|x: Vec<u8>| x@) == a
                && r.unwrap().1 == j && j <= s@.len(),
            None => r is None,
        },
{
    let mut acc: Vec<Vec<u8>> = Vec::new();
    let mut k = i;
    proof {
        assert(acc@.map_values(|x: Vec<u8>| x@) =~= Seq::<Seq<u8>>::empty());
    }
    loop
        invariant
            i <= k <= s@.len(),
            spec_str_items(s@, i as int, Seq::<Seq<u8>>::empty()) == spec_str_items(
                s@,
                k as int,
                acc@.map_values(|x: Vec<u8>| x@),
            ),
        decreases s@.len() - k,
    {
        proof {
            lemma_str_items_bounds(s@, k as int, acc@.map_values(|x: Vec<u8>| x@));
        }
        if k >= s.len() || s[k] != 34 {
            return None;
        }
        let (item, j) = match parse_string_body(s, k + 1) {
            Some(p) => p,
            None => {
                return None;
            },
        };
        let k2 = skip_ws(s, j);
        if k2 < s.len() && s[k2] == 44 {
            let n = skip_ws(s, k2 + 1);
            proof {
                assert(acc@.push(item).map_values(|x: Vec<u8>| x@) =~= acc@.map_values(
                    |x: Vec<u8>| x@,
                ).push(item@));
            }
            acc.push(item);
            k = n;
        } else if k2 < s.len() && s[k2] == 93 {
            proof {
                assert(acc@.push(item).map_values(|x: Vec<u8>| x@) =~= acc@.map_values(
                    |x: Vec<u8>| x@,
                ).push(item@));
            }
            acc.push(item);
            return Some((acc, k2 + 1));
        } else {
            return None;
        }
    }
}

pub open spec fn spec_key_success() -> Seq<u8> {
    seq![115u8, 117u8, 99u8, 99u8, 101u8, 115u8, 115u8]
}

pub open spec fn spec_key_uploaded() -> Seq<u8> {
    seq![
        117u8,
        112u8,
        108u8,
        111u8,
        97u8,
        100u8,
        101u8,
        100u8,
        95u8,
        99u8,
        111u8,
        117u8,
        110u8,
        116u8,
    ]
}

pub open spec fn spec_key_message() -> Seq<u8> {
    seq![109u8, 101u8, 115u8, 115u8, 97u8, 103u8, 101u8]
}

pub open spec fn spec_key_errors() -> Seq<u8> {
    seq![101u8, 114u8, 114u8, 111u8, 114u8, 115u8]
}

fn vec_u8_eq(a: &Vec<u8>, b: &Vec<u8>) -> (r: bool)
    ensures
        r == (a@ == b@),
{
    if a.len() != b.len() {
        proof {
            assert(a@.len() != b@.len());
        }
        return false;
    }
    let mut i: usize = 0;
    while i < a.len()
        invariant
            i <= a@.len(),
            a@.len() == b@.len(),
            forall|k: int| 0 <= k < i ==> a@[k] == b@[k],
        decreases a@.len() - i,
    {
        if a[i] != b[i] {
            return false;
        }
        i = i + 1;
    }
    proof {
        assert(a@ =~= b@);
    }
    true
}

fn key_success() -> (r: Vec<u8>)
    ensures
        r@ == spec_key_success(),
{
    let mut v: Vec<u8> = Vec::new();
    v.push(115);
    v.push(117);
    v.push(99);
    v.push(99);
    v.push(101);
    v.push(115);
    v.push(115);
    proof {
        assert(v@ =~= spec_key_success());
    }
    v
}

fn key_uploaded() -> (r: Vec<u8>)
    ensures
        r@ == spec_key_uploaded(),
{
    let mut v: Vec<u8> = Vec::new();
    v.push(117);
    v.push(112);
    v.push(108);
    v.push(111);
    v.push(97);
    v.push(100);
    v.push(101);
    v.push(100);
    v.push(95);
    v.push(99);
    v.push(111);
    v.push(117);
    v.push(110);
    v.push(116);
    proof {
        assert(v@ =~= spec_key_uploaded());
    }
    v
}

fn key_message() -> (r: Vec<u8>)
    ensures
        r@ == spec_key_message(),
{
    let mut v: Vec<u8> = Vec::new();
    v.push(109);
    v.push(101);
    v.push(115);
    v.push(115);
    v.push(97);
    v.push(103);
    v.push(101);
    proof {
        assert(v@ =~= spec_key_message());
    }
    v
}

fn key_errors() -> (r: Vec<u8>)
    ensures
        r@ == spec_key_errors(),
{
    let mut v: Vec<u8> = Vec::new();
    v.push(101);
    v.push(114);
    v.push(114);
    v.push(111);
    v.push(114);
    v.push(115);
    proof {
        assert(v@ =~= spec_key_errors());
    }
    v
}

/// A member value as the executable parser holds it.
pub enum JsonVal {
    B(bool),
    U(u64),
    Null,
    S(Vec<u8>),
    A(Vec<Vec<u8>>),
}

pub open spec fn spec_val_view(v: JsonVal) -> SpecVal {
    match v {
        JsonVal::B(b) => SpecVal::B(b),
        JsonVal::U(u) => SpecVal::U(u as int),
        JsonVal::Null => SpecVal::Null,
        JsonVal::S(x) => SpecVal::S(x@),
        JsonVal::A(x) => SpecVal::A(x@.map_values(|y: Vec<u8>| y@)),
    }
}

/// The value and end of one member value: a string, a string array, `true`,
/// `false`, `null`, or a non-negative integer.
pub open spec fn spec_value(s: Seq<u8>, i: int) -> Option<(SpecVal, int)> {
    if !(0 <= i < s.len()) {
        None
    } else if s[i] == 34 {
        match spec_string_body(s, i + 1) {
            Some((c, j)) => Some((SpecVal::S(c), j)),
            None => None,
        }
    } else if s[i] == 91 {
        let j = spec_skip_ws(s, i + 1);
        if j < s.len() && s[j] == 93 {
            Some((SpecVal::A(Seq::<Seq<u8>>::empty()), j + 1))
        } else {
            match spec_str_items(s, j, Seq::<Seq<u8>>::empty()) {
                Some((a, k)) => Some((SpecVal::A(a), k)),
                None => None,
            }
        }
    } else if s[i] == 116 {
        if i + 4 <= s.len() && s[i + 1] == 114 && s[i + 2] == 117 && s[i + 3] == 101 {
            Some((SpecVal::B(true), i + 4))
        } else {
            None
        }
    } else if s[i] == 102 {
        if i + 5 <= s.len() && s[i + 1] == 97 && s[i + 2] == 108 && s[i + 3] == 115 && s[i + 4]
            == 101 {
            Some((SpecVal::B(false), i + 5))
        } else {
            None
        }
    } else if s[i] == 110 {
        if i + 4 <= s.len() && s[i + 1] == 117 && s[i + 2] == 108 && s[i + 3] == 108 {
            Some((SpecVal::Null, i + 4))
        } else {
            None
        }
    } else if is_digit_byte(s[i]) {
        match spec_uint(s, i, 0) {
            Some((v, j)) => Some((SpecVal::U(v), j)),
            None => None,
        }
    } else {
        None
    }
}

proof fn lemma_value_bounds(s: Seq<u8>, i: int)
    ensures
        match spec_value(s, i) {
            Some((v, j)) => i < j <= s.len(),
            None => true,
        },
{
    if 0 <= i < s.len() {
        if s[i] == 34 {
            lemma_string_body_bounds(s, i + 1);
        } else if s[i] == 91 {
            lemma_skip_ws_bounds(s, i + 1);
            let j = spec_skip_ws(s, i + 1);
            if !(j < s.len() && s[j] == 93) {
                lemma_str_items_bounds(s, j, Seq::<Seq<u8>>::empty());
            }
        } else if is_digit_byte(s[i]) {
            let acc2 = (s[i] - 48) as int;
            lemma_uint_bounds(s, i + 1, acc2);
        }
    }
}

fn parse_value(s: &Vec<u8>, i: usize) -> (r: Option<(JsonVal, usize)>)
    requires
        i <= s@.len(),
    ensures
        match spec_value(s@, i as int) {
            Some((v, j)) => r is Some && spec_val_view(r.unwrap().0) == v && r.unwrap().1 == j && i
                < j <= s@.len(),
            None => r is None,
        },
{
    proof {
        lemma_value_bounds(s@, i as int);
    }
    if i >= s.len() {
        return None;
    }
    let b = s[i];
    if b == 34 {
        match parse_string_body(s, i + 1) {
            Some((c, j)) => Some((JsonVal::S(c), j)),
            None => None,
        }
    } else if b == 91 {
        let j = skip_ws(s, i + 1);
        if j < s.len() && s[j] == 93 {
            let empty_items: Vec<Vec<u8>> = Vec::new();
            proof {
                assert(empty_items@.map_values(|y: Vec<u8>| y@) =~= Seq::<Seq<u8>>::empty());
            }
            Some((JsonVal::A(empty_items), j + 1))
        } else {
            match parse_str_items(s, j) {
                Some((a, k)) => Some((JsonVal::A(a), k)),
                None => None,
            }
        }
    } else if b == 116 {
        if s.len() - i >= 4 && s[i + 1] == 114 && s[i + 2] == 117 && s[i + 3] == 101 {
            Some((JsonVal::B(true), i + 4))
        } else {
            None
        }
    } else if b == 102 {
        if s.len() - i >= 5 && s[i + 1] == 97 && s[i + 2] == 108 && s[i + 3] == 115 && s[i + 4]
            == 101 {
            Some((JsonVal::B(false), i + 5))
        } else {
            None
        }
    } else if b == 110 {
        if s.len() - i >= 4 && s[i + 1] == 117 && s[i + 2] == 108 && s[i + 3] == 108 {
            Some((JsonVal::Null, i + 4))
        } else {
            None
        }
    } else if 48 <= b && b <= 57 {
        match parse_uint(s, i) {
            Some((v, j)) => Some((JsonVal::U(v), j)),
            None => None,
        }
    } else {
        None
    }
}

/// Records one member into the partial response: the key must be one of the
/// four known ones, not seen before, and its value of the key's type;
/// `uploaded_count` alone may also be null.
pub open spec fn spec_assign(p: SpecPartial, key: Seq<u8>, v: SpecVal) -> Option<SpecPartial> {
    if key == spec_key_success() {
        match v {
            SpecVal::B(b) => if p.success is None {
                Some(
                    SpecPartial {
                        success: Some(b),
                        uploaded_count: p.uploaded_count,
                        message: p.message,
                        errors: p.errors,
                    },
                )
            } else {
                None
            },
            _ => None,
        }
    } else if key == spec_key_uploaded() {
        if p.uploaded_count is None {
            match v {
                SpecVal::U(n) => Some(
                    SpecPartial {
                        success: p.success,
                        uploaded_count: Some(Some(n)),
                        message: p.message,
                        errors: p.errors,
                    },
                ),
                SpecVal::Null => Some(
                    SpecPartial {
                        success: p.success,
                        uploaded_count: Some(None),
                        message: p.message,
                        errors: p.errors,
                    },
                ),
                _ => None,
            }
        } else {
            None
        }
    } else if key == spec_key_message() {
        match v {
            SpecVal::S(c) => if p.message is None {
                Some(
                    SpecPartial {
                        success: p.success,
                        uploaded_count: p.uploaded_count,
                        message: Some(c),
                        errors: p.errors,
                    },
                )
            } else {
                None
            },
            _ => None,
        }
    } else if key == spec_key_errors() {
        match v {
            SpecVal::A(a) => if p.errors is None {
                Some(
                    SpecPartial {
                        success: p.success,
                        uploaded_count: p.uploaded_count,
                        message: p.message,
                        errors: Some(a),
                    },
                )
            } else {
                None
            },
            _ => None,
        }
    } else {
        None
    }
}

/// The partial response as the executable parser holds it.
pub struct Partial {
    pub success: Option<bool>,
    pub uploaded_count: Option<Option<u64>>,
    pub message: Option<Vec<u8>>,
    pub errors: Option<Vec<Vec<u8>>>,
}

pub open spec fn spec_partial_view(p: Partial) -> SpecPartial {
    SpecPartial {
        success: p.success,
        uploaded_count: match p.uploaded_count {
            None => None,
            Some(None) => Some(None),
            Some(Some(u)) => Some(Some(u as int)),
        },
        message: match p.message {
            None => None,
            Some(v) => Some(v@),
        },
        errors: match p.errors {
            None => None,
            Some(v) => Some(v@.map_values(|y: Vec<u8>| y@)),
        },
    }
}

fn assign(p: Partial, key: &Vec<u8>, v: JsonVal) -> (r: Option<Partial>)
    ensures
        match spec_assign(spec_partial_view(p), key@, spec_val_view(v)) {
            Some(sp) => r is Some && spec_partial_view(r.unwrap()) == sp,
            None => r is None,
        },
{
    let ks = key_success();
    let ku = key_uploaded();
    let km = key_message();
    let ke = key_errors();
    if vec_u8_eq(key, &ks) {
        match v {
            JsonVal::B(b) => if p.success.is_none() {
                Some(Partial { success: Some(b), ..p })
            } else {
                None
            },
            _ => None,
        }
    } else if vec_u8_eq(key, &ku) {
        if p.uploaded_count.is_none() {
            match v {
                JsonVal::U(n) => Some(Partial { uploaded_count: Some(Some(n)), ..p }),
                JsonVal::Null => Some(Partial { uploaded_count: Some(None), ..p }),
                _ => None,
            }
        } else {
            None
        }
    } else if vec_u8_eq(key, &km) {
        match v {
            JsonVal::S(c) => if p.message.is_none() {
                Some(Partial { message: Some(c), ..p })
            } else {
                None
            },
            _ => None,
        }
    } else if vec_u8_eq(key, &ke) {
        match v {
            JsonVal::A(a) => if p.errors.is_none() {
                Some(Partial { errors: Some(a), ..p })
            } else {
                None
            },
            _ => None,
        }
    } else {
        None
    }
}

/// The fields and end of the object's member list, the next byte opening a
/// key; members found earlier are carried in `p`.
pub open spec fn spec_members(s: Seq<u8>, i: int, p: SpecPartial) -> Option<(SpecPartial, int)>
    decreases s.len() - i,
    when 0 <= i
    via spec_members_dec
{
    if !(0 <= i < s.len() && s[i] == 34) {
        None
    } else {
        match spec_string_body(s, i + 1) {
            None => None,
            Some((key, j)) => {
                let j2 = spec_skip_ws(s, j);
                if !(j2 < s.len() && s[j2] == 58) {
                    None
                } else {
                    let j3 = spec_skip_ws(s, j2 + 1);
                    match spec_value(s, j3) {
                        None => None,
                        Some((v, j4)) => match spec_assign(p, key, v) {
                            None => None,
                            Some(p2) => {
                                let j5 = spec_skip_ws(s, j4);
                                if j5 < s.len() && s[j5] == 44 {
                                    spec_members(s, spec_skip_ws(s, j5 + 1), p2)
                                } else if j5 < s.len() && s[j5] == 125 {
                                    Some((p2, j5 + 1))
                                } else {
                                    None
                                }
                            },
                        },
                    }
                }
            },
        }
    }
}

#[via_fn]
proof fn spec_members_dec(s: Seq<u8>, i: int, p: SpecPartial) {
    if 0 <= i < s.len() && s[i] == 34 {
        lemma_string_body_bounds(s, i + 1);
        match spec_string_body(s, i + 1) {
            None => {},
            Some((key, j)) => {
                lemma_skip_ws_bounds(s, j);
                let j2 = spec_skip_ws(s, j);
                if j2 < s.len() && s[j2] == 58 {
                    lemma_skip_ws_bounds(s, j2 + 1);
                    let j3 = spec_skip_ws(s, j2 + 1);
                    lemma_value_bounds(s, j3);
                    match spec_value(s, j3) {
                        None => {},
                        Some((v, j4)) => {
                            lemma_skip_ws_bounds(s, j4);
                            let j5 = spec_skip_ws(s, j4);
                            if j5 < s.len() && s[j5] == 44 {
                                lemma_skip_ws_bounds(s, j5 + 1);
                            }
                        },
                    }
                }
            },
        }
    }
}

fn parse_members(s: &Vec<u8>, i: usize) -> (r: Option<(Partial, usize)>)
    requires
        i <= s@.len(),
    ensures
        match spec_members(s@, i as int, spec_empty_partial()) {
            Some((sp, j)) => r is Some && spec_partial_view(r.unwrap().0) == sp && r.unwrap().1 == j
                && j <= s@.len(),
            None => r is None,
        },
{
    let mut p = Partial { success: None, uploaded_count: None, message: None, errors: None };
    let mut k = i;
    loop
        invariant
            i <= k <= s@.len(),
            spec_members(s@, i as int, spec_empty_partial()) == spec_members(
                s@,
                k as int,
                spec_partial_view(p),
            ),
        decreases s@.len() - k,
    {
        if k >= s.len() || s[k] != 34 {
            return None;
        }
        let (key, j) = match parse_string_body(s, k + 1) {
            Some(x) => x,
            None => {
                return None;
            },
        };
        let j2 = skip_ws(s, j);
        if !(j2 < s.len() && s[j2] == 58) {
            return None;
        }
        let j3 = skip_ws(s, j2 + 1);
        let (v, j4) = match parse_value(s, j3) {
            Some(x) => x,
            None => {
                return None;
            },
        };
        let p2 = match assign(p, &key, v) {
            Some(x) => x,
            None => {
                return None;
            },
        };
        let j5 = skip_ws(s, j4);
        if j5 < s.len() && s[j5] == 44 {
            let n = skip_ws(s, j5 + 1);
            p = p2;
            k = n;
        } else if j5 < s.len() && s[j5] == 125 {
            return Some((p2, j5 + 1));
        } else {
            return None;
        }
    }
}

/// A fully parsed response, its strings still raw bytes.
pub struct RawResponse {
    pub success: bool,
    pub uploaded_count: Option<u64>,
    pub message: Vec<u8>,
    pub errors: Vec<Vec<u8>>,
}

pub open spec fn spec_raw_view(r: RawResponse) -> SpecResponse {
    SpecResponse {
        success: r.success,
        uploaded_count: match r.uploaded_count {
            None => None,
            Some(u) => Some(u as int),
        },
        message: r.message@,
        errors: r.errors@.map_values(|y: Vec<u8>| y@),
    }
}

/// What a byte stream denotes as a plugin response: one object carrying the
/// four keys (`uploaded_count` may be absent or null), with nothing but
/// whitespace around it. `success`, `message` and `errors` must be present.
pub open spec fn spec_parse_response(s: Seq<u8>) -> Option<SpecResponse> {
    let i = spec_skip_ws(s, 0);
    if !(i < s.len() && s[i] == 123) {
        None
    } else {
        let j = spec_skip_ws(s, i + 1);
        match spec_members(s, j, spec_empty_partial()) {
            None => None,
            Some((p, k)) => {
                let e = spec_skip_ws(s, k);
                if e == s.len() && p.success is Some && p.message is Some && p.errors is Some {
                    Some(
                        SpecResponse {
                            success: p.success.unwrap(),
                            uploaded_count: match p.uploaded_count {
                                Some(u) => u,
                                None => None,
                            },
                            message: p.message.unwrap(),
                            errors: p.errors.unwrap(),
                        },
                    )
                } else {
                    None
                }
            },
        }
    }
}

/// Parses a plugin's output stream as a response, leaving the strings as raw
/// bytes.
pub fn parse_response_bytes(s: &Vec<u8>) -> (r: Option<RawResponse>)
    ensures
        match spec_parse_response(s@) {
            Some(sr) => r is Some && spec_raw_view(r.unwrap()) == sr,
            None => r is None,
        },
{
    let i = skip_ws(s, 0);
    if !(i < s.len() && s[i] == 123) {
        return None;
    }
    let j = skip_ws(s, i + 1);
    let (p, k) = match parse_members(s, j) {
        Some(x) => x,
        None => {
            return None;
        },
    };
    let e = skip_ws(s, k);
    if e != s.len() {
        return None;
    }
    let success = match p.success {
        Some(b) => b,
        None => {
            return None;
        },
    };
    let message = match p.message {
        Some(m) => m,
        None => {
            return None;
        },
    };
    let errors = match p.errors {
        Some(a) => a,
        None => {
            return None;
        },
    };
    let uploaded_count = match p.uploaded_count {
        Some(u) => u,
        None => None,
    };
    Some(RawResponse { success, uploaded_count, message, errors })
}

} // verus!
