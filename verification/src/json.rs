//! A JSON reader for the controller's responses.
//!
//! The grammar is JSON: objects, arrays, strings with the standard escapes
//! (`\uXXXX` included, surrogate pairs and all), numbers, the keywords, and
//! the usual whitespace.  Strings may not hold raw control characters, and
//! numbers may not have leading zeros, as JSON says.  A number that is not
//! a 64-bit integer — a fraction, an exponent, or an integer out of range —
//! is read and carried opaquely as `Num`, so it only fails a body where a
//! typed field needs the integer.
//!
//! The grammar itself is stated by the `spec_*` functions over the
//! character sequence; the executable reader is proved to return exactly
//! what the grammar says, or `None` where the grammar rejects.

use vstd::prelude::*;
use vstd::pervasive::unreached;

verus! {

/// The mathematical form of a JSON document: what a parsed value means,
/// independent of its executable representation.
pub enum JsonV {
    Null,
    Bool(bool),
    Int(int),
    /// A number that is not a 64-bit integer, carried opaquely.
    Num,
    Str(Seq<char>),
    Arr(Seq<JsonV>),
    Obj(Seq<(Seq<char>, JsonV)>),
}

/// A parsed JSON document.
#[derive(Debug, PartialEq)]
pub enum Json {
    Null,
    Bool(bool),
    Int(i64),
    /// A number that is not a 64-bit integer, carried opaquely.
    Num,
    Str(String),
    Arr(Vec<Json>),
    Obj(Vec<(String, Json)>),
}

impl View for Json {
    type V = JsonV;

    open spec fn view(&self) -> JsonV
        decreases self,
    {
        match self {
            Json::Null => JsonV::Null,
            Json::Bool(b) => JsonV::Bool(*b),
            Json::Int(n) => JsonV::Int(*n as int),
            Json::Num => JsonV::Num,
            Json::Str(s) => JsonV::Str(s@),
            Json::Arr(items) => JsonV::Arr(arr_view(items@)),
            Json::Obj(members) => JsonV::Obj(obj_view(members@)),
        }
    }
}

/// A view of a sequence of parsed documents, used for arrays.
pub open spec fn arr_view(items: Seq<Json>) -> Seq<JsonV>
    decreases items,
{
    Seq::new(
        items.len(),
        |k: int|
            if 0 <= k < items.len() {
                items[k]@
            } else {
                JsonV::Null
            },
    )
}

/// A view of a sequence of parsed members, used for objects.
pub open spec fn obj_view(members: Seq<(String, Json)>) -> Seq<(Seq<char>, JsonV)>
    decreases members,
{
    Seq::new(
        members.len(),
        |k: int|
            if 0 <= k < members.len() {
                (members[k].0@, members[k].1@)
            } else {
                (Seq::<char>::empty(), JsonV::Null)
            },
    )
}

/// Clamps a position into `[lo, hi]` (capping at `hi` last), which keeps the
/// grammar's recursion visibly bounded.  The readers below establish the real
/// bounds in their contracts, under which the clamp changes nothing.
pub open spec fn bounded(lo: int, k: int, hi: int) -> int {
    if k < lo {
        if lo > hi {
            hi
        } else {
            lo
        }
    } else if k > hi {
        hi
    } else {
        k
    }
}

pub open spec fn is_ws_char(c: char) -> bool {
    c == ' ' || c == '\t' || c == '\n' || c == '\r'
}

pub open spec fn is_digit_char(c: char) -> bool {
    '0' as u32 <= c as u32 && c as u32 <= '9' as u32
}

pub open spec fn digit_val(c: char) -> int {
    c as u32 - '0' as u32
}

pub open spec fn is_hex_char(c: char) -> bool {
    is_digit_char(c) || ('a' as u32 <= c as u32 && c as u32 <= 'f' as u32) || ('A' as u32 <= c
        as u32 && c as u32 <= 'F' as u32)
}

pub open spec fn hex_val(c: char) -> int {
    if is_digit_char(c) {
        c as u32 - '0' as u32
    } else if 'a' as u32 <= c as u32 && c as u32 <= 'f' as u32 {
        c as u32 - 'a' as u32 + 10
    } else {
        c as u32 - 'A' as u32 + 10
    }
}

/// The position of the first character at or after `i` that is not JSON
/// whitespace (or the end of the text).
pub open spec fn spec_ws(s: Seq<char>, i: int) -> int
    decreases s.len() - i,
        when 0 <= i <= s.len()
{
    if i < s.len() && is_ws_char(s[i]) {
        spec_ws(s, i + 1)
    } else {
        i
    }
}

/// The value and end of the run of digits starting at `i`, accumulated
/// onto `acc` without any bound.
pub open spec fn spec_digits_val(s: Seq<char>, i: int, acc: int) -> (int, int)
    decreases s.len() - i,
        when 0 <= i <= s.len()
{
    if i < s.len() && is_digit_char(s[i]) {
        spec_digits_val(s, i + 1, acc * 10 + digit_val(s[i]))
    } else {
        (acc, i)
    }
}

/// The fraction part at `i`, if one starts there: whether it does, and
/// where it ends.  A `.` without a digit is malformed.
pub open spec fn spec_number_frac(s: Seq<char>, i: int) -> Option<(bool, int)> {
    if 0 <= i < s.len() && s[i] == '.' {
        if i + 1 < s.len() && is_digit_char(s[i + 1]) {
            Some((true, spec_digits_val(s, i + 1, 0).1))
        } else {
            None
        }
    } else {
        Some((false, i))
    }
}

/// The exponent part at `i`, if one starts there: whether it does, and
/// where it ends.  An `e` without a digit is malformed.
pub open spec fn spec_number_exp(s: Seq<char>, i: int) -> Option<(bool, int)> {
    if 0 <= i < s.len() && (s[i] == 'e' || s[i] == 'E') {
        let j = if i + 1 < s.len() && (s[i + 1] == '+' || s[i + 1] == '-') {
            i + 2
        } else {
            i + 1
        };
        if j < s.len() && is_digit_char(s[j]) {
            Some((true, spec_digits_val(s, j, 0).1))
        } else {
            None
        }
    } else {
        Some((false, i))
    }
}

/// A JSON number: an optional minus sign, an integer part without leading
/// zeros, and optional fraction and exponent parts.  One that is a 64-bit
/// integer is its value; any other is carried as `Num`.
pub open spec fn spec_number(s: Seq<char>, i: int) -> Option<(JsonV, int)> {
    if !(0 <= i < s.len()) {
        None
    } else {
        let neg = s[i] == '-';
        let i1 = if neg {
            i + 1
        } else {
            i
        };
        if !(i1 < s.len() && is_digit_char(s[i1])) {
            None
        } else {
            let dv = spec_digits_val(s, i1, 0);
            let ival = dv.0;
            let i2 = dv.1;
            if s[i1] == '0' && i2 != i1 + 1 {
                None
            } else {
                match spec_number_frac(s, i2) {
                    None => None,
                    Some((has_frac, i3)) => match spec_number_exp(s, i3) {
                        None => None,
                        Some((has_exp, i4)) => {
                            let fits = if neg {
                                ival <= 0x8000_0000_0000_0000
                            } else {
                                ival <= 0x7fff_ffff_ffff_ffff
                            };
                            if has_frac || has_exp || !fits {
                                Some((JsonV::Num, i4))
                            } else if neg {
                                Some((JsonV::Int(-ival), i4))
                            } else {
                                Some((JsonV::Int(ival), i4))
                            }
                        },
                    },
                }
            }
        }
    }
}

/// The character a single-letter escape stands for, if the letter is one
/// of JSON's.
pub open spec fn spec_escape(c: char) -> Option<char> {
    if c == '"' {
        Some('"')
    } else if c == '\\' {
        Some('\\')
    } else if c == '/' {
        Some('/')
    } else if c == 'b' {
        Some('\u{0008}')
    } else if c == 'f' {
        Some('\u{000C}')
    } else if c == 'n' {
        Some('\n')
    } else if c == 'r' {
        Some('\r')
    } else if c == 't' {
        Some('\t')
    } else {
        None
    }
}

/// Whether four hexadecimal digits stand at `i`.
pub open spec fn is_hex4(s: Seq<char>, i: int) -> bool {
    i + 4 <= s.len() && is_hex_char(s[i]) && is_hex_char(s[i + 1]) && is_hex_char(s[i + 2])
        && is_hex_char(s[i + 3])
}

/// The value of the four hexadecimal digits at `i`.
pub open spec fn hex4_val(s: Seq<char>, i: int) -> int {
    hex_val(s[i]) * 0x1000 + hex_val(s[i + 1]) * 0x100 + hex_val(s[i + 2]) * 0x10 + hex_val(
        s[i + 3],
    )
}

/// The body of a string literal from `i` on, the characters read so far in
/// `acc`: plain characters (no raw controls), the single-letter escapes,
/// and `\uXXXX` — alone for a basic character, as a surrogate pair for a
/// supplementary one — up to and past the closing quote.
pub open spec fn spec_str_chars(s: Seq<char>, i: int, acc: Seq<char>) -> Option<(Seq<char>, int)>
    decreases s.len() - i,
        when 0 <= i <= s.len()
{
    if i >= s.len() {
        None
    } else if s[i] == '"' {
        Some((acc, i + 1))
    } else if s[i] == '\\' {
        if i + 1 >= s.len() {
            None
        } else if s[i + 1] == 'u' {
            if is_hex4(s, i + 2) {
                let n1 = hex4_val(s, i + 2);
                if 0xD800 <= n1 < 0xDC00 {
                    if i + 12 <= s.len() && s[i + 6] == '\\' && s[i + 7] == 'u' && is_hex4(
                        s,
                        i + 8,
                    ) {
                        let n2 = hex4_val(s, i + 8);
                        if 0xDC00 <= n2 < 0xE000 {
                            let scalar = 0x10000 + (n1 - 0xD800) * 0x400 + (n2 - 0xDC00);
                            spec_str_chars(s, i + 12, acc.push(scalar as char))
                        } else {
                            None
                        }
                    } else {
                        None
                    }
                } else if 0xDC00 <= n1 < 0xE000 {
                    None
                } else {
                    spec_str_chars(s, i + 6, acc.push(n1 as char))
                }
            } else {
                None
            }
        } else {
            match spec_escape(s[i + 1]) {
                Some(c) => spec_str_chars(s, i + 2, acc.push(c)),
                None => None,
            }
        }
    } else if (s[i] as u32) < 0x20 {
        None
    } else {
        spec_str_chars(s, i + 1, acc.push(s[i]))
    }
}

/// A string literal: a quote, its body, and the closing quote.
pub open spec fn spec_string(s: Seq<char>, i: int) -> Option<(Seq<char>, int)> {
    if 0 <= i < s.len() && s[i] == '"' {
        spec_str_chars(s, i + 1, Seq::empty())
    } else {
        None
    }
}

/// A JSON value: a keyword, a number, a string, an array or an object.
pub open spec fn spec_value(s: Seq<char>, i: int) -> Option<(JsonV, int)>
    decreases s.len() - i, 1int,
        when 0 <= i <= s.len()
{
    if i >= s.len() {
        None
    } else if s[i] == 'n' {
        if i + 4 <= s.len() && s[i + 1] == 'u' && s[i + 2] == 'l' && s[i + 3] == 'l' {
            Some((JsonV::Null, i + 4))
        } else {
            None
        }
    } else if s[i] == 't' {
        if i + 4 <= s.len() && s[i + 1] == 'r' && s[i + 2] == 'u' && s[i + 3] == 'e' {
            Some((JsonV::Bool(true), i + 4))
        } else {
            None
        }
    } else if s[i] == 'f' {
        if i + 5 <= s.len() && s[i + 1] == 'a' && s[i + 2] == 'l' && s[i + 3] == 's' && s[i + 4]
            == 'e' {
            Some((JsonV::Bool(false), i + 5))
        } else {
            None
        }
    } else if s[i] == '"' {
        match spec_string(s, i) {
            Some((cs, j)) => Some((JsonV::Str(cs), j)),
            None => None,
        }
    } else if s[i] == '[' {
        spec_array(s, i)
    } else if s[i] == '{' {
        spec_object(s, i)
    } else {
        spec_number(s, i)
    }
}

/// An array: `[`, optional whitespace, then either `]` or its elements.
pub open spec fn spec_array(s: Seq<char>, i: int) -> Option<(JsonV, int)>
    decreases s.len() - i, 0int,
        when 0 <= i <= s.len()
{
    if i < s.len() && s[i] == '[' {
        let j = bounded(i + 1, spec_ws(s, i + 1), s.len() as int);
        if j < s.len() && s[j] == ']' {
            Some((JsonV::Arr(Seq::empty()), j + 1))
        } else {
            match spec_items(s, j, Seq::empty()) {
                Some((items, k)) => Some((JsonV::Arr(items), k)),
                None => None,
            }
        }
    } else {
        None
    }
}

/// The elements of an array from the first character of an element on:
/// a value, then either `,` and more elements or the closing `]`.
pub open spec fn spec_items(s: Seq<char>, i: int, acc: Seq<JsonV>) -> Option<(Seq<JsonV>, int)>
    decreases s.len() - i, 2int,
        when 0 <= i <= s.len()
{
    if i >= s.len() {
        None
    } else {
        match spec_value(s, i) {
            Some((v, k0)) => {
                let k = bounded(i + 1, k0, s.len() as int);
                let m = bounded(k, spec_ws(s, k), s.len() as int);
                if m < s.len() && s[m] == ',' {
                    let j = bounded(m + 1, spec_ws(s, m + 1), s.len() as int);
                    spec_items(s, j, acc.push(v))
                } else if m < s.len() && s[m] == ']' {
                    Some((acc.push(v), m + 1))
                } else {
                    None
                }
            },
            None => None,
        }
    }
}

/// An object: `{`, optional whitespace, then either `}` or its members.
pub open spec fn spec_object(s: Seq<char>, i: int) -> Option<(JsonV, int)>
    decreases s.len() - i, 0int,
        when 0 <= i <= s.len()
{
    if i < s.len() && s[i] == '{' {
        let j = bounded(i + 1, spec_ws(s, i + 1), s.len() as int);
        if j < s.len() && s[j] == '}' {
            Some((JsonV::Obj(Seq::empty()), j + 1))
        } else {
            match spec_members(s, j, Seq::empty()) {
                Some((members, k)) => Some((JsonV::Obj(members), k)),
                None => None,
            }
        }
    } else {
        None
    }
}

/// The members of an object from the first character of a key on: a string
/// key, `:`, a value, then either `,` and more members or the closing `}`.
pub open spec fn spec_members(s: Seq<char>, i: int, acc: Seq<(Seq<char>, JsonV)>) -> Option<
    (Seq<(Seq<char>, JsonV)>, int),
>
    decreases s.len() - i, 2int,
        when 0 <= i <= s.len()
{
    if i >= s.len() {
        None
    } else {
        match spec_string(s, i) {
            Some((key, k0)) => {
                let k = bounded(i + 1, k0, s.len() as int);
                let m = bounded(k, spec_ws(s, k), s.len() as int);
                if m < s.len() && s[m] == ':' {
                    let j = bounded(m + 1, spec_ws(s, m + 1), s.len() as int);
                    match spec_value(s, j) {
                        Some((v, q0)) => {
                            let q = bounded(j + 1, q0, s.len() as int);
                            let m2 = bounded(q, spec_ws(s, q), s.len() as int);
                            if m2 < s.len() && s[m2] == ',' {
                                let j2 = bounded(m2 + 1, spec_ws(s, m2 + 1), s.len() as int);
                                spec_members(s, j2, acc.push((key, v)))
                            } else if m2 < s.len() && s[m2] == '}' {
                                Some((acc.push((key, v)), m2 + 1))
                            } else {
                                None
                            }
                        },
                        None => None,
                    }
                } else {
                    None
                }
            },
            None => None,
        }
    }
}

/// A whole response body: one value surrounded by optional whitespace.
pub open spec fn spec_parse_text(s: Seq<char>) -> Option<JsonV> {
    let i = bounded(0, spec_ws(s, 0), s.len() as int);
    match spec_value(s, i) {
        Some((v, k)) => {
            let k2 = bounded(0, k, s.len() as int);
            if spec_ws(s, k2) == s.len() {
                Some(v)
            } else {
                None
            }
        },
        None => None,
    }
}

/// Relies on `String::from_iter` (through `Iterator::collect`): the
/// returned string holds exactly the characters of `v`, in order.
#[verifier::external_body]
fn chars_to_string(v: &Vec<char>) -> (r: String)
    ensures
        r@ == v@,
{
    v.iter().collect()
}

/// Relies on `char::from_u32`: `Some` exactly for Unicode scalar values
/// (not a surrogate, at most 0x10FFFF), holding the character with that
/// code point.
#[verifier::external_body]
fn char_from_u32(n: u32) -> (r: Option<char>)
    ensures
        r == (if n < 0xD800 || (0xE000 <= n && n <= 0x10FFFF) {
            Some(n as char)
        } else {
            None::<char>
        }),
{
    char::from_u32(n)
}

/// The characters of `text`, one per sequence position.
fn text_chars(text: &str) -> (r: Vec<char>)
    ensures
        r@ == text@,
{
    let n = text.unicode_len();
    let mut out: Vec<char> = Vec::new();
    let mut i: usize = 0;
    while i < n
        invariant
            i <= n,
            n == text@.len(),
            out@ == text@.subrange(0, i as int),
        decreases n - i,
    {
        let c = text.get_char(i);
        out.push(c);
        i = i + 1;
        assert(out@ =~= text@.subrange(0, i as int));
    }
    assert(out@ =~= text@);
    out
}

/// Skips JSON whitespace, landing exactly where the grammar says.
fn skip_ws(v: &Vec<char>, i: usize) -> (r: usize)
    requires
        i <= v@.len(),
    ensures
        i <= r <= v@.len(),
        r as int == spec_ws(v@, i as int),
{
    let mut j: usize = i;
    while j < v.len() && (v[j] == ' ' || v[j] == '\t' || v[j] == '\n' || v[j] == '\r')
        invariant
            i <= j <= v@.len(),
            spec_ws(v@, i as int) == spec_ws(v@, j as int),
        decreases v@.len() - j,
    {
        j = j + 1;
    }
    j
}

fn is_digit(c: char) -> (r: bool)
    ensures
        r == is_digit_char(c),
{
    let u = c as u32;
    48 <= u && u <= 57
}

fn is_hex(c: char) -> (r: bool)
    ensures
        r == is_hex_char(c),
{
    let u = c as u32;
    (48 <= u && u <= 57) || (97 <= u && u <= 102) || (65 <= u && u <= 70)
}

fn hex_digit(c: char) -> (r: u32)
    requires
        is_hex_char(c),
    ensures
        r as int == hex_val(c),
        r < 16,
{
    let u = c as u32;
    if 48 <= u && u <= 57 {
        u - 48
    } else if 97 <= u && u <= 102 {
        u - 87
    } else {
        u - 55
    }
}

fn esc_char(c: char) -> (r: Option<char>)
    ensures
        r == spec_escape(c),
{
    if c == '"' {
        Some('"')
    } else if c == '\\' {
        Some('\\')
    } else if c == '/' {
        Some('/')
    } else if c == 'b' {
        Some('\u{0008}')
    } else if c == 'f' {
        Some('\u{000C}')
    } else if c == 'n' {
        Some('\n')
    } else if c == 'r' {
        Some('\r')
    } else if c == 't' {
        Some('\t')
    } else {
        None
    }
}

/// Reads a run of digits.  Returns the accumulated value and where the run
/// ends; past `u64::MAX` it stops accumulating and reports the overflow,
/// still consuming the digits.
fn run_digits(v: &Vec<char>, i: usize) -> (r: (u64, bool, usize))
    requires
        i <= v@.len(),
    ensures
        ({
            let spec = spec_digits_val(v@, i as int, 0);
            &&& r.2 as int == spec.1
            &&& i <= r.2 <= v@.len()
            &&& (!r.1 ==> r.0 as int == spec.0)
            &&& (r.1 ==> spec.0 > u64::MAX)
            &&& (i < v@.len() && is_digit_char(v@[i as int]) ==> r.2 > i)
        }),
{
    let mut acc: u64 = 0;
    let mut over = false;
    let mut j: usize = i;
    let ghost mut tv: int = 0;
    while j < v.len() && is_digit(v[j])
        invariant
            i <= j <= v@.len(),
            spec_digits_val(v@, i as int, 0) == spec_digits_val(v@, j as int, tv),
            tv >= 0,
            !over ==> acc as int == tv,
            over ==> tv > u64::MAX,
        decreases v@.len() - j,
    {
        let c = v[j];
        let d = c as u32 - 48;
        proof {
            tv = tv * 10 + (d as int);
        }
        if !over {
            if acc > (u64::MAX - d as u64) / 10 {
                proof {
                    vstd::arithmetic::div_mod::lemma_fundamental_div_mod(
                        (u64::MAX - d as u64) as int,
                        10,
                    );
                }
                over = true;
            } else {
                proof {
                    vstd::arithmetic::div_mod::lemma_fundamental_div_mod(
                        (u64::MAX - d as u64) as int,
                        10,
                    );
                }
                acc = acc * 10 + d as u64;
            }
        }
        j = j + 1;
    }
    (acc, over, j)
}

/// Reads a number, as the grammar's `spec_number` does.
#[verifier::rlimit(50)]
fn p_number(v: &Vec<char>, i: usize) -> (r: Option<(Json, usize)>)
    requires
        i <= v@.len(),
    ensures
        match r {
            Some((j, k)) => spec_number(v@, i as int) == Some((j@, k as int)) && i < k
                <= v@.len(),
            None => spec_number(v@, i as int) is None,
        },
{
    if i >= v.len() {
        return None;
    }
    let neg = v[i] == '-';
    let i1 = if neg {
        i + 1
    } else {
        i
    };
    if !(i1 < v.len() && is_digit(v[i1])) {
        return None;
    }
    let (acc, over, i2) = run_digits(v, i1);
    if v[i1] == '0' && i2 != i1 + 1 {
        return None;
    }
    let mut has_fe = false;
    let mut p = i2;
    if p < v.len() && v[p] == '.' {
        if p + 1 < v.len() && is_digit(v[p + 1]) {
            let (_f0, _f1, e) = run_digits(v, p + 1);
            p = e;
            has_fe = true;
        } else {
            return None;
        }
    }
    if p < v.len() && (v[p] == 'e' || v[p] == 'E') {
        let q = if p + 1 < v.len() && (v[p + 1] == '+' || v[p + 1] == '-') {
            p + 2
        } else {
            p + 1
        };
        if q < v.len() && is_digit(v[q]) {
            let (_e0, _e1, e) = run_digits(v, q);
            p = e;
            has_fe = true;
        } else {
            return None;
        }
    }
    let fits = !over && (if neg {
        acc <= 0x8000_0000_0000_0000u64
    } else {
        acc <= 0x7fff_ffff_ffff_ffffu64
    });
    if has_fe || !fits {
        Some((Json::Num, p))
    } else if neg {
        let n: i64 = if acc == 0x8000_0000_0000_0000u64 {
            i64::MIN
        } else {
            -(acc as i64)
        };
        Some((Json::Int(n), p))
    } else {
        Some((Json::Int(acc as i64), p))
    }
}

/// Reads a string literal, as the grammar's `spec_string` does.
#[verifier::rlimit(100)]
fn p_string(v: &Vec<char>, i: usize) -> (r: Option<(String, usize)>)
    requires
        i <= v@.len(),
    ensures
        match r {
            Some((s, j)) => spec_string(v@, i as int) == Some((s@, j as int)) && i < j
                <= v@.len(),
            None => spec_string(v@, i as int) is None,
        },
{
    if !(i < v.len() && v[i] == '"') {
        return None;
    }
    let mut out: Vec<char> = Vec::new();
    let mut j = i + 1;
    proof {
        assert(out@ =~= Seq::<char>::empty());
    }
    while j < v.len() && v[j] != '"'
        invariant
            i + 1 <= j <= v@.len(),
            i < v@.len(),
            v@[i as int] == '"',
            spec_str_chars(v@, (i + 1) as int, Seq::empty()) == spec_str_chars(
                v@,
                j as int,
                out@,
            ),
        decreases v@.len() - j,
    {
        let c = v[j];
        if c == '\\' {
            if v.len() - j < 2 {
                return None;
            }
            let e = v[j + 1];
            if e == 'u' {
                if v.len() - j < 6 {
                    return None;
                }
                if !(is_hex(v[j + 2]) && is_hex(v[j + 3]) && is_hex(v[j + 4]) && is_hex(
                    v[j + 5],
                )) {
                    return None;
                }
                let n1: u32 = hex_digit(v[j + 2]) * 0x1000 + hex_digit(v[j + 3]) * 0x100
                    + hex_digit(v[j + 4]) * 0x10 + hex_digit(v[j + 5]);
                if 0xD800 <= n1 && n1 < 0xDC00 {
                    if v.len() - j < 12 {
                        return None;
                    }
                    if !(v[j + 6] == '\\' && v[j + 7] == 'u') {
                        return None;
                    }
                    if !(is_hex(v[j + 8]) && is_hex(v[j + 9]) && is_hex(v[j + 10]) && is_hex(
                        v[j + 11],
                    )) {
                        return None;
                    }
                    let n2: u32 = hex_digit(v[j + 8]) * 0x1000 + hex_digit(v[j + 9]) * 0x100
                        + hex_digit(v[j + 10]) * 0x10 + hex_digit(v[j + 11]);
                    if !(0xDC00 <= n2 && n2 < 0xE000) {
                        return None;
                    }
                    let scalar: u32 = 0x10000 + (n1 - 0xD800) * 0x400 + (n2 - 0xDC00);
                    proof {
                        assert(n1 as int == hex4_val(v@, j as int + 2));
                        assert(n2 as int == hex4_val(v@, j as int + 8));
                        assert(0x10000 <= scalar <= 0x10FFFF);
                    }
                    let c2 = match char_from_u32(scalar) {
                        Some(c2) => c2,
                        None => unreached(),
                    };
                    let ghost o0 = out@;
                    out.push(c2);
                    proof {
                        let sp = 0x10000 + (hex4_val(v@, j as int + 2) - 0xD800) * 0x400 + (
                        hex4_val(v@, j as int + 8) - 0xDC00);
                        assert(scalar as int == sp);
                        assert(c2 == (sp as char));
                        assert(out@ == o0.push(sp as char));
                        assert(spec_str_chars(v@, j as int, o0) == spec_str_chars(
                            v@,
                            j as int + 12,
                            o0.push(sp as char),
                        ));
                    }
                    j = j + 12;
                } else if 0xDC00 <= n1 && n1 < 0xE000 {
                    return None;
                } else {
                    proof {
                        assert(n1 as int == hex4_val(v@, j as int + 2));
                        assert(n1 < 0xD800 || (0xE000 <= n1 && n1 <= 0x10FFFF));
                    }
                    let c2 = match char_from_u32(n1) {
                        Some(c2) => c2,
                        None => unreached(),
                    };
                    let ghost o0 = out@;
                    out.push(c2);
                    proof {
                        let sp = hex4_val(v@, j as int + 2);
                        assert(c2 == (sp as char));
                        assert(out@ == o0.push(sp as char));
                        assert(spec_str_chars(v@, j as int, o0) == spec_str_chars(
                            v@,
                            j as int + 6,
                            o0.push(sp as char),
                        ));
                    }
                    j = j + 6;
                }
            } else {
                match esc_char(e) {
                    Some(c2) => {
                        let ghost o0 = out@;
                        out.push(c2);
                        proof {
                            assert(spec_str_chars(v@, j as int, o0) == spec_str_chars(
                                v@,
                                j as int + 2,
                                o0.push(c2),
                            ));
                        }
                        j = j + 2;
                    },
                    None => {
                        return None;
                    },
                }
            }
        } else if (c as u32) < 0x20 {
            return None;
        } else {
            let ghost o0 = out@;
            out.push(c);
            proof {
                assert((c as u32) >= 0x20);
                assert(spec_str_chars(v@, j as int, o0) == spec_str_chars(
                    v@,
                    j as int + 1,
                    o0.push(c),
                ));
            }
            j = j + 1;
        }
    }
    if j == v.len() {
        return None;
    }
    Some((chars_to_string(&out), j + 1))
}

/// Reads one value, as the grammar's `spec_value` does.  Recursion here is
/// one call per nesting level of the document, not per character.
fn p_value(v: &Vec<char>, i: usize) -> (r: Option<(Json, usize)>)
    requires
        i <= v@.len(),
    ensures
        match r {
            Some((j, k)) => spec_value(v@, i as int) == Some((j@, k as int)) && i < k
                <= v@.len(),
            None => spec_value(v@, i as int) is None,
        },
    decreases v@.len() - i, 1int,
{
    if i >= v.len() {
        return None;
    }
    let c = v[i];
    if c == 'n' {
        if v.len() - i >= 4 && v[i + 1] == 'u' && v[i + 2] == 'l' && v[i + 3] == 'l' {
            Some((Json::Null, i + 4))
        } else {
            None
        }
    } else if c == 't' {
        if v.len() - i >= 4 && v[i + 1] == 'r' && v[i + 2] == 'u' && v[i + 3] == 'e' {
            Some((Json::Bool(true), i + 4))
        } else {
            None
        }
    } else if c == 'f' {
        if v.len() - i >= 5 && v[i + 1] == 'a' && v[i + 2] == 'l' && v[i + 3] == 's' && v[i + 4]
            == 'e' {
            Some((Json::Bool(false), i + 5))
        } else {
            None
        }
    } else if c == '"' {
        match p_string(v, i) {
            Some((s, j)) => Some((Json::Str(s), j)),
            None => None,
        }
    } else if c == '[' {
        p_array(v, i)
    } else if c == '{' {
        p_object(v, i)
    } else {
        p_number(v, i)
    }
}

/// Reads an array, as the grammar's `spec_array` does.
fn p_array(v: &Vec<char>, i: usize) -> (r: Option<(Json, usize)>)
    requires
        i <= v@.len(),
    ensures
        match r {
            Some((j, k)) => spec_array(v@, i as int) == Some((j@, k as int)) && i < k
                <= v@.len(),
            None => spec_array(v@, i as int) is None,
        },
    decreases v@.len() - i, 0int,
{
    if i < v.len() && v[i] == '[' {
        let j = skip_ws(v, i + 1);
        if j < v.len() && v[j] == ']' {
            let empty: Vec<Json> = Vec::new();
            assert(arr_view(empty@) =~= Seq::<JsonV>::empty());
            Some((Json::Arr(empty), j + 1))
        } else {
            match p_items(v, j) {
                Some((items, k)) => Some((Json::Arr(items), k)),
                None => None,
            }
        }
    } else {
        None
    }
}

/// Reads the elements of an array, as the grammar's `spec_items` does,
/// one loop iteration per element.
fn p_items(v: &Vec<char>, i: usize) -> (r: Option<(Vec<Json>, usize)>)
    requires
        i <= v@.len(),
    ensures
        match r {
            Some((items, k)) => spec_items(v@, i as int, Seq::empty()) == Some(
                (arr_view(items@), k as int),
            ) && i < k <= v@.len(),
            None => spec_items(v@, i as int, Seq::empty()) is None,
        },
    decreases v@.len() - i, 2int,
{
    let mut acc: Vec<Json> = Vec::new();
    let mut j = i;
    proof {
        assert(arr_view(acc@) =~= Seq::<JsonV>::empty());
    }
    loop
        invariant
            i <= j <= v@.len(),
            spec_items(v@, i as int, Seq::empty()) == spec_items(v@, j as int, arr_view(acc@)),
        decreases v@.len() - j,
    {
        if j >= v.len() {
            return None;
        }
        match p_value(v, j) {
            Some((val, k)) => {
                let m = skip_ws(v, k);
                if m < v.len() && v[m] == ',' {
                    let j2 = skip_ws(v, m + 1);
                    let ghost a0 = acc@;
                    let ghost vv = val@;
                    acc.push(val);
                    proof {
                        assert(arr_view(acc@) =~= arr_view(a0).push(vv));
                    }
                    j = j2;
                } else if m < v.len() && v[m] == ']' {
                    let ghost a0 = acc@;
                    let ghost vv = val@;
                    acc.push(val);
                    proof {
                        assert(arr_view(acc@) =~= arr_view(a0).push(vv));
                    }
                    return Some((acc, m + 1));
                } else {
                    return None;
                }
            },
            None => {
                return None;
            },
        }
    }
}

/// Reads an object, as the grammar's `spec_object` does.
fn p_object(v: &Vec<char>, i: usize) -> (r: Option<(Json, usize)>)
    requires
        i <= v@.len(),
    ensures
        match r {
            Some((j, k)) => spec_object(v@, i as int) == Some((j@, k as int)) && i < k
                <= v@.len(),
            None => spec_object(v@, i as int) is None,
        },
    decreases v@.len() - i, 0int,
{
    if i < v.len() && v[i] == '{' {
        let j = skip_ws(v, i + 1);
        if j < v.len() && v[j] == '}' {
            let empty: Vec<(String, Json)> = Vec::new();
            assert(obj_view(empty@) =~= Seq::<(Seq<char>, JsonV)>::empty());
            Some((Json::Obj(empty), j + 1))
        } else {
            match p_members(v, j) {
                Some((members, k)) => Some((Json::Obj(members), k)),
                None => None,
            }
        }
    } else {
        None
    }
}

/// Reads the members of an object, as the grammar's `spec_members` does,
/// one loop iteration per member.
fn p_members(v: &Vec<char>, i: usize) -> (r: Option<(Vec<(String, Json)>, usize)>)
    requires
        i <= v@.len(),
    ensures
        match r {
            Some((members, k)) => spec_members(v@, i as int, Seq::empty()) == Some(
                (obj_view(members@), k as int),
            ) && i < k <= v@.len(),
            None => spec_members(v@, i as int, Seq::empty()) is None,
        },
    decreases v@.len() - i, 2int,
{
    let mut acc: Vec<(String, Json)> = Vec::new();
    let mut j = i;
    proof {
        assert(obj_view(acc@) =~= Seq::<(Seq<char>, JsonV)>::empty());
    }
    loop
        invariant
            i <= j <= v@.len(),
            spec_members(v@, i as int, Seq::empty()) == spec_members(
                v@,
                j as int,
                obj_view(acc@),
            ),
        decreases v@.len() - j,
    {
        if j >= v.len() {
            return None;
        }
        match p_string(v, j) {
            Some((key, k)) => {
                let m = skip_ws(v, k);
                if m < v.len() && v[m] == ':' {
                    let j2 = skip_ws(v, m + 1);
                    match p_value(v, j2) {
                        Some((val, q)) => {
                            let m2 = skip_ws(v, q);
                            if m2 < v.len() && v[m2] == ',' {
                                let j3 = skip_ws(v, m2 + 1);
                                let ghost a0 = acc@;
                                let ghost kv = key@;
                                let ghost vv = val@;
                                acc.push((key, val));
                                proof {
                                    assert(obj_view(acc@) =~= obj_view(a0).push((kv, vv)));
                                }
                                j = j3;
                            } else if m2 < v.len() && v[m2] == '}' {
                                let ghost a0 = acc@;
                                let ghost kv = key@;
                                let ghost vv = val@;
                                acc.push((key, val));
                                proof {
                                    assert(obj_view(acc@) =~= obj_view(a0).push((kv, vv)));
                                }
                                return Some((acc, m2 + 1));
                            } else {
                                return None;
                            }
                        },
                        None => {
                            return None;
                        },
                    }
                } else {
                    return None;
                }
            },
            None => {
                return None;
            },
        }
    }
}

/// Parses one response body: the parsed document exactly when the text
/// matches the grammar, `None` otherwise.
pub fn parse_json(text: &str) -> (r: Option<Json>)
    ensures
        match r {
            Some(j) => spec_parse_text(text@) == Some(j@),
            None => spec_parse_text(text@) is None,
        },
{
    let v = text_chars(text);
    let i = skip_ws(&v, 0);
    match p_value(&v, i) {
        Some((j, k)) => {
            let m = skip_ws(&v, k);
            if m == v.len() {
                Some(j)
            } else {
                None
            }
        },
        None => None,
    }
}

} // verus!
