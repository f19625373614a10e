//! The grammar of one line of the hook log.
//!
//! A line is a single flat JSON object: string keys, scalar values
//! (strings with the usual escapes, numbers, booleans, null), no nested
//! containers — exactly what the hook script writes.  The grammar is
//! defined by the spec functions here; the executable parser is proved
//! equal to them.  A line that does not fit the grammar is dropped by the
//! drain pipeline, never retried.

use vstd::prelude::*;

verus! {

/// A scalar field value of a log line.
pub enum FieldValue {
    Null,
    Bool(bool),
    /// A number, kept verbatim as its lexeme.
    Num(String),
    /// A string, with its escapes decoded.
    Str(String),
}

/// Ghost mirror of [`FieldValue`].
pub enum FieldView {
    Null,
    Bool(bool),
    Num(Seq<char>),
    Str(Seq<char>),
}

impl View for FieldValue {
    type V = FieldView;

    open spec fn view(&self) -> FieldView {
        match self {
            FieldValue::Null => FieldView::Null,
            FieldValue::Bool(b) => FieldView::Bool(*b),
            FieldValue::Num(s) => FieldView::Num(s@),
            FieldValue::Str(s) => FieldView::Str(s@),
        }
    }
}

/// The fields of a parsed line, as ghost values, in document order.
pub open spec fn fields_view(v: Seq<(String, FieldValue)>) -> Seq<(Seq<char>, FieldView)> {
    v.map_values(|kv: (String, FieldValue)| (kv.0@, kv.1@))
}

// ---------------------------------------------------------------------------
// Whitespace
// ---------------------------------------------------------------------------

/// JSON insignificant whitespace.
pub open spec fn is_ws(c: char) -> bool {
    c == ' ' || c == '\n' || c == '\t' || c == '\r'
}

/// The first position at or after `i` that holds no whitespace.
pub open spec fn skip_ws(s: Seq<char>, i: int) -> int
    decreases s.len() - i when 0 <= i <= s.len()
{
    if i < s.len() && is_ws(s[i]) {
        skip_ws(s, i + 1)
    } else {
        i
    }
}

pub proof fn lemma_skip_ws_bounds(s: Seq<char>, i: int)
    requires
        0 <= i <= s.len(),
    ensures
        i <= skip_ws(s, i) <= s.len(),
    decreases s.len() - i,
{
    if i < s.len() && is_ws(s[i]) {
        lemma_skip_ws_bounds(s, i + 1);
    }
}

fn is_ws_exec(c: char) -> (r: bool)
    ensures
        r == is_ws(c),
{
    c == ' ' || c == '\n' || c == '\t' || c == '\r'
}

/// Advances past whitespace.
fn ws_end(s: &[char], i: usize) -> (j: usize)
    requires
        i <= s@.len(),
    ensures
        j == skip_ws(s@, i as int),
        i <= j <= s@.len(),
{
    let n = s.len();
    let mut j = i;
    while j < n && is_ws_exec(s[j])
        invariant
            i <= j <= n == s@.len(),
            skip_ws(s@, i as int) == skip_ws(s@, j as int),
        decreases n - j,
    {
        j = j + 1;
    }
    j
}

// ---------------------------------------------------------------------------
// Strings
// ---------------------------------------------------------------------------

/// The character a single-letter escape stands for.
pub open spec fn simple_escape(c: char) -> Option<char> {
    if c == '"' {
        Some('"')
    } else if c == '\\' {
        Some('\\')
    } else if c == '/' {
        Some('/')
    } else if c == 'b' {
        Some('\u{0008}')
    } else if c == 'f' {
        Some('\u{000C}')
    } else if c == 'n' {
        Some('\n')
    } else if c == 'r' {
        Some('\r')
    } else if c == 't' {
        Some('\t')
    } else {
        None
    }
}

fn simple_escape_exec(c: char) -> (r: Option<char>)
    ensures
        r == simple_escape(c),
{
    if c == '"' {
        Some('"')
    } else if c == '\\' {
        Some('\\')
    } else if c == '/' {
        Some('/')
    } else if c == 'b' {
        Some('\u{0008}')
    } else if c == 'f' {
        Some('\u{000C}')
    } else if c == 'n' {
        Some('\n')
    } else if c == 'r' {
        Some('\r')
    } else if c == 't' {
        Some('\t')
    } else {
        None
    }
}

pub open spec fn is_hex_digit(c: char) -> bool {
    ('0' <= c && c <= '9') || ('a' <= c && c <= 'f') || ('A' <= c && c <= 'F')
}

pub open spec fn hex_digit_val(c: char) -> int {
    if '0' <= c && c <= '9' {
        c as u32 - '0' as u32
    } else if 'a' <= c && c <= 'f' {
        c as u32 - 'a' as u32 + 10
    } else {
        c as u32 - 'A' as u32 + 10
    }
}

/// True when four hex digits stand at `i`.
pub open spec fn hex4_ok(s: Seq<char>, i: int) -> bool {
    &&& i + 4 <= s.len()
    &&& is_hex_digit(s[i])
    &&& is_hex_digit(s[i + 1])
    &&& is_hex_digit(s[i + 2])
    &&& is_hex_digit(s[i + 3])
}

/// The value of the four hex digits at `i`.
pub open spec fn hex4_val(s: Seq<char>, i: int) -> int {
    hex_digit_val(s[i]) * 0x1000 + hex_digit_val(s[i + 1]) * 0x100 + hex_digit_val(s[i + 2]) * 0x10
        + hex_digit_val(s[i + 3])
}

fn hex_digit_val_exec(c: char) -> (r: Option<u32>)
    ensures
        r is Some <==> is_hex_digit(c),
        r matches Some(v) ==> v == hex_digit_val(c) && v < 16,
{
    if '0' <= c && c <= '9' {
        Some(c as u32 - '0' as u32)
    } else if 'a' <= c && c <= 'f' {
        Some(c as u32 - 'a' as u32 + 10)
    } else if 'A' <= c && c <= 'F' {
        Some(c as u32 - 'A' as u32 + 10)
    } else {
        None
    }
}

/// Reads four hex digits at `i`.
fn hex4_at(s: &[char], i: usize) -> (r: Option<u32>)
    requires
        i <= s@.len(),
    ensures
        r is Some <==> hex4_ok(s@, i as int),
        r matches Some(v) ==> v == hex4_val(s@, i as int) && v < 0x10000,
{
    if s.len() - i < 4 {
        return None;
    }
    let d0 = hex_digit_val_exec(s[i]);
    let d1 = hex_digit_val_exec(s[i + 1]);
    let d2 = hex_digit_val_exec(s[i + 2]);
    let d3 = hex_digit_val_exec(s[i + 3]);
    match (d0, d1, d2, d3) {
        (Some(a), Some(b), Some(c), Some(d)) => Some(a * 0x1000 + b * 0x100 + c * 0x10 + d),
        _ => None,
    }
}

/// A Unicode scalar value: a code point that is no surrogate.
pub open spec fn is_scalar_value(code: int) -> bool {
    (0 <= code && code < 0xD800) || (0xE000 <= code && code < 0x110000)
}

/// Relies on `char::from_u32`: `Some` exactly for Unicode scalar values,
/// and the returned character casts back to the given code.
#[verifier::external_body]
fn char_from_u32(code: u32) -> (r: Option<char>)
    ensures
        r is Some <==> is_scalar_value(code as int),
        r matches Some(c) ==> c as u32 == code,
{
    char::from_u32(code)
}

/// The body of a JSON string, from position `i` (after the opening quote)
/// to the closing quote, decoding escapes into `acc`.
pub open spec fn spec_string_body(s: Seq<char>, i: int, acc: Seq<char>) -> Option<(Seq<char>, int)>
    decreases s.len() - i when 0 <= i <= s.len()
{
    if i >= s.len() {
        None
    } else {
        let c = s[i];
        if c == '"' {
            Some((acc, i + 1))
        } else if c == '\\' {
            if i + 1 < s.len() {
                let e = s[i + 1];
                if e == 'u' {
                    if hex4_ok(s, i + 2) {
                        let hi = hex4_val(s, i + 2);
                        if 0xD800 <= hi && hi < 0xDC00 {
                            if i + 12 <= s.len() && s[i + 6] == '\\' && s[i + 7] == 'u' && hex4_ok(
                                s,
                                i + 8,
                            ) {
                                let lo = hex4_val(s, i + 8);
                                if 0xDC00 <= lo && lo < 0xE000 {
                                    spec_string_body(
                                        s,
                                        i + 12,
                                        acc.push(
                                            ((0x10000 + (hi - 0xD800) * 0x400 + (lo - 0xDC00))
                                                as u32) as char,
                                        ),
                                    )
                                } else {
                                    None
                                }
                            } else {
                                None
                            }
                        } else if 0xDC00 <= hi && hi < 0xE000 {
                            None
                        } else {
                            spec_string_body(s, i + 6, acc.push((hi as u32) as char))
                        }
                    } else {
                        None
                    }
                } else {
                    match simple_escape(e) {
                        Some(d) => spec_string_body(s, i + 2, acc.push(d)),
                        None => None,
                    }
                }
            } else {
                None
            }
        } else if (c as u32) < 32 {
            None
        } else {
            spec_string_body(s, i + 1, acc.push(c))
        }
    }
}

/// A JSON string starting with its opening quote at `i`; the returned
/// position stands after the closing quote.
pub open spec fn spec_parse_string(s: Seq<char>, i: int) -> Option<(Seq<char>, int)> {
    if 0 <= i < s.len() && s[i] == '"' {
        spec_string_body(s, i + 1, Seq::<char>::empty())
    } else {
        None
    }
}

pub proof fn lemma_string_body_advances(s: Seq<char>, i: int, acc: Seq<char>)
    requires
        0 <= i <= s.len(),
    ensures
        match spec_string_body(s, i, acc) {
            Some(r) => i < r.1 <= s.len(),
            None => true,
        },
    decreases s.len() - i,
{
    if i >= s.len() {
    } else {
        let c = s[i];
        if c == '"' {
        } else if c == '\\' && i + 1 < s.len() {
            let e = s[i + 1];
            if e == 'u' {
                if hex4_ok(s, i + 2) {
                    let hi = hex4_val(s, i + 2);
                    if 0xD800 <= hi && hi < 0xDC00 {
                        if i + 12 <= s.len() && s[i + 6] == '\\' && s[i + 7] == 'u' && hex4_ok(
                            s,
                            i + 8,
                        ) {
                            let lo = hex4_val(s, i + 8);
                            if 0xDC00 <= lo && lo < 0xE000 {
                                lemma_string_body_advances(
                                    s,
                                    i + 12,
                                    acc.push(
                                        ((0x10000 + (hi - 0xD800) * 0x400 + (lo - 0xDC00)) as u32)
                                            as char,
                                    ),
                                );
                            }
                        }
                    } else if 0xDC00 <= hi && hi < 0xE000 {
                    } else {
                        lemma_string_body_advances(s, i + 6, acc.push((hi as u32) as char));
                    }
                }
            } else {
                match simple_escape(e) {
                    Some(d) => {
                        lemma_string_body_advances(s, i + 2, acc.push(d));
                    },
                    None => {},
                }
            }
        } else if (c as u32) < 32 {
        } else {
            lemma_string_body_advances(s, i + 1, acc.push(c));
        }
    }
}

pub proof fn lemma_parse_string_advances(s: Seq<char>, i: int)
    ensures
        match spec_parse_string(s, i) {
            Some(r) => i + 1 < r.1 <= s.len(),
            None => true,
        },
{
    if 0 <= i < s.len() && s[i] == '"' {
        lemma_string_body_advances(s, i + 1, Seq::<char>::empty());
    }
}

/// Parses a JSON string whose opening quote stands at `i`, decoding its
/// escapes; returns the content and the position after the closing quote.
fn parse_string_at(s: &[char], i: usize) -> (r: Option<(Vec<char>, usize)>)
    requires
        i <= s@.len(),
    ensures
        match r {
            Some(p) => spec_parse_string(s@, i as int) == Some((p.0@, p.1 as int)) && i < p.1
                <= s@.len(),
            None => spec_parse_string(s@, i as int) is None,
        },
{
    broadcast use vstd::utf8::char_u32_cast;

    proof {
        lemma_parse_string_advances(s@, i as int);
    }
    if i >= s.len() || s[i] != '"' {
        return None;
    }
    let mut acc: Vec<char> = Vec::new();
    let mut j = i + 1;
    loop
        invariant
            i + 1 <= j <= s@.len(),
            spec_string_body(s@, i + 1, Seq::<char>::empty()) == spec_string_body(
                s@,
                j as int,
                acc@,
            ),
            spec_parse_string(s@, i as int) == spec_string_body(s@, i + 1, Seq::<char>::empty()),
            match spec_string_body(s@, i + 1, Seq::<char>::empty()) {
                Some(r) => i < r.1 <= s@.len(),
                None => true,
            },
        decreases s@.len() - j,
    {
        if j >= s.len() {
            return None;
        }
        let ghost j0 = j as int;
        let ghost a0 = acc@;
        let c = s[j];
        if c == '"' {
            return Some((acc, j + 1));
        } else if c == '\\' {
            if j + 1 >= s.len() {
                return None;
            }
            let e = s[j + 1];
            if e == 'u' {
                match hex4_at(s, j + 2) {
                    None => {
                        return None;
                    },
                    Some(hi) => {
                        if 0xD800 <= hi && hi < 0xDC00 {
                            if s.len() - j >= 12 && s[j + 6] == '\\' && s[j + 7] == 'u' {
                                match hex4_at(s, j + 8) {
                                    None => {
                                        return None;
                                    },
                                    Some(lo) => {
                                        if 0xDC00 <= lo && lo < 0xE000 {
                                            let code: u32 = 0x10000 + (hi - 0xD800) * 0x400 + (lo
                                                - 0xDC00);
                                            match char_from_u32(code) {
                                                Some(d) => {
                                                    proof {
                                                        let ce = 0x10000 + (hex4_val(s@, j0 + 2)
                                                            - 0xD800) * 0x400 + (hex4_val(
                                                            s@,
                                                            j0 + 8,
                                                        ) - 0xDC00);
                                                        assert(ce == code as int);
                                                        assert((ce as u32) == code);
                                                        vstd::utf8::char_u32_cast(d, code);
                                                        assert(d == (ce as u32) as char);
                                                    }
                                                    acc.push(d);
                                                    j = j + 12;
                                                    proof {
                                                        assert(spec_string_body(s@, j0, a0)
                                                            == spec_string_body(
                                                            s@,
                                                            j as int,
                                                            acc@,
                                                        ));
                                                    }
                                                },
                                                None => {
                                                    proof {
                                                        assert(false);
                                                    }
                                                    return None;
                                                },
                                            }
                                        } else {
                                            return None;
                                        }
                                    },
                                }
                            } else {
                                return None;
                            }
                        } else if 0xDC00 <= hi && hi < 0xE000 {
                            return None;
                        } else {
                            match char_from_u32(hi) {
                                Some(d) => {
                                    proof {
                                        let ce = hex4_val(s@, j0 + 2);
                                        assert(ce == hi as int);
                                        assert((ce as u32) == hi);
                                        vstd::utf8::char_u32_cast(d, hi);
                                        assert(d == (ce as u32) as char);
                                    }
                                    acc.push(d);
                                    j = j + 6;
                                    proof {
                                        assert(spec_string_body(s@, j0, a0) == spec_string_body(
                                            s@,
                                            j as int,
                                            acc@,
                                        ));
                                    }
                                },
                                None => {
                                    proof {
                                        assert(false);
                                    }
                                    return None;
                                },
                            }
                        }
                    },
                }
            } else {
                match simple_escape_exec(e) {
                    Some(d) => {
                        acc.push(d);
                        j = j + 2;
                        proof {
                            assert(spec_string_body(s@, j0, a0) == spec_string_body(
                                s@,
                                j as int,
                                acc@,
                            ));
                        }
                    },
                    None => {
                        return None;
                    },
                }
            }
        } else if (c as u32) < 32 {
            return None;
        } else {
            acc.push(c);
            j = j + 1;
            proof {
                assert(spec_string_body(s@, j0, a0) == spec_string_body(s@, j as int, acc@));
            }
        }
    }
}

// ---------------------------------------------------------------------------
// Numbers
// ---------------------------------------------------------------------------

pub open spec fn is_digit(c: char) -> bool {
    '0' <= c && c <= '9'
}

/// The first position at or after `i` that holds no decimal digit.
pub open spec fn digits_end(s: Seq<char>, i: int) -> int
    decreases s.len() - i when 0 <= i <= s.len()
{
    if i < s.len() && is_digit(s[i]) {
        digits_end(s, i + 1)
    } else {
        i
    }
}

pub proof fn lemma_digits_end_bounds(s: Seq<char>, i: int)
    requires
        0 <= i <= s.len(),
    ensures
        i <= digits_end(s, i) <= s.len(),
    decreases s.len() - i,
{
    if i < s.len() && is_digit(s[i]) {
        lemma_digits_end_bounds(s, i + 1);
    }
}

fn is_digit_exec(c: char) -> (r: bool)
    ensures
        r == is_digit(c),
{
    '0' <= c && c <= '9'
}

/// Advances past decimal digits.
fn digits_end_exec(s: &[char], i: usize) -> (j: usize)
    requires
        i <= s@.len(),
    ensures
        j == digits_end(s@, i as int),
        i <= j <= s@.len(),
{
    let n = s.len();
    let mut j = i;
    while j < n && is_digit_exec(s[j])
        invariant
            i <= j <= n == s@.len(),
            digits_end(s@, i as int) == digits_end(s@, j as int),
        decreases n - j,
    {
        j = j + 1;
    }
    j
}

/// The position after a JSON number starting at `i`: an optional minus
/// sign, an integer part without leading zeroes, and optional fraction
/// and exponent parts.
pub open spec fn spec_number_end(s: Seq<char>, i: int) -> Option<int> {
    if !(0 <= i <= s.len()) {
        None
    } else {
        let j = if i < s.len() && s[i] == '-' {
            i + 1
        } else {
            i
        };
        if j < s.len() && s[j] == '0' {
            spec_number_tail(s, j + 1)
        } else if j < s.len() && is_digit(s[j]) {
            spec_number_tail(s, digits_end(s, j))
        } else {
            None
        }
    }
}

/// The position after the optional fraction and exponent parts at `k`.
pub open spec fn spec_number_tail(s: Seq<char>, k: int) -> Option<int> {
    if !(0 <= k <= s.len()) {
        None
    } else {
        let f = if k < s.len() && s[k] == '.' {
            if k + 1 < s.len() && is_digit(s[k + 1]) {
                Some(digits_end(s, k + 1))
            } else {
                None
            }
        } else {
            Some(k)
        };
        match f {
            None => None,
            Some(f) => {
                if !(0 <= f <= s.len()) {
                    None
                } else if f < s.len() && (s[f] == 'e' || s[f] == 'E') {
                    let g = if f + 1 < s.len() && (s[f + 1] == '+' || s[f + 1] == '-') {
                        f + 2
                    } else {
                        f + 1
                    };
                    if g < s.len() && is_digit(s[g]) {
                        Some(digits_end(s, g))
                    } else {
                        None
                    }
                } else {
                    Some(f)
                }
            },
        }
    }
}

pub proof fn lemma_number_end_bounds(s: Seq<char>, i: int)
    requires
        0 <= i <= s.len(),
    ensures
        match spec_number_end(s, i) {
            Some(e) => i < e <= s.len(),
            None => true,
        },
{
    let j = if i < s.len() && s[i] == '-' {
        i + 1
    } else {
        i
    };
    if j < s.len() && s[j] == '0' {
        lemma_number_tail_bounds(s, j + 1);
    } else if j < s.len() && is_digit(s[j]) {
        assert(digits_end(s, j) == digits_end(s, j + 1));
        lemma_digits_end_bounds(s, j + 1);
        lemma_number_tail_bounds(s, digits_end(s, j));
    }
}

pub proof fn lemma_number_tail_bounds(s: Seq<char>, k: int)
    requires
        0 <= k <= s.len(),
    ensures
        match spec_number_tail(s, k) {
            Some(e) => k <= e <= s.len(),
            None => true,
        },
{
    if k < s.len() && s[k] == '.' {
        if k + 1 < s.len() && is_digit(s[k + 1]) {
            lemma_digits_end_bounds(s, k + 1);
            let f = digits_end(s, k + 1);
            if f < s.len() && (s[f] == 'e' || s[f] == 'E') {
                let g = if f + 1 < s.len() && (s[f + 1] == '+' || s[f + 1] == '-') {
                    f + 2
                } else {
                    f + 1
                };
                if g < s.len() && is_digit(s[g]) {
                    lemma_digits_end_bounds(s, g);
                }
            }
        }
    } else {
        if k < s.len() && (s[k] == 'e' || s[k] == 'E') {
            let g = if k + 1 < s.len() && (s[k + 1] == '+' || s[k + 1] == '-') {
                k + 2
            } else {
                k + 1
            };
            if g < s.len() && is_digit(s[g]) {
                lemma_digits_end_bounds(s, g);
            }
        }
    }
}

/// Finds the end of a JSON number starting at `i`.
fn number_end_at(s: &[char], i: usize) -> (r: Option<usize>)
    requires
        i <= s@.len(),
    ensures
        match r {
            Some(e) => spec_number_end(s@, i as int) == Some(e as int) && i < e <= s@.len(),
            None => spec_number_end(s@, i as int) is None,
        },
{
    proof {
        lemma_number_end_bounds(s@, i as int);
    }
    let j = if i < s.len() && s[i] == '-' {
        i + 1
    } else {
        i
    };
    let k: usize;
    if j < s.len() && s[j] == '0' {
        k = j + 1;
    } else if j < s.len() && is_digit_exec(s[j]) {
        k = digits_end_exec(s, j);
    } else {
        return None;
    }
    // fraction
    let f: usize;
    if k < s.len() && s[k] == '.' {
        if k + 1 < s.len() && is_digit_exec(s[k + 1]) {
            f = digits_end_exec(s, k + 1);
        } else {
            return None;
        }
    } else {
        f = k;
    }
    // exponent
    if f < s.len() && (s[f] == 'e' || s[f] == 'E') {
        let g = if f + 1 < s.len() && (s[f + 1] == '+' || s[f + 1] == '-') {
            f + 2
        } else {
            f + 1
        };
        if g < s.len() && is_digit_exec(s[g]) {
            Some(digits_end_exec(s, g))
        } else {
            None
        }
    } else {
        Some(f)
    }
}

/// Copies `s[a..b]` into a fresh vector.
pub fn copy_range(s: &[char], a: usize, b: usize) -> (v: Vec<char>)
    requires
        a <= b <= s@.len(),
    ensures
        v@ == s@.subrange(a as int, b as int),
{
    let mut v: Vec<char> = Vec::new();
    let mut k = a;
    while k < b
        invariant
            a <= k <= b <= s@.len(),
            v@ =~= s@.subrange(a as int, k as int),
        decreases b - k,
    {
        v.push(s[k]);
        proof {
            assert(v@ =~= s@.subrange(a as int, k + 1));
        }
        k = k + 1;
    }
    v
}

// ---------------------------------------------------------------------------
// Scalar values
// ---------------------------------------------------------------------------

/// A scalar value at `i` (leading whitespace allowed): a string, `true`,
/// `false`, `null`, or a number.
pub open spec fn spec_scalar(s: Seq<char>, i: int) -> Option<(FieldView, int)> {
    if !(0 <= i <= s.len()) {
        None
    } else {
        let j = skip_ws(s, i);
        if j >= s.len() {
            None
        } else if s[j] == '"' {
            match spec_parse_string(s, j) {
                Some(r) => Some((FieldView::Str(r.0), r.1)),
                None => None,
            }
        } else if s[j] == 't' {
            if j + 4 <= s.len() && s[j + 1] == 'r' && s[j + 2] == 'u' && s[j + 3] == 'e' {
                Some((FieldView::Bool(true), j + 4))
            } else {
                None
            }
        } else if s[j] == 'f' {
            if j + 5 <= s.len() && s[j + 1] == 'a' && s[j + 2] == 'l' && s[j + 3] == 's' && s[j + 4]
                == 'e' {
                Some((FieldView::Bool(false), j + 5))
            } else {
                None
            }
        } else if s[j] == 'n' {
            if j + 4 <= s.len() && s[j + 1] == 'u' && s[j + 2] == 'l' && s[j + 3] == 'l' {
                Some((FieldView::Null, j + 4))
            } else {
                None
            }
        } else {
            match spec_number_end(s, j) {
                Some(e) => Some((FieldView::Num(s.subrange(j, e)), e)),
                None => None,
            }
        }
    }
}

pub proof fn lemma_scalar_advances(s: Seq<char>, i: int)
    requires
        0 <= i <= s.len(),
    ensures
        match spec_scalar(s, i) {
            Some(r) => i < r.1 <= s.len(),
            None => true,
        },
{
    lemma_skip_ws_bounds(s, i);
    let j = skip_ws(s, i);
    if j < s.len() {
        if s[j] == '"' {
            lemma_parse_string_advances(s, j);
        } else if s[j] == 't' || s[j] == 'f' || s[j] == 'n' {
        } else {
            lemma_number_end_bounds(s, j);
        }
    }
}

/// Parses a scalar value at `i` (leading whitespace allowed).
fn parse_scalar_at(s: &[char], i: usize) -> (r: Option<(FieldValue, usize)>)
    requires
        i <= s@.len(),
    ensures
        match r {
            Some(p) => spec_scalar(s@, i as int) == Some((p.0@, p.1 as int)) && i < p.1
                <= s@.len(),
            None => spec_scalar(s@, i as int) is None,
        },
{
    proof {
        lemma_scalar_advances(s@, i as int);
    }
    let j = ws_end(s, i);
    if j >= s.len() {
        return None;
    }
    let c = s[j];
    if c == '"' {
        match parse_string_at(s, j) {
            Some((content, e)) => Some((FieldValue::Str(crate::strutil::chars_to_string(&content)), e)),
            None => None,
        }
    } else if c == 't' {
        if s.len() - j >= 4 && s[j + 1] == 'r' && s[j + 2] == 'u' && s[j + 3] == 'e' {
            Some((FieldValue::Bool(true), j + 4))
        } else {
            None
        }
    } else if c == 'f' {
        if s.len() - j >= 5 && s[j + 1] == 'a' && s[j + 2] == 'l' && s[j + 3] == 's' && s[j + 4]
            == 'e' {
            Some((FieldValue::Bool(false), j + 5))
        } else {
            None
        }
    } else if c == 'n' {
        if s.len() - j >= 4 && s[j + 1] == 'u' && s[j + 2] == 'l' && s[j + 3] == 'l' {
            Some((FieldValue::Null, j + 4))
        } else {
            None
        }
    } else {
        match number_end_at(s, j) {
            Some(e) => {
                let lex = copy_range(s, j, e);
                Some((FieldValue::Num(crate::strutil::chars_to_string(&lex)), e))
            },
            None => None,
        }
    }
}

// ---------------------------------------------------------------------------
// Objects
// ---------------------------------------------------------------------------

/// The members of an object from position `i` (after `{` or a comma) to
/// its closing brace: `"key": value` pairs separated by commas.
pub open spec fn spec_members(s: Seq<char>, i: int) -> Option<(Seq<(Seq<char>, FieldView)>, int)>
    decreases s.len() - i when 0 <= i <= s.len()
{
    let j = skip_ws(s, i);
    proof {
        lemma_skip_ws_bounds(s, i);
    }
    if j < s.len() && s[j] == '"' {
        match spec_parse_string(s, j) {
            Some(kp) => {
                proof {
                    lemma_parse_string_advances(s, j);
                }
                let q = skip_ws(s, kp.1);
                proof {
                    lemma_skip_ws_bounds(s, kp.1);
                }
                if q < s.len() && s[q] == ':' {
                    match spec_scalar(s, q + 1) {
                        Some(vp) => {
                            proof {
                                lemma_scalar_advances(s, q + 1);
                            }
                            let u = skip_ws(s, vp.1);
                            proof {
                                lemma_skip_ws_bounds(s, vp.1);
                            }
                            if u < s.len() && s[u] == ',' {
                                match spec_members(s, u + 1) {
                                    Some(rest) => Some(
                                        (seq![(kp.0, vp.0)] + rest.0, rest.1),
                                    ),
                                    None => None,
                                }
                            } else if u < s.len() && s[u] == '}' {
                                Some((seq![(kp.0, vp.0)], u + 1))
                            } else {
                                None
                            }
                        },
                        None => None,
                    }
                } else {
                    None
                }
            },
            None => None,
        }
    } else {
        None
    }
}

pub proof fn lemma_members_advances(s: Seq<char>, i: int)
    requires
        0 <= i <= s.len(),
    ensures
        match spec_members(s, i) {
            Some(r) => i < r.1 <= s.len(),
            None => true,
        },
    decreases s.len() - i,
{
    lemma_skip_ws_bounds(s, i);
    let j = skip_ws(s, i);
    if j < s.len() && s[j] == '"' {
        lemma_parse_string_advances(s, j);
        match spec_parse_string(s, j) {
            Some(kp) => {
                lemma_skip_ws_bounds(s, kp.1);
                let q = skip_ws(s, kp.1);
                if q < s.len() && s[q] == ':' {
                    lemma_scalar_advances(s, q + 1);
                    match spec_scalar(s, q + 1) {
                        Some(vp) => {
                            lemma_skip_ws_bounds(s, vp.1);
                            let u = skip_ws(s, vp.1);
                            if u < s.len() && s[u] == ',' {
                                lemma_members_advances(s, u + 1);
                            }
                        },
                        None => {},
                    }
                }
            },
            None => {},
        }
    }
}

/// Parses object members from position `i` (after `{` or a comma).
fn parse_members_at(s: &[char], i: usize) -> (r: Option<
    (Vec<(String, FieldValue)>, usize),
>)
    requires
        i <= s@.len(),
    ensures
        match r {
            Some(p) => spec_members(s@, i as int) == Some((fields_view(p.0@), p.1 as int)) && i
                < p.1 <= s@.len(),
            None => spec_members(s@, i as int) is None,
        },
    decreases s@.len() - i,
{
    proof {
        lemma_members_advances(s@, i as int);
    }
    let j = ws_end(s, i);
    if !(j < s.len() && s[j] == '"') {
        return None;
    }
    let kp = parse_string_at(s, j);
    match kp {
        None => None,
        Some((key_chars, p)) => {
            let q = ws_end(s, p);
            if !(q < s.len() && s[q] == ':') {
                return None;
            }
            match parse_scalar_at(s, q + 1) {
                None => None,
                Some((value, vend)) => {
                    let u = ws_end(s, vend);
                    let key = crate::strutil::chars_to_string(&key_chars);
                    if u < s.len() && s[u] == ',' {
                        match parse_members_at(s, u + 1) {
                            None => None,
                            Some((mut rest, end)) => {
                                rest.insert(0, (key, value));
                                proof {
                                    assert(fields_view(rest@) =~= seq![
                                        (key_chars@, value@),
                                    ] + fields_view(rest@.drop_first()));
                                }
                                Some((rest, end))
                            },
                        }
                    } else if u < s.len() && s[u] == '}' {
                        let mut fields: Vec<(String, FieldValue)> = Vec::new();
                        fields.push((key, value));
                        proof {
                            assert(fields_view(fields@) =~= seq![(key_chars@, value@)]);
                        }
                        Some((fields, u + 1))
                    } else {
                        None
                    }
                },
            }
        },
    }
}

/// A full line: one JSON object and nothing but trailing whitespace.
pub open spec fn spec_object_fields(s: Seq<char>) -> Option<Seq<(Seq<char>, FieldView)>> {
    let i = skip_ws(s, 0);
    if i < s.len() && s[i] == '{' {
        let j = skip_ws(s, i + 1);
        if j < s.len() && s[j] == '}' {
            if skip_ws(s, j + 1) == s.len() {
                Some(Seq::<(Seq<char>, FieldView)>::empty())
            } else {
                None
            }
        } else {
            match spec_members(s, i + 1) {
                Some(r) => {
                    if skip_ws(s, r.1) == s.len() {
                        Some(r.0)
                    } else {
                        None
                    }
                },
                None => None,
            }
        }
    } else {
        None
    }
}

/// Parses a full line as a flat JSON object.
pub fn parse_object_line(s: &[char]) -> (r: Option<Vec<(String, FieldValue)>>)
    ensures
        match r {
            Some(fields) => spec_object_fields(s@) == Some(fields_view(fields@)),
            None => spec_object_fields(s@) is None,
        },
{
    let i = ws_end(s, 0);
    if !(i < s.len() && s[i] == '{') {
        return None;
    }
    let j = ws_end(s, i + 1);
    if j < s.len() && s[j] == '}' {
        if ws_end(s, j + 1) == s.len() {
            let fields: Vec<(String, FieldValue)> = Vec::new();
            proof {
                assert(fields_view(fields@) =~= Seq::<(Seq<char>, FieldView)>::empty());
            }
            Some(fields)
        } else {
            None
        }
    } else {
        match parse_members_at(s, i + 1) {
            None => None,
            Some((fields, end)) => {
                if ws_end(s, end) == s.len() {
                    Some(fields)
                } else {
                    None
                }
            },
        }
    }
}

/// The value of the first field named `k`, if any.
pub open spec fn field_lookup(fs: Seq<(Seq<char>, FieldView)>, k: Seq<char>) -> Option<FieldView>
    decreases fs.len(),
{
    if fs.len() == 0 {
        None
    } else if fs.first().0 == k {
        Some(fs.first().1)
    } else {
        field_lookup(fs.drop_first(), k)
    }
}

/// Finds the first field named `key`.
pub fn lookup_field<'a>(fields: &'a Vec<(String, FieldValue)>, key: &str) -> (r: Option<
    &'a FieldValue,
>)
    ensures
        match r {
            Some(v) => field_lookup(fields_view(fields@), key@) == Some(v@),
            None => field_lookup(fields_view(fields@), key@) is None,
        },
{
    let n = fields.len();
    let mut i: usize = 0;
    proof {
        assert(fields_view(fields@).skip(0) =~= fields_view(fields@));
    }
    while i < n
        invariant
            0 <= i <= n == fields@.len(),
            field_lookup(fields_view(fields@), key@) == field_lookup(
                fields_view(fields@).skip(i as int),
                key@,
            ),
        decreases n - i,
    {
        proof {
            assert(fields_view(fields@).skip(i as int).first() == (
                fields@[i as int].0@,
                fields@[i as int].1@,
            ));
        }
        if crate::strutil::str_eq_str(fields[i].0.as_str(), key) {
            return Some(&fields[i].1);
        }
        proof {
            assert(fields_view(fields@).skip(i as int).drop_first() =~= fields_view(
                fields@,
            ).skip(i + 1));
        }
        i = i + 1;
    }
    proof {
        assert(fields_view(fields@).skip(n as int).len() == 0);
    }
    None
}

} // verus!
