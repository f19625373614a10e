//! Small string helpers shared by the parsing and formatting code.
//!
//! The library works on `Vec<char>` internally (indexable, fully specified)
//! and converts to `String` at its boundary.

use vstd::prelude::*;

verus! {

use vstd::std_specs::iter::IteratorSpec;

/// Relies on `Iterator::collect` for `String`: the result holds exactly the
/// characters of `v`, in order.
#[verifier::external_body]
pub fn chars_to_string(v: &Vec<char>) -> (s: String)
    ensures
        s@ == v@,
{
    v.iter().collect()
}

/// Collects the characters of a string slice into an indexable vector.
pub fn str_to_chars(s: &str) -> (v: Vec<char>)
    ensures
        v@ == s@,
{
    broadcast use vstd::string::group_string_axioms;

    let mut it = s.chars();
    let mut v: Vec<char> = Vec::new();
    loop
        invariant
            v@ + it.remaining() == s@,
            it.obeys_prophetic_iter_laws(),
            it.decrease() is Some,
        ensures
            v@ == s@,
        decreases it.decrease()->0,
    {
        match it.next() {
            Some(c) => {
                v.push(c);
            },
            None => {
                proof {
                    assert(v@ =~= s@);
                }
                break;
            },
        }
    }
    v
}

/// Joins two strings.
pub fn str_append(a: &str, b: &str) -> (r: String)
    ensures
        r@ == a@ + b@,
{
    let mut r = String::new();
    r.append(a);
    r.append(b);
    proof {
        assert(r@ =~= a@ + b@);
    }
    r
}

/// The numeric value of a string of decimal digits.
pub open spec fn dec_val(s: Seq<char>) -> int
    decreases s.len(),
{
    if s.len() == 0 {
        0
    } else {
        dec_val(s.drop_last()) * 10 + (s.last() as u32 - '0' as u32)
    }
}

/// True when every character of `s` is a decimal digit.
pub open spec fn all_digits(s: Seq<char>) -> bool {
    forall|i: int| 0 <= i < s.len() ==> '0' <= #[trigger] s[i] && s[i] <= '9'
}

/// The number a non-empty all-digit string names, when it fits `bound`.
pub open spec fn spec_parse_uint(s: Seq<char>, bound: int) -> Option<int> {
    if s.len() > 0 && all_digits(s) && dec_val(s) <= bound {
        Some(dec_val(s))
    } else {
        None
    }
}

proof fn lemma_dec_val_monotone(s: Seq<char>, i: int)
    requires
        0 <= i <= s.len(),
        all_digits(s),
    ensures
        dec_val(s.take(i)) <= dec_val(s),
    decreases s.len() - i,
{
    if i < s.len() {
        lemma_dec_val_monotone(s, i + 1);
        assert(s.take(i + 1).drop_last() =~= s.take(i));
        assert(s.take(i + 1).last() == s[i]);
        assert(dec_val(s.take(i + 1)) == dec_val(s.take(i)) * 10 + (s[i] as u32 - '0' as u32));
        assert(dec_val(s.take(i)) >= 0) by {
            lemma_dec_val_nonneg(s.take(i));
        }
    } else {
        assert(s.take(i) =~= s);
    }
}

proof fn lemma_dec_val_nonneg(s: Seq<char>)
    ensures
        all_digits(s) ==> dec_val(s) >= 0,
    decreases s.len(),
{
    if s.len() > 0 {
        lemma_dec_val_nonneg(s.drop_last());
        assert(all_digits(s) ==> all_digits(s.drop_last()));
    }
}

/// Parses a non-empty all-digit string as a number up to `bound`
/// (at most `u32::MAX`); anything else is `None`.
pub fn parse_uint_up_to(s: &[char], bound: u32) -> (r: Option<u32>)
    ensures
        match r {
            Some(v) => spec_parse_uint(s@, bound as int) == Some(v as int),
            None => spec_parse_uint(s@, bound as int) is None,
        },
{
    let n = s.len();
    if n == 0 {
        return None;
    }
    let mut acc: u64 = 0;
    let mut i: usize = 0;
    while i < n
        invariant
            0 <= i <= n == s@.len(),
            all_digits(s@.take(i as int)),
            acc == dec_val(s@.take(i as int)),
            acc <= bound,
            bound <= u32::MAX,
        decreases n - i,
    {
        let c = s[i];
        if !('0' <= c && c <= '9') {
            proof {
                assert(!all_digits(s@));
            }
            return None;
        }
        let d: u64 = (c as u32 - '0' as u32) as u64;
        acc = acc * 10 + d;
        proof {
            assert(s@.take(i + 1).drop_last() =~= s@.take(i as int));
            assert(s@.take(i + 1).last() == s@[i as int]);
        }
        if acc > bound as u64 {
            proof {
                if all_digits(s@) {
                    lemma_dec_val_monotone(s@, i + 1);
                    assert(s@.take(s@.len() as int) =~= s@);
                }
            }
            return None;
        }
        i = i + 1;
    }
    proof {
        assert(s@.take(n as int) =~= s@);
    }
    Some(acc as u32)
}

/// The string without leading or trailing spaces, tabs, carriage
/// returns or newlines.
pub open spec fn spec_trim(s: Seq<char>) -> Seq<char> {
    rtrim(ltrim(s))
}

/// The string without its leading whitespace.
pub open spec fn ltrim(s: Seq<char>) -> Seq<char>
    decreases s.len(),
{
    if s.len() > 0 && is_trim_ws(s.first()) {
        ltrim(s.drop_first())
    } else {
        s
    }
}

/// The string without its trailing whitespace.
pub open spec fn rtrim(s: Seq<char>) -> Seq<char>
    decreases s.len(),
{
    if s.len() > 0 && is_trim_ws(s.last()) {
        rtrim(s.drop_last())
    } else {
        s
    }
}

/// The whitespace characters trimmed from the ends of tool output.
pub open spec fn is_trim_ws(c: char) -> bool {
    c == ' ' || c == '\t' || c == '\n' || c == '\n'
}

fn is_trim_ws_exec(c: char) -> (r: bool)
    ensures
        r == is_trim_ws(c),
{
    c == ' ' || c == '\t' || c == '\n' || c == '\n'
}

/// Removes leading and trailing whitespace.
pub fn trim_chars(s: &[char]) -> (r: Vec<char>)
    ensures
        r@ == spec_trim(s@),
{
    let mut lo: usize = 0;
    let n = s.len();
    proof {
        assert(s@.skip(0) =~= s@);
    }
    while lo < n && is_trim_ws_exec(s[lo])
        invariant
            0 <= lo <= n == s@.len(),
            ltrim(s@) == ltrim(s@.skip(lo as int)),
            forall|j: int| 0 <= j < lo ==> is_trim_ws(#[trigger] s@[j]),
        decreases n - lo,
    {
        proof {
            assert(s@.skip(lo as int).first() == s@[lo as int]);
            assert(s@.skip(lo as int).drop_first() =~= s@.skip(lo + 1));
        }
        lo = lo + 1;
    }
    proof {
        if lo < n {
            assert(s@.skip(lo as int).first() == s@[lo as int]);
        }
        assert(ltrim(s@) == s@.skip(lo as int));
    }
    let mut hi: usize = n;
    proof {
        assert(s@.skip(lo as int).take(n - lo) =~= s@.skip(lo as int));
    }
    while hi > lo && is_trim_ws_exec(s[hi - 1])
        invariant
            lo <= hi <= n == s@.len(),
            ltrim(s@) == s@.skip(lo as int),
            rtrim(s@.skip(lo as int)) == rtrim(s@.skip(lo as int).take(hi - lo)),
        decreases hi,
    {
        proof {
            let cur = s@.skip(lo as int).take(hi - lo);
            assert(cur.last() == s@[hi - 1]);
            assert(cur.drop_last() =~= s@.skip(lo as int).take(hi - 1 - lo));
        }
        hi = hi - 1;
    }
    proof {
        let cur = s@.skip(lo as int).take(hi - lo);
        if hi > lo {
            assert(cur.last() == s@[hi - 1]);
        }
        assert(rtrim(s@.skip(lo as int)) == cur);
    }
    let mut out: Vec<char> = Vec::new();
    let mut k = lo;
    while k < hi
        invariant
            lo <= k <= hi <= n == s@.len(),
            out@ =~= s@.skip(lo as int).take(k - lo),
        decreases hi - k,
    {
        out.push(s[k]);
        proof {
            assert(out@ =~= s@.skip(lo as int).take(k + 1 - lo));
        }
        k = k + 1;
    }
    out
}

/// True exactly when the two strings hold the same characters.
pub fn str_eq_str(a: &str, b: &str) -> (r: bool)
    ensures
        r == (a@ == b@),
{
    let n = a.unicode_len();
    if n != b.unicode_len() {
        proof {
            assert(a@.len() != b@.len());
        }
        return false;
    }
    let mut i: usize = 0;
    while i < n
        invariant
            0 <= i <= n,
            n == a@.len() == b@.len(),
            forall|j: int| 0 <= j < i ==> a@[j] == b@[j],
        decreases n - i,
    {
        if a.get_char(i) != b.get_char(i) {
            return false;
        }
        i = i + 1;
    }
    proof {
        assert(a@ =~= b@);
    }
    true
}

/// True exactly when the characters of `v` spell the string `s`.
pub fn chars_eq_str(v: &[char], s: &str) -> (r: bool)
    ensures
        r == (v@ == s@),
{
    let n = s.unicode_len();
    if v.len() != n {
        proof {
            assert(v@.len() != s@.len());
        }
        return false;
    }
    let mut i: usize = 0;
    while i < n
        invariant
            0 <= i <= n,
            n == v@.len() == s@.len(),
            forall|j: int| 0 <= j < i ==> v@[j] == s@[j],
        decreases n - i,
    {
        if v[i] != s.get_char(i) {
            return false;
        }
        i = i + 1;
    }
    proof {
        assert(v@ =~= s@);
    }
    true
}

/// True when the characters of `n` stand in `s` at position `i`.
pub open spec fn match_at(s: Seq<char>, n: Seq<char>, i: int) -> bool {
    0 <= i && i + n.len() <= s.len() && s.subrange(i, i + n.len()) == n
}

/// The first position at or after `i` where `n` stands in `s`.
pub open spec fn find_from(s: Seq<char>, n: Seq<char>, i: int) -> Option<int>
    decreases s.len() - i when 0 <= i <= s.len()
{
    if n.len() == 0 {
        Some(i)
    } else if i + n.len() > s.len() {
        None
    } else if match_at(s, n, i) {
        Some(i)
    } else {
        find_from(s, n, i + 1)
    }
}

/// True when `n` stands somewhere in `s`.
pub open spec fn spec_contains(s: Seq<char>, n: Seq<char>) -> bool {
    find_from(s, n, 0) is Some
}

pub proof fn lemma_find_from_bounds(s: Seq<char>, n: Seq<char>, i: int)
    requires
        0 <= i <= s.len(),
    ensures
        match find_from(s, n, i) {
            Some(e) => i <= e && e + n.len() <= s.len() && match_at(s, n, e),
            None => true,
        },
    decreases s.len() - i,
{
    if n.len() == 0 {
        assert(s.subrange(i, i) =~= n);
    } else if i + n.len() > s.len() {
    } else if match_at(s, n, i) {
    } else {
        lemma_find_from_bounds(s, n, i + 1);
    }
}

/// Tests whether `n` stands in `s` at position `i`.
pub fn match_at_exec(s: &[char], n: &str, i: usize) -> (r: bool)
    requires
        i <= s@.len(),
    ensures
        r == match_at(s@, n@, i as int),
{
    let m = n.unicode_len();
    let len = s.len();
    if len - i < m {
        proof {
            assert(!match_at(s@, n@, i as int));
        }
        return false;
    }
    let mut j: usize = 0;
    while j < m
        invariant
            0 <= j <= m == n@.len(),
            i + m <= len == s@.len(),
            forall|x: int| 0 <= x < j ==> s@[i + x] == n@[x],
        decreases m - j,
    {
        if s[i + j] != n.get_char(j) {
            proof {
                assert(s@.subrange(i as int, i + m)[j as int] != n@[j as int]);
            }
            return false;
        }
        j = j + 1;
    }
    proof {
        assert(s@.subrange(i as int, i + m) =~= n@);
    }
    true
}

/// Finds the first occurrence of `n` in `s` at or after `i`.
pub fn find_str_from(s: &[char], n: &str, i: usize) -> (r: Option<usize>)
    requires
        i <= s@.len(),
    ensures
        match r {
            Some(e) => find_from(s@, n@, i as int) == Some(e as int) && i <= e && e + n@.len()
                <= s@.len(),
            None => find_from(s@, n@, i as int) is None,
        },
{
    proof {
        lemma_find_from_bounds(s@, n@, i as int);
    }
    let m = n.unicode_len();
    let len = s.len();
    if m == 0 {
        proof {
            assert(s@.subrange(i as int, i as int) =~= n@);
        }
        return Some(i);
    }
    if m > len || i > len - m {
        return None;
    }
    let mut j = i;
    while j <= len - m
        invariant
            i <= j <= len - m + 1,
            0 < m == n@.len(),
            m <= len == s@.len(),
            find_from(s@, n@, i as int) == find_from(s@, n@, j as int),
        decreases len - m - j + 1,
    {
        if match_at_exec(s, n, j) {
            return Some(j);
        }
        j = j + 1;
    }
    None
}

/// Tests whether `n` stands somewhere in `s`.
pub fn contains_str(s: &[char], n: &str) -> (r: bool)
    ensures
        r == spec_contains(s@, n@),
{
    match find_str_from(s, n, 0) {
        Some(_) => true,
        None => false,
    }
}

/// The position of the last occurrence of `c` in `s`, if any.
pub open spec fn rfind_char(s: Seq<char>, c: char) -> Option<int>
    decreases s.len(),
{
    if s.len() == 0 {
        None
    } else if s.last() == c {
        Some(s.len() - 1)
    } else {
        rfind_char(s.drop_last(), c)
    }
}

/// Finds the last occurrence of `c` in `s`.
pub fn rfind_char_exec(s: &[char], c: char) -> (r: Option<usize>)
    ensures
        match r {
            Some(e) => rfind_char(s@, c) == Some(e as int) && e < s@.len(),
            None => rfind_char(s@, c) is None,
        },
{
    let mut j = s.len();
    proof {
        assert(s@.take(s@.len() as int) =~= s@);
    }
    while j > 0
        invariant
            0 <= j <= s@.len(),
            rfind_char(s@, c) == rfind_char(s@.take(j as int), c),
        decreases j,
    {
        proof {
            assert(s@.take(j as int).last() == s@[j - 1]);
            assert(s@.take(j as int).drop_last() =~= s@.take(j - 1));
        }
        if s[j - 1] == c {
            return Some(j - 1);
        }
        j = j - 1;
    }
    None
}

} // verus!
