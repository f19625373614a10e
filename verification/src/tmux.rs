//! Terminal-multiplexer pane listings, computation side.
//!
//! The caller runs the multiplexer commands; this module validates pane
//! identifiers and parses the formatted listings the commands print.

use vstd::prelude::*;

use crate::drain::{split_lines, strip_cr};
use crate::strutil::{
    all_digits, chars_eq_str, chars_to_string, spec_parse_uint, str_append, str_to_chars,
    trim_chars,
};

verus! {

/// One pane of the terminal multiplexer.
pub struct TmuxPane {
    pub session_name: String,
    pub window_index: u32,
    pub window_name: String,
    pub pane_index: u32,
    pub pane_id: String,
    pub is_active: bool,
}

/// Ghost mirror of [`TmuxPane`].
pub struct PaneView {
    pub session_name: Seq<char>,
    pub window_index: u32,
    pub window_name: Seq<char>,
    pub pane_index: u32,
    pub pane_id: Seq<char>,
    pub is_active: bool,
}

impl View for TmuxPane {
    type V = PaneView;

    open spec fn view(&self) -> PaneView {
        PaneView {
            session_name: self.session_name@,
            window_index: self.window_index,
            window_name: self.window_name@,
            pane_index: self.pane_index,
            pane_id: self.pane_id@,
            is_active: self.is_active,
        }
    }
}

/// The size of one pane, in character cells.
#[derive(Clone, Copy, PartialEq, Eq, Structural, Debug)]
pub struct TmuxPaneSize {
    pub width: u32,
    pub height: u32,
}

// ---------------------------------------------------------------------------
// Splitting on a separator
// ---------------------------------------------------------------------------

/// The first position at or after `i` that holds `sep`, or the end.
pub open spec fn first_sep(s: Seq<char>, sep: char, i: int) -> int
    decreases s.len() - i when 0 <= i <= s.len()
{
    if i < s.len() && s[i] != sep {
        first_sep(s, sep, i + 1)
    } else {
        i
    }
}

pub proof fn lemma_first_sep_bounds(s: Seq<char>, sep: char, i: int)
    requires
        0 <= i <= s.len(),
    ensures
        i <= first_sep(s, sep, i) <= s.len(),
    decreases s.len() - i,
{
    if i < s.len() && s[i] != sep {
        lemma_first_sep_bounds(s, sep, i + 1);
    }
}

/// The fields of `s` from `i` on, split at `sep`; separators are
/// consumed, empty fields kept.
pub open spec fn split_sep_from(s: Seq<char>, sep: char, i: int) -> Seq<Seq<char>>
    decreases s.len() - i when 0 <= i <= s.len()
{
    let k = first_sep(s, sep, i);
    proof {
        lemma_first_sep_bounds(s, sep, i);
    }
    if k >= s.len() {
        seq![s.subrange(i, s.len() as int)]
    } else {
        seq![s.subrange(i, k)] + split_sep_from(s, sep, k + 1)
    }
}

/// The fields of `s`, split at `sep`.
pub open spec fn split_sep(s: Seq<char>, sep: char) -> Seq<Seq<char>> {
    split_sep_from(s, sep, 0)
}

/// The views of a vector of field vectors.
pub open spec fn parts_view(v: Seq<Vec<char>>) -> Seq<Seq<char>> {
    v.map_values(|p: Vec<char>| p@)
}

fn sep_end(s: &[char], sep: char, i: usize) -> (k: usize)
    requires
        i <= s@.len(),
    ensures
        k == first_sep(s@, sep, i as int),
        i <= k <= s@.len(),
{
    proof {
        lemma_first_sep_bounds(s@, sep, i as int);
    }
    let n = s.len();
    let mut k = i;
    while k < n && s[k] != sep
        invariant
            i <= k <= n == s@.len(),
            first_sep(s@, sep, i as int) == first_sep(s@, sep, k as int),
        decreases n - k,
    {
        k = k + 1;
    }
    k
}

/// Splits a string at a separator character.
pub fn split_by(s: &[char], sep: char) -> (r: Vec<Vec<char>>)
    ensures
        parts_view(r@) == split_sep(s@, sep),
{
    let ghost full = s@;
    let ghost target = split_sep(full, sep);
    let n = s.len();
    let mut r: Vec<Vec<char>> = Vec::new();
    let mut p: usize = 0;
    let mut done = false;
    proof {
        assert(parts_view(r@) =~= Seq::<Seq<char>>::empty());
        assert(Seq::<Seq<char>>::empty() + split_sep_from(full, sep, 0) =~= split_sep_from(
            full,
            sep,
            0,
        ));
    }
    while !done
        invariant
            0 <= p <= n == full.len(),
            full == s@,
            target == split_sep(full, sep),
            !done ==> target == parts_view(r@) + split_sep_from(full, sep, p as int),
            done ==> target == parts_view(r@),
        decreases (if done { 0int } else { 1int }), n - p,
    {
        let ghost r0 = parts_view(r@);
        let k = sep_end(s, sep, p);
        let part = crate::jsonl::copy_range(s, p, k);
        r.push(part);
        proof {
            assert(parts_view(r@) =~= r0.push(full.subrange(p as int, k as int)));
        }
        if k < n {
            proof {
                let rest = split_sep_from(full, sep, p as int);
                assert(rest == seq![full.subrange(p as int, k as int)] + split_sep_from(
                    full,
                    sep,
                    k + 1,
                ));
                assert(parts_view(r@) + split_sep_from(full, sep, k + 1) =~= r0 + rest);
            }
            p = k + 1;
        } else {
            proof {
                let rest = split_sep_from(full, sep, p as int);
                assert(rest == seq![full.subrange(p as int, n as int)]);
                assert(parts_view(r@) =~= r0 + rest);
            }
            done = true;
        }
    }
    r
}

// ---------------------------------------------------------------------------
// Pane identifiers
// ---------------------------------------------------------------------------

/// A well-formed pane identifier: a percent sign and at least one
/// decimal digit.
pub open spec fn pane_id_ok(s: Seq<char>) -> bool {
    s.len() >= 2 && s[0] == '%' && all_digits(s.skip(1))
}

/// Checks a pane identifier before it is handed to the multiplexer.
pub fn validate_pane_id(pane_id: &str) -> (r: Result<(), String>)
    ensures
        r is Ok <==> pane_id_ok(pane_id@),
        r matches Err(e) ==> e@ == "Invalid pane ID format: "@ + pane_id@,
{
    let chars = str_to_chars(pane_id);
    let n = chars.len();
    let mut ok = n >= 2 && chars[0] == '%';
    if ok {
        let mut i: usize = 1;
        while i < n && ok
            invariant
                1 <= i <= n == chars@.len(),
                chars@ == pane_id@,
                ok ==> forall|j: int| 1 <= j < i ==> '0' <= #[trigger] chars@[j] && chars@[j]
                    <= '9',
                !ok ==> i < n && !('0' <= chars@[i as int] && chars@[i as int] <= '9'),
            decreases n - i + (if ok { 1int } else { 0int }),
        {
            let c = chars[i];
            if !('0' <= c && c <= '9') {
                ok = false;
            } else {
                i = i + 1;
            }
        }
        proof {
            if ok {
                assert forall|j: int| 0 <= j < pane_id@.skip(1).len() implies '0'
                    <= #[trigger] pane_id@.skip(1)[j] && pane_id@.skip(1)[j] <= '9' by {
                    assert(pane_id@.skip(1)[j] == chars@[j + 1]);
                }
            } else {
                assert(pane_id@.skip(1)[i - 1] == chars@[i as int]);
                assert(!all_digits(pane_id@.skip(1)));
            }
        }
    }
    if ok {
        Ok(())
    } else {
        Err(str_append("Invalid pane ID format: ", pane_id))
    }
}

// ---------------------------------------------------------------------------
// Pane listings
// ---------------------------------------------------------------------------

/// The number an all-digit field names, or zero for anything else.
pub open spec fn uint_or_zero(s: Seq<char>) -> u32 {
    match spec_parse_uint(s, u32::MAX as int) {
        Some(v) => v as u32,
        None => 0,
    }
}

fn parse_uint_or_zero(s: &[char]) -> (r: u32)
    ensures
        r == uint_or_zero(s@),
{
    match crate::strutil::parse_uint_up_to(s, u32::MAX) {
        Some(v) => v,
        None => 0,
    }
}

/// The pane one listing line describes: six fields separated by pipes,
/// in the order the listing format names them; lines with fewer fields
/// describe nothing.
pub open spec fn spec_pane_of_line(l: Seq<char>) -> Option<PaneView> {
    let parts = split_sep(strip_cr(l), '|');
    if parts.len() >= 6 {
        Some(
            PaneView {
                session_name: parts[0],
                window_index: uint_or_zero(parts[1]),
                window_name: parts[2],
                pane_index: uint_or_zero(parts[3]),
                pane_id: parts[4],
                is_active: parts[5] == "1"@,
            },
        )
    } else {
        None
    }
}

/// The panes a whole listing describes, in order.
pub open spec fn spec_panes_of_lines(lines: Seq<Seq<char>>) -> Seq<PaneView>
    decreases lines.len(),
{
    if lines.len() == 0 {
        Seq::<PaneView>::empty()
    } else {
        match spec_pane_of_line(lines.first()) {
            Some(p) => seq![p] + spec_panes_of_lines(lines.drop_first()),
            None => spec_panes_of_lines(lines.drop_first()),
        }
    }
}

/// The views of a vector of panes.
pub open spec fn panes_view(v: Seq<TmuxPane>) -> Seq<PaneView> {
    v.map_values(|p: TmuxPane| p@)
}

fn pane_of_line(line: &[char]) -> (r: Option<TmuxPane>)
    ensures
        match r {
            Some(p) => spec_pane_of_line(line@) == Some(p@),
            None => spec_pane_of_line(line@) is None,
        },
{
    let mut stripped = crate::jsonl::copy_range(line, 0, line.len());
    let len = stripped.len();
    if len > 0 && stripped[len - 1] == '\r' {
        stripped.pop();
    }
    proof {
        assert(stripped@ == strip_cr(line@));
    }
    let parts = split_by(stripped.as_slice(), '|');
    if parts.len() >= 6 {
        let pane = TmuxPane {
            session_name: chars_to_string(&parts[0]),
            window_index: parse_uint_or_zero(parts[1].as_slice()),
            window_name: chars_to_string(&parts[2]),
            pane_index: parse_uint_or_zero(parts[3].as_slice()),
            pane_id: chars_to_string(&parts[4]),
            is_active: chars_eq_str(parts[5].as_slice(), "1"),
        };
        proof {
            assert(parts_view(parts@)[0] == parts@[0]@);
            assert(parts_view(parts@)[1] == parts@[1]@);
            assert(parts_view(parts@)[2] == parts@[2]@);
            assert(parts_view(parts@)[3] == parts@[3]@);
            assert(parts_view(parts@)[4] == parts@[4]@);
            assert(parts_view(parts@)[5] == parts@[5]@);
        }
        Some(pane)
    } else {
        None
    }
}

/// Parses a pane listing, one pane per well-formed line.
pub fn list_panes(output: &str) -> (r: Vec<TmuxPane>)
    ensures
        panes_view(r@) == spec_panes_of_lines(split_lines(output@)),
{
    let chars = str_to_chars(output);
    let ghost full = chars@;
    let ghost target = spec_panes_of_lines(split_lines(full));
    let n = chars.len();
    let mut r: Vec<TmuxPane> = Vec::new();
    let mut p: usize = 0;
    let mut done = false;
    proof {
        assert(panes_view(r@) =~= Seq::<PaneView>::empty());
        assert(Seq::<PaneView>::empty() + spec_panes_of_lines(
            crate::drain::split_from(full, 0),
        ) =~= spec_panes_of_lines(crate::drain::split_from(full, 0)));
    }
    while !done
        invariant
            0 <= p <= n == full.len(),
            full == chars@,
            target == spec_panes_of_lines(split_lines(full)),
            !done ==> target == panes_view(r@) + spec_panes_of_lines(
                crate::drain::split_from(full, p as int),
            ),
            done ==> target == panes_view(r@),
        decreases (if done { 0int } else { 1int }), n - p,
    {
        let ghost r0 = panes_view(r@);
        let k = crate::drain::nl_end_pub(chars.as_slice(), p);
        let line = crate::jsonl::copy_range(chars.as_slice(), p, k);
        let ghost lines = crate::drain::split_from(full, p as int);
        match pane_of_line(line.as_slice()) {
            Some(pane) => {
                r.push(pane);
                proof {
                    assert(panes_view(r@) =~= r0.push(pane@));
                }
            },
            None => {},
        }
        if k < n {
            proof {
                assert(lines == seq![full.subrange(p as int, k as int)] + crate::drain::split_from(
                    full,
                    k + 1,
                ));
                assert(lines.first() == full.subrange(p as int, k as int));
                assert(lines.drop_first() =~= crate::drain::split_from(full, k + 1));
                assert(target =~= panes_view(r@) + spec_panes_of_lines(
                    crate::drain::split_from(full, k + 1),
                ));
            }
            p = k + 1;
        } else {
            proof {
                assert(lines == seq![full.subrange(p as int, n as int)]);
                assert(lines.first() == full.subrange(p as int, k as int));
                assert(lines.drop_first() =~= Seq::<Seq<char>>::empty());
                assert(spec_panes_of_lines(lines.drop_first()) =~= Seq::<PaneView>::empty());
                assert(target =~= panes_view(r@));
            }
            done = true;
        }
    }
    r
}

// ---------------------------------------------------------------------------
// Pane size
// ---------------------------------------------------------------------------

/// The pane size a `WxH` report names, or the error shown for a
/// malformed report.
pub open spec fn spec_pane_size(s: Seq<char>) -> Result<TmuxPaneSize, Seq<char>> {
    let t = crate::strutil::spec_trim(s);
    let parts = split_sep(t, 'x');
    if parts.len() != 2 {
        Err("Invalid pane size format: "@ + t)
    } else {
        match spec_parse_uint(parts[0], u32::MAX as int) {
            None => Err("Invalid width: "@ + parts[0]),
            Some(w) => match spec_parse_uint(parts[1], u32::MAX as int) {
                None => Err("Invalid height: "@ + parts[1]),
                Some(h) => Ok(TmuxPaneSize { width: w as u32, height: h as u32 }),
            },
        }
    }
}

/// Parses a `WxH` pane-size report.
pub fn get_pane_size(output: &str) -> (r: Result<TmuxPaneSize, String>)
    ensures
        match r {
            Ok(size) => spec_pane_size(output@) == Ok::<TmuxPaneSize, Seq<char>>(size),
            Err(e) => spec_pane_size(output@) == Err::<TmuxPaneSize, Seq<char>>(e@),
        },
{
    let chars = str_to_chars(output);
    let trimmed = trim_chars(chars.as_slice());
    let parts = split_by(trimmed.as_slice(), 'x');
    if parts.len() != 2 {
        let mut msg = String::from_str("Invalid pane size format: ");
        msg.append(chars_to_string(&trimmed).as_str());
        return Err(msg);
    }
    proof {
        assert(parts_view(parts@)[0] == parts@[0]@);
        assert(parts_view(parts@)[1] == parts@[1]@);
    }
    let w = match crate::strutil::parse_uint_up_to(parts[0].as_slice(), u32::MAX) {
        Some(w) => w,
        None => {
            let mut msg = String::from_str("Invalid width: ");
            msg.append(chars_to_string(&parts[0]).as_str());
            return Err(msg);
        },
    };
    let h = match crate::strutil::parse_uint_up_to(parts[1].as_slice(), u32::MAX) {
        Some(h) => h,
        None => {
            let mut msg = String::from_str("Invalid height: ");
            msg.append(chars_to_string(&parts[1]).as_str());
            return Err(msg);
        },
    };
    Ok(TmuxPaneSize { width: w, height: h })
}

} // verus!
