//! The diff content resolver, computation side.
//!
//! The caller runs the version-control diff command and the viewer
//! process; this module holds what can be decided without I/O: the
//! command arguments for each diff kind, the validation of a base branch
//! name, the assembly and emptiness check of the produced content, the
//! content hash used for change detection, and the stable window label
//! derived from a request.

use std::collections::hash_map::DefaultHasher;
use std::hash::Hasher;

use vstd::prelude::*;

use crate::strutil::{chars_to_string, str_eq_str, str_to_chars, trim_chars};

verus! {

use vstd::std_specs::hash::DefaultHasherAdditionalSpecFns;

/// The diff kinds the monitor can show.
#[derive(Clone, Copy, PartialEq, Eq, Structural, Debug)]
pub enum DiffType {
    /// Working directory against the index, plus untracked files.
    Unstaged,
    /// Index against `HEAD`.
    Staged,
    /// `HEAD~1` against `HEAD`.
    LatestCommit,
    /// A base branch against `HEAD`.
    Branch,
}

/// The diff arguments for a kind: fixed per kind, except that a branch
/// diff takes its base branch (default `main`), rejected when it starts
/// with a dash — that would be read as an option by the diff tool.
pub open spec fn spec_git_diff_args(t: DiffType, branch: Option<Seq<char>>) -> Result<
    Seq<Seq<char>>,
    Seq<char>,
> {
    match t {
        DiffType::Unstaged => Ok(seq!["diff"@]),
        DiffType::Staged => Ok(seq!["diff"@, "--cached"@]),
        DiffType::LatestCommit => Ok(seq!["diff"@, "HEAD~1"@, "HEAD"@]),
        DiffType::Branch => {
            let base = match branch {
                Some(b) => b,
                None => "main"@,
            };
            if base.len() > 0 && base[0] == '-' {
                Err("Invalid branch name: "@ + base)
            } else {
                Ok(seq!["diff"@, base, "HEAD"@])
            }
        },
    }
}

/// The views of a vector of argument strings.
pub open spec fn args_view(v: Seq<String>) -> Seq<Seq<char>> {
    v.map_values(|s: String| s@)
}

impl DiffType {
    /// Builds the version-control arguments for this diff kind,
    /// validating the base branch name against option injection.
    pub fn git_diff_args(self, branch: Option<&str>) -> (r: Result<Vec<String>, String>)
        ensures
            match r {
                Ok(v) => spec_git_diff_args(
                    self,
                    match branch {
                        Some(b) => Some(b@),
                        None => None,
                    },
                ) == Ok::<Seq<Seq<char>>, Seq<char>>(args_view(v@)),
                Err(e) => spec_git_diff_args(
                    self,
                    match branch {
                        Some(b) => Some(b@),
                        None => None,
                    },
                ) == Err::<Seq<Seq<char>>, Seq<char>>(e@),
            },
    {
        match self {
            DiffType::Unstaged => {
                let mut v: Vec<String> = Vec::new();
                v.push(String::from_str("diff"));
                proof {
                    assert(args_view(v@) =~= seq!["diff"@]);
                }
                Ok(v)
            },
            DiffType::Staged => {
                let mut v: Vec<String> = Vec::new();
                v.push(String::from_str("diff"));
                v.push(String::from_str("--cached"));
                proof {
                    assert(args_view(v@) =~= seq!["diff"@, "--cached"@]);
                }
                Ok(v)
            },
            DiffType::LatestCommit => {
                let mut v: Vec<String> = Vec::new();
                v.push(String::from_str("diff"));
                v.push(String::from_str("HEAD~1"));
                v.push(String::from_str("HEAD"));
                proof {
                    assert(args_view(v@) =~= seq!["diff"@, "HEAD~1"@, "HEAD"@]);
                }
                Ok(v)
            },
            DiffType::Branch => {
                let base: &str = match branch {
                    Some(b) => b,
                    None => "main",
                };
                if base.unicode_len() > 0 && base.get_char(0) == '-' {
                    let mut msg = String::from_str("Invalid branch name: ");
                    msg.append(base);
                    Err(msg)
                } else {
                    let mut v: Vec<String> = Vec::new();
                    v.push(String::from_str("diff"));
                    v.push(String::from_str(base));
                    v.push(String::from_str("HEAD"));
                    proof {
                        assert(args_view(v@) =~= seq!["diff"@, base@, "HEAD"@]);
                    }
                    Ok(v)
                }
            },
        }
    }
}

/// The diff kind named by a request string, if any.
pub open spec fn spec_diff_type_of(s: Seq<char>) -> Option<DiffType> {
    if s == "unstaged"@ {
        Some(DiffType::Unstaged)
    } else if s == "staged"@ {
        Some(DiffType::Staged)
    } else if s == "commit"@ {
        Some(DiffType::LatestCommit)
    } else if s == "branch"@ {
        Some(DiffType::Branch)
    } else {
        None
    }
}

/// Maps a request string to its diff kind; `None` for an unknown one.
pub fn diff_type_from_str(s: &str) -> (r: Option<DiffType>)
    ensures
        r == spec_diff_type_of(s@),
{
    if str_eq_str(s, "unstaged") {
        Some(DiffType::Unstaged)
    } else if str_eq_str(s, "staged") {
        Some(DiffType::Staged)
    } else if str_eq_str(s, "commit") {
        Some(DiffType::LatestCommit)
    } else if str_eq_str(s, "branch") {
        Some(DiffType::Branch)
    } else {
        None
    }
}

/// Joins the main diff output with the synthetic untracked-file diffs
/// (taken along only for the unstaged kind), and rejects empty content:
/// an empty diff means "nothing to show", not a page to serve.
pub fn finalize_diff_content(main: Vec<u8>, untracked: Vec<u8>, diff_type: DiffType) -> (r: Result<
    Vec<u8>,
    String,
>)
    ensures
        ({
            let joined = if diff_type == DiffType::Unstaged {
                main@ + untracked@
            } else {
                main@
            };
            match r {
                Ok(content) => joined.len() > 0 && content@ == joined,
                Err(e) => joined.len() == 0 && e@ == "No diff content to display"@,
            }
        }),
{
    let mut content = main;
    if diff_type == DiffType::Unstaged {
        let mut extra = untracked;
        content.append(&mut extra);
    }
    if content.len() == 0 {
        Err(String::from_str("No diff content to display"))
    } else {
        Ok(content)
    }
}

/// The change-detection fingerprint of diff content: the digest of the
/// byte sequence under the standard library's default hasher.  Two equal
/// contents always hash alike; unequal contents may collide, which is
/// accepted for a display-reuse decision.
pub open spec fn spec_diff_hash(content: Seq<u8>) -> u64 {
    DefaultHasher::spec_finish(seq![content])
}

/// Computes the change-detection fingerprint of diff content.
pub fn calculate_diff_hash(content: &[u8]) -> (h: u64)
    ensures
        h == spec_diff_hash(content@),
{
    let mut hasher = DefaultHasher::new();
    hasher.write(content);
    proof {
        assert(hasher@ =~= seq![content@]);
    }
    hasher.finish()
}

/// A lowercase hex digit.
pub open spec fn spec_hex_digit(d: int) -> char {
    if d == 0 {
        '0'
    } else if d == 1 {
        '1'
    } else if d == 2 {
        '2'
    } else if d == 3 {
        '3'
    } else if d == 4 {
        '4'
    } else if d == 5 {
        '5'
    } else if d == 6 {
        '6'
    } else if d == 7 {
        '7'
    } else if d == 8 {
        '8'
    } else if d == 9 {
        '9'
    } else if d == 10 {
        'a'
    } else if d == 11 {
        'b'
    } else if d == 12 {
        'c'
    } else if d == 13 {
        'd'
    } else if d == 14 {
        'e'
    } else {
        'f'
    }
}

/// The lowercase hex spelling of a value, no leading zeroes.
pub open spec fn spec_hex(v: u64) -> Seq<char>
    decreases v,
{
    if v < 16 {
        seq![spec_hex_digit(v as int)]
    } else {
        spec_hex((v / 16) as u64).push(spec_hex_digit((v % 16) as int))
    }
}

fn hex_digit(d: u64) -> (c: char)
    requires
        d < 16,
    ensures
        c == spec_hex_digit(d as int),
{
    if d == 0 {
        '0'
    } else if d == 1 {
        '1'
    } else if d == 2 {
        '2'
    } else if d == 3 {
        '3'
    } else if d == 4 {
        '4'
    } else if d == 5 {
        '5'
    } else if d == 6 {
        '6'
    } else if d == 7 {
        '7'
    } else if d == 8 {
        '8'
    } else if d == 9 {
        '9'
    } else if d == 10 {
        'a'
    } else if d == 11 {
        'b'
    } else if d == 12 {
        'c'
    } else if d == 13 {
        'd'
    } else if d == 14 {
        'e'
    } else {
        'f'
    }
}

fn u64_to_hex(v: u64) -> (s: Vec<char>)
    ensures
        s@ == spec_hex(v),
    decreases v,
{
    if v < 16 {
        let mut s: Vec<char> = Vec::new();
        s.push(hex_digit(v));
        proof {
            assert(s@ =~= seq![spec_hex_digit(v as int)]);
        }
        s
    } else {
        let mut s = u64_to_hex(v / 16);
        s.push(hex_digit(v % 16));
        s
    }
}

/// The stable window label of a diff request: deterministic in the
/// project directory and the diff kind string, so repeated requests for
/// the same diff share one window and one server process.
pub open spec fn spec_window_label(dir: Seq<char>, ty: Seq<char>) -> Seq<char> {
    "difit-"@ + spec_hex(
        DefaultHasher::spec_finish(
            seq![vstd::utf8::encode_utf8(dir), vstd::utf8::encode_utf8(ty)],
        ),
    )
}

/// Derives the stable window label of a diff request.
pub fn generate_diff_window_label(project_dir: &str, diff_type: &str) -> (label: String)
    ensures
        label@ == spec_window_label(project_dir@, diff_type@),
{
    let mut hasher = DefaultHasher::new();
    hasher.write(project_dir.as_bytes());
    hasher.write(diff_type.as_bytes());
    proof {
        assert(hasher@ =~= seq![
            vstd::utf8::encode_utf8(project_dir@),
            vstd::utf8::encode_utf8(diff_type@),
        ]);
    }
    let h = hasher.finish();
    let mut out = str_to_chars("difit-");
    let mut digits = u64_to_hex(h);
    out.append(&mut digits);
    proof {
        assert(out@ == "difit-"@ + spec_hex(h));
    }
    chars_to_string(&out)
}

/// What a character becomes in HTML text: the four markup characters
/// turn into entities, everything else stands as itself.
pub open spec fn spec_escape_char(c: char) -> Seq<char> {
    if c == '&' {
        "&amp;"@
    } else if c == '<' {
        "&lt;"@
    } else if c == '>' {
        "&gt;"@
    } else if c == '"' {
        "&quot;"@
    } else {
        seq![c]
    }
}

/// The HTML escaping of a string, character by character.
pub open spec fn spec_html_escape(s: Seq<char>) -> Seq<char>
    decreases s.len(),
{
    if s.len() == 0 {
        Seq::<char>::empty()
    } else {
        spec_html_escape(s.drop_last()) + spec_escape_char(s.last())
    }
}

/// Escapes a string for inclusion in HTML text.
pub fn html_escape(s: &str) -> (r: String)
    ensures
        r@ == spec_html_escape(s@),
{
    let chars = str_to_chars(s);
    let n = chars.len();
    let mut out: Vec<char> = Vec::new();
    let mut i: usize = 0;
    while i < n
        invariant
            0 <= i <= n == chars@.len(),
            chars@ == s@,
            out@ == spec_html_escape(s@.take(i as int)),
        decreases n - i,
    {
        let c = chars[i];
        if c == '&' {
            let mut e = str_to_chars("&amp;");
            out.append(&mut e);
        } else if c == '<' {
            let mut e = str_to_chars("&lt;");
            out.append(&mut e);
        } else if c == '>' {
            let mut e = str_to_chars("&gt;");
            out.append(&mut e);
        } else if c == '"' {
            let mut e = str_to_chars("&quot;");
            out.append(&mut e);
        } else {
            out.push(c);
            proof {
                assert(out@ =~= spec_html_escape(s@.take(i as int)) + seq![c]);
            }
        }
        proof {
            assert(s@.take(i + 1).drop_last() =~= s@.take(i as int));
            assert(s@.take(i + 1).last() == s@[i as int]);
        }
        i = i + 1;
    }
    proof {
        assert(s@.take(n as int) =~= s@);
    }
    chars_to_string(&out)
}

/// The port a viewer-process diagnostic line announces: a line holding
/// the started-marker and a local URL yields the port spelled after the
/// host, trimmed; anything else yields nothing, and the caller falls
/// back to the port it requested.
pub open spec fn spec_ready_port(line: Seq<char>) -> Option<u16> {
    if !crate::strutil::spec_contains(line, "difit server started on"@) {
        None
    } else {
        match crate::strutil::find_from(line, "http://"@, 0) {
            None => None,
            Some(u) => {
                let p = "http://localhost:"@;
                if crate::strutil::match_at(line, p, u) {
                    let ps = crate::strutil::spec_trim(line.skip(u + p.len()));
                    match crate::strutil::spec_parse_uint(ps, 0xFFFF) {
                        Some(v) => Some(v as u16),
                        None => None,
                    }
                } else {
                    None
                }
            },
        }
    }
}

/// Scans one diagnostic line of the viewer process for its ready
/// marker, and extracts the port it bound.
pub fn parse_difit_ready_line(line: &str) -> (r: Option<u16>)
    ensures
        r == spec_ready_port(line@),
{
    let chars = str_to_chars(line);
    if !crate::strutil::contains_str(chars.as_slice(), "difit server started on") {
        return None;
    }
    let u = match crate::strutil::find_str_from(chars.as_slice(), "http://", 0) {
        Some(u) => u,
        None => {
            return None;
        },
    };
    if !crate::strutil::match_at_exec(chars.as_slice(), "http://localhost:", u) {
        return None;
    }
    let plen = "http://localhost:".unicode_len();
    let n = chars.len();
    let rest = crate::jsonl::copy_range(chars.as_slice(), u + plen, n);
    let trimmed = crate::strutil::trim_chars(rest.as_slice());
    proof {
        assert(rest@ =~= line@.skip(u + "http://localhost:"@.len()));
    }
    match crate::strutil::parse_uint_up_to(trimmed.as_slice(), 0xFFFF) {
        Some(v) => Some(v as u16),
        None => None,
    }
}

} // verus!
