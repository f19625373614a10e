//! Hook-setup checks, computation side.
//!
//! The caller reads the assistant's settings file and installs the hook
//! script; this module holds the text processing those checks need: the
//! comment stripping that makes a JSONC settings file parseable, and the
//! recognition of this monitor's hook command in a configured command
//! string.

use vstd::prelude::*;

use crate::drain::{first_nl, lemma_first_nl_bounds};
use crate::strutil::{
    chars_to_string, contains_str, find_from, find_str_from, lemma_find_from_bounds, match_at,
    match_at_exec, spec_contains, str_eq_str, str_to_chars,
};

verus! {

/// Which of the assistant's hook kinds are configured to call this
/// monitor's hook script.
#[derive(Clone, Copy, PartialEq, Eq, Structural, Debug)]
pub struct HookStatus {
    pub session_start: bool,
    pub session_end: bool,
    pub stop: bool,
    pub post_tool_use: bool,
    pub user_prompt_submit: bool,
    pub notification_permission: bool,
    pub notification_idle: bool,
}

/// The state of the monitor's setup, as shown to the user.
pub struct SetupStatus {
    pub hook_installed: bool,
    pub hook_path: String,
    pub hooks: HookStatus,
    pub merged_settings: String,
    pub init_error: Option<String>,
}

/// True when a configured hook command calls this monitor's hook
/// script: the bare script name, or any path ending in it.
pub open spec fn spec_is_eocc_hook_command(s: Seq<char>) -> bool {
    ||| match_at(s, "eocc-hook "@, 0)
    ||| s == "eocc-hook"@
    ||| spec_contains(s, "/eocc-hook "@)
    ||| (s.len() >= "/eocc-hook"@.len() && match_at(
        s,
        "/eocc-hook"@,
        s.len() - "/eocc-hook"@.len(),
    ))
}

/// Tests whether a configured hook command calls this monitor's hook
/// script.
pub fn is_eocc_hook_command(command: &str) -> (r: bool)
    ensures
        r == spec_is_eocc_hook_command(command@),
{
    let chars = str_to_chars(command);
    if match_at_exec(chars.as_slice(), "eocc-hook ", 0) {
        return true;
    }
    if str_eq_str(command, "eocc-hook") {
        return true;
    }
    if contains_str(chars.as_slice(), "/eocc-hook ") {
        return true;
    }
    let nl = "/eocc-hook".unicode_len();
    if chars.len() >= nl && match_at_exec(chars.as_slice(), "/eocc-hook", chars.len() - nl) {
        return true;
    }
    false
}

/// The text with line and block comments removed: what remains of a
/// JSONC settings file for a strict JSON parser.  Comment markers inside
/// string literals are kept; an unterminated block comment swallows the
/// rest; the newline ending a line comment is kept.
pub open spec fn strip_jsonc_from(s: Seq<char>, i: int, in_string: bool, escape: bool) -> Seq<char>
    decreases s.len() - i when 0 <= i <= s.len()
{
    if i >= s.len() {
        Seq::<char>::empty()
    } else {
        let c = s[i];
        if escape {
            seq![c] + strip_jsonc_from(s, i + 1, in_string, false)
        } else if in_string {
            if c == '\\' {
                seq![c] + strip_jsonc_from(s, i + 1, true, true)
            } else if c == '"' {
                seq![c] + strip_jsonc_from(s, i + 1, false, false)
            } else {
                seq![c] + strip_jsonc_from(s, i + 1, true, false)
            }
        } else if c == '"' {
            seq![c] + strip_jsonc_from(s, i + 1, true, false)
        } else if c == '/' && i + 1 < s.len() && s[i + 1] == '/' {
            let k = first_nl(s, i + 2);
            proof {
                lemma_first_nl_bounds(s, i + 2);
            }
            strip_jsonc_from(s, k, false, false)
        } else if c == '/' && i + 1 < s.len() && s[i + 1] == '*' {
            match find_from(s, "*/"@, i + 2) {
                Some(e) => {
                    proof {
                        lemma_find_from_bounds(s, "*/"@, i + 2);
                        reveal_strlit("*/");
                    }
                    strip_jsonc_from(s, e + 2, false, false)
                },
                None => Seq::<char>::empty(),
            }
        } else {
            seq![c] + strip_jsonc_from(s, i + 1, false, false)
        }
    }
}

/// The comment-stripped text of a whole file.
pub open spec fn spec_strip_jsonc(s: Seq<char>) -> Seq<char> {
    strip_jsonc_from(s, 0, false, false)
}

/// Strips line and block comments from JSONC text, leaving strict JSON
/// (with string literals untouched).
pub fn strip_jsonc_comments(content: &str) -> (r: String)
    ensures
        r@ == spec_strip_jsonc(content@),
{
    let chars = str_to_chars(content);
    let ghost full = chars@;
    let n = chars.len();
    let mut out: Vec<char> = Vec::new();
    let mut i: usize = 0;
    let mut in_string = false;
    let mut escape = false;
    proof {
        assert(Seq::<char>::empty() + strip_jsonc_from(full, 0, false, false) =~= strip_jsonc_from(
            full,
            0,
            false,
            false,
        ));
    }
    while i < n
        invariant
            0 <= i <= n == full.len(),
            full == chars@,
            full == content@,
            spec_strip_jsonc(content@) == out@ + strip_jsonc_from(
                full,
                i as int,
                in_string,
                escape,
            ),
        decreases n - i,
    {
        let ghost out0 = out@;
        let ghost i0 = i as int;
        let ghost st0 = in_string;
        let ghost es0 = escape;
        let c = chars[i];
        if escape {
            out.push(c);
            escape = false;
            i = i + 1;
        } else if in_string {
            if c == '\\' {
                out.push(c);
                escape = true;
            } else if c == '"' {
                out.push(c);
                in_string = false;
            } else {
                out.push(c);
            }
            i = i + 1;
        } else if c == '"' {
            out.push(c);
            in_string = true;
            i = i + 1;
        } else if c == '/' && i + 1 < n && chars[i + 1] == '/' {
            i = crate::drain::nl_end_pub(chars.as_slice(), i + 2);
        } else if c == '/' && i + 1 < n && chars[i + 1] == '*' {
            match find_str_from(chars.as_slice(), "*/", i + 2) {
                Some(e) => {
                    proof {
                        reveal_strlit("*/");
                    }
                    i = e + 2;
                },
                None => {
                    i = n;
                },
            }
        } else {
            out.push(c);
            i = i + 1;
        }
        proof {
            assert(out@ + strip_jsonc_from(full, i as int, in_string, escape) =~= out0
                + strip_jsonc_from(full, i0, st0, es0));
        }
    }
    proof {
        assert(strip_jsonc_from(full, n as int, in_string, escape) == Seq::<char>::empty());
        assert(out@ + Seq::<char>::empty() =~= out@);
    }
    chars_to_string(&out)
}

} // verus!
