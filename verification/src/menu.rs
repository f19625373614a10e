//! Menu-identifier parsing for the opacity settings.
//!
//! The menu carries its target and value in the item identifier; the
//! handler parses them back out.  The value is an integer percentage;
//! the caller divides by one hundred for the window opacity.

use vstd::prelude::*;

use crate::strutil::{
    chars_eq_str, match_at, match_at_exec, rfind_char, rfind_char_exec, spec_parse_uint,
    str_to_chars,
};

verus! {

/// What an opacity menu identifier names: whether it sets the active or
/// the inactive opacity, and the percentage.  The identifier has the
/// shape `opacity_<target>_<percent>`.
pub open spec fn spec_opacity_menu_id(s: Seq<char>) -> Option<(bool, u32)> {
    let p = "opacity_"@;
    if !match_at(s, p, 0) {
        None
    } else {
        let suffix = s.skip(p.len() as int);
        match rfind_char(suffix, '_') {
            None => None,
            Some(u) => {
                let target = suffix.take(u);
                let value = suffix.skip(u + 1);
                match spec_parse_uint(value, u32::MAX as int) {
                    None => None,
                    Some(v) => if target == "active"@ {
                        Some((true, v as u32))
                    } else if target == "inactive"@ {
                        Some((false, v as u32))
                    } else {
                        None
                    },
                }
            },
        }
    }
}

/// Parses an opacity menu identifier; the flag is true for the active
/// opacity, and the number is the percentage.
pub fn parse_opacity_menu_id(menu_id: &str) -> (r: Option<(bool, u32)>)
    ensures
        r == spec_opacity_menu_id(menu_id@),
{
    let chars = str_to_chars(menu_id);
    if !match_at_exec(chars.as_slice(), "opacity_", 0) {
        return None;
    }
    let plen = "opacity_".unicode_len();
    let suffix = crate::jsonl::copy_range(chars.as_slice(), plen, chars.len());
    let u = match rfind_char_exec(suffix.as_slice(), '_') {
        Some(u) => u,
        None => {
            return None;
        },
    };
    let target = crate::jsonl::copy_range(suffix.as_slice(), 0, u);
    let value = crate::jsonl::copy_range(suffix.as_slice(), u + 1, suffix.len());
    proof {
        assert(suffix@ == menu_id@.skip("opacity_"@.len() as int));
        assert(target@ =~= suffix@.take(u as int));
        assert(value@ =~= suffix@.skip(u + 1));
    }
    let v = match crate::strutil::parse_uint_up_to(value.as_slice(), u32::MAX) {
        Some(v) => v,
        None => {
            return None;
        },
    };
    if chars_eq_str(target.as_slice(), "active") {
        Some((true, v))
    } else if chars_eq_str(target.as_slice(), "inactive") {
        Some((false, v))
    } else {
        None
    }
}

} // verus!
