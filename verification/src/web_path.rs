//! The web-path validator: accepts only absolute paths free of relative
//! components, so that the result can be appended to a webroot base
//! directory elsewhere without escaping it.
//!
//! The third rule on such paths — they must be representable as valid,
//! losslessly reconstructible text — holds here by construction: the
//! validator takes `&str`, which is already decoded text, so only
//! rootedness and relative components can fail.

use vstd::prelude::*;
use crate::path_model::{components, is_rooted};
use crate::split::{split_components, views_of};

verus! {

/// A `.` or `..` component: a relative marker that could redirect a path
/// outside its intended base directory.
pub open spec fn is_rel_marker(t: Seq<char>) -> bool {
    t == seq!['.'] || t == seq!['.', '.']
}

/// Whether any component of `s` is a relative marker.
pub open spec fn has_rel_marker(s: Seq<char>) -> bool {
    exists|i: int| 0 <= i < components(s).len() && is_rel_marker(#[trigger] components(s)[i])
}

/// A valid web path: absolute and free of relative markers. Only such a
/// path may be placed beneath the webroot.
pub open spec fn valid_web_path(s: Seq<char>) -> bool {
    is_rooted(s) && !has_rel_marker(s)
}

/// Why a web path was rejected. [`InvalidPath::message`] names the rule
/// that was violated, as the operator-facing diagnostic.
#[derive(Clone, Copy, Debug, PartialEq, Eq, Structural)]
pub enum InvalidPath {
    /// The path did not start with the root marker.
    NotAbsolute,
    /// Some component was a relative marker (`.` or `..`).
    RelativeComponents,
}

impl InvalidPath {
    /// The operator-facing diagnostic, naming the violated rule verbatim.
    pub fn message(&self) -> (m: &'static str)
        ensures
            self is NotAbsolute ==> m@ == "must be an absolute path inside the webroot"@,
            self is RelativeComponents ==> m@ == "must not contain relative components"@,
    {
        match self {
            InvalidPath::NotAbsolute => "must be an absolute path inside the webroot",
            InvalidPath::RelativeComponents => "must not contain relative components",
        }
    }
}

/// Validates a path meant to be appended to a webroot: it must be absolute
/// (rule of rootedness) and every component after the root marker must be a
/// normal segment (rule of no relative components). The validated text is
/// returned exactly as given.
pub fn validate_web_path(raw: &str) -> (r: Result<String, InvalidPath>)
    ensures
        r is Ok <==> valid_web_path(raw@),
        r matches Ok(p) ==> p@ == raw@,
        (r matches Err(e) && e is NotAbsolute) <==> !is_rooted(raw@),
        (r matches Err(e) && e is RelativeComponents) <==> is_rooted(raw@) && has_rel_marker(
            raw@,
        ),
{
    let n = raw.unicode_len();
    if n == 0 || raw.get_char(0) != '/' {
        return Err(InvalidPath::NotAbsolute);
    }
    let parts = split_components(raw);
    let ghost cs = components(raw@);
    let mut k: usize = 0;
    while k < parts.len()
        invariant
            views_of(parts@) == cs,
            cs == components(raw@),
            k <= parts@.len(),
            forall|i: int| 0 <= i < k ==> !is_rel_marker(#[trigger] cs[i]),
            is_rooted(raw@),
        decreases parts@.len() - k,
    {
        let part = &parts[k];
        proof {
            assert(cs[k as int] == part@);
        }
        let l = part.as_str().unicode_len();
        let rel: bool = if l == 1 {
            part.as_str().get_char(0) == '.'
        } else if l == 2 {
            part.as_str().get_char(0) == '.' && part.as_str().get_char(1) == '.'
        } else {
            false
        };
        proof {
            if rel {
                if l == 1 {
                    assert(part@ =~= seq!['.']);
                } else {
                    assert(part@ =~= seq!['.', '.']);
                }
            } else {
                assert(part@ != seq!['.'] && part@ != seq!['.', '.'])
                by {
                    if part@ == seq!['.'] {
                        assert(part@.len() == 1 && part@[0] == '.');
                    }
                    if part@ == seq!['.', '.'] {
                        assert(part@.len() == 2 && part@[0] == '.' && part@[1] == '.');
                    }
                }
            }
        }
        if rel {
            return Err(InvalidPath::RelativeComponents);
        }
        k = k + 1;
    }
    Ok(String::from_str(raw))
}

} // verus!
