//! The token-path template parser: classifies a token output path as a
//! single fixed file, or as a directory tree keyed by a claim value, by
//! scanning its components for a single `:name` placeholder.

use vstd::prelude::*;
use crate::path_model::{components, join, lemma_components_canonical, lemma_rejoin};
use crate::split::{join_components, split_components, views_of};

verus! {

/// The sentinel character that opens a placeholder component.
pub open spec fn sentinel() -> char {
    ':'
}

/// A placeholder component: one whose text begins with the sentinel.
pub open spec fn is_placeholder(t: Seq<char>) -> bool {
    t.len() > 0 && t[0] == sentinel()
}

/// Whether any component is a placeholder.
pub open spec fn has_placeholder(cs: Seq<Seq<char>>) -> bool {
    exists|i: int| 0 <= i < cs.len() && is_placeholder(#[trigger] cs[i])
}

/// The one supported placeholder arrangement: exactly one placeholder,
/// standing next to last, so that the layout is always
/// `<parent_dir>/<substituted value>/<filename>`.
pub open spec fn lone_placeholder_next_to_last(cs: Seq<Seq<char>>) -> bool {
    &&& cs.len() >= 2
    &&& is_placeholder(cs[cs.len() - 2])
    &&& forall|i: int|
        0 <= i < cs.len() && i != cs.len() - 2 ==> !is_placeholder(#[trigger] cs[i])
}

/// Where a class of tokens is written: one literal file, or one file per
/// distinct claim value in a subdirectory named after that value.
#[derive(Debug, PartialEq, Eq)]
pub enum TokenPath {
    /// No placeholder was found: the whole path, verbatim, is the output
    /// file for the token.
    SingleFile { path: String },
    /// A placeholder selects a subdirectory of `parent_dir` per distinct
    /// value of the claim named `claim_name`; the file within it is always
    /// named `filename`.
    Directories { parent_dir: String, claim_name: String, filename: String },
}

/// The rejection raised for every unsupported placeholder arrangement:
/// a placeholder anywhere but next to last, or more than one of them.
#[derive(Clone, Copy, Debug, PartialEq, Eq, Structural)]
pub struct InvalidTokenPath;

impl InvalidTokenPath {
    /// The operator-facing diagnostic.
    pub fn message(&self) -> (m: &'static str)
        ensures
            m@ == "only one parameter, in the next-to-last position, is supported"@,
    {
        "only one parameter, in the next-to-last position, is supported"
    }
}

/// Parses a token-path template. A path with no placeholder component is a
/// [`TokenPath::SingleFile`] holding the text verbatim; a path whose one
/// placeholder stands next to last is a [`TokenPath::Directories`] made of
/// the rejoined components before the placeholder, the placeholder's name
/// with the sentinel stripped, and the final component; every other
/// placeholder arrangement is rejected.
pub fn parse_token_path(raw: &str) -> (r: Result<TokenPath, InvalidTokenPath>)
    ensures
        ({
            let cs = components(raw@);
            &&& (r matches Ok(t) && t is SingleFile <==> !has_placeholder(cs))
            &&& (r matches Ok(TokenPath::SingleFile { path }) ==> path@ == raw@)
            &&& (r matches Ok(t) && t is Directories <==> lone_placeholder_next_to_last(cs))
            &&& (r matches Ok(TokenPath::Directories {
                parent_dir,
                claim_name,
                filename,
            }) ==> {
                &&& parent_dir@ == join(cs.subrange(0, cs.len() - 2))
                &&& claim_name@ == cs[cs.len() - 2].skip(1)
                &&& filename@ == cs[cs.len() - 1]
            })
            &&& (r is Err <==> has_placeholder(cs) && !lone_placeholder_next_to_last(cs))
        }),
{
    let parts = split_components(raw);
    let ghost cs = components(raw@);
    let mut first: usize = 0;
    let mut found: bool = false;
    let mut second: bool = false;
    let mut k: usize = 0;
    while k < parts.len()
        invariant
            views_of(parts@) == cs,
            cs == components(raw@),
            k <= parts@.len(),
            !found ==> !second && forall|i: int| 0 <= i < k ==> !is_placeholder(#[trigger] cs[i]),
            found ==> {
                &&& first < k
                &&& is_placeholder(cs[first as int])
                &&& forall|i: int| 0 <= i < first ==> !is_placeholder(#[trigger] cs[i])
                &&& second <==> exists|i: int|
                    first < i < k && is_placeholder(#[trigger] cs[i])
            },
        decreases parts@.len() - k,
    {
        let part = &parts[k];
        proof {
            assert(cs[k as int] == part@);
        }
        let l = part.as_str().unicode_len();
        let ph = l > 0 && part.as_str().get_char(0) == ':';
        if ph {
            if !found {
                found = true;
                first = k;
            } else {
                second = true;
            }
        }
        k = k + 1;
    }
    if !found {
        proof {
            assert(!has_placeholder(cs));
        }
        Ok(TokenPath::SingleFile { path: String::from_str(raw) })
    } else if !second && parts.len() >= 2 && first == parts.len() - 2 {
        proof {
            assert(lone_placeholder_next_to_last(cs)) by {
                assert(is_placeholder(cs[cs.len() - 2]));
                assert forall|i: int|
                    0 <= i < cs.len() && i != cs.len() - 2 implies !is_placeholder(
                    #[trigger] cs[i],
                ) by {
                    if i < first {
                    } else {
                        assert(!(first < i < parts@.len() && is_placeholder(cs[i])));
                    }
                }
            }
            lemma_components_canonical(raw@);
        }
        let parent_dir = join_components(&parts, first);
        let part = &parts[first];
        let l = part.as_str().unicode_len();
        let claim = part.as_str().substring_char(1, l);
        let claim_name = String::from_str(claim);
        let filename = parts[parts.len() - 1].clone();
        proof {
            assert(parent_dir@ == join(cs.subrange(0, cs.len() - 2)));
            assert(claim_name@ =~= cs[cs.len() - 2].skip(1));
            assert(filename@ == cs[cs.len() - 1]);
        }
        Ok(TokenPath::Directories { parent_dir, claim_name, filename })
    } else {
        proof {
            assert(has_placeholder(cs)) by {
                assert(is_placeholder(cs[first as int]));
            }
            assert(!lone_placeholder_next_to_last(cs)) by {
                if lone_placeholder_next_to_last(cs) {
                    assert(cs.len() >= 2);
                    assert(first == cs.len() - 2) by {
                        if first != cs.len() - 2 {
                            assert(!is_placeholder(cs[first as int]));
                        }
                    }
                    if second {
                        let i = choose|i: int|
                            first < i < parts@.len() && is_placeholder(#[trigger] cs[i]);
                        assert(i != cs.len() - 2);
                        assert(!is_placeholder(cs[i]));
                    }
                }
            }
        }
        Err(InvalidTokenPath)
    }
}

/// The idempotence law for the token-path parser. A `SingleFile` result
/// carries its input verbatim, so re-parsing it is literally the original
/// parse. A `Directories` result is reconstructed by rejoining the
/// components of its source — the parent components, the sentinel-led
/// placeholder, the filename — and splitting that reconstruction gives the
/// very same components back: the second parse classifies it the same way
/// and extracts the same parent, claim name and filename.
pub proof fn lemma_reparse_equivalent(s: Seq<char>)
    ensures
        components(join(components(s))) == components(s),
        has_placeholder(components(join(components(s)))) == has_placeholder(components(s)),
        lone_placeholder_next_to_last(components(join(components(s))))
            == lone_placeholder_next_to_last(components(s)),
{
    lemma_rejoin(s);
}

} // verus!
