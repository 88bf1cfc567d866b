//! Executable splitting and rejoining of path text, verified against the
//! component model of [`crate::path_model`].

use vstd::prelude::*;
use crate::path_model::{
    canonical_components, components, join, keep_non_empty, lemma_raw_segments_len, non_empty,
    opt_root, raw_segments, root_marker, sep,
};

verus! {

/// The views of a vector of component strings.
pub open spec fn views_of(parts: Seq<String>) -> Seq<Seq<char>> {
    parts.map_values(|p: String| p@)
}

/// Splits `raw` into its ordered components: the root marker first when
/// `raw` is absolute, then every non-empty segment.
pub fn split_components(raw: &str) -> (parts: Vec<String>)
    ensures
        views_of(parts@) == components(raw@),
{
    let n = raw.unicode_len();
    let mut parts: Vec<String> = Vec::new();
    if n > 0 && raw.get_char(0) == '/' {
        let root = String::from_str("/");
        proof {
            reveal_strlit("/");
            assert(root@ =~= root_marker());
        }
        parts.push(root);
    }
    proof {
        assert(views_of(parts@) =~= opt_root(raw@));
        assert(raw@.subrange(0, 0) =~= Seq::<char>::empty());
        assert(raw_segments(Seq::<char>::empty()).last() == Seq::<char>::empty());
        assert(keep_non_empty(raw_segments(Seq::<char>::empty()).drop_last())
            =~= Seq::<Seq<char>>::empty());
        assert(views_of(parts@) =~= opt_root(raw@) + keep_non_empty(
            raw_segments(raw@.subrange(0, 0)).drop_last(),
        ));
    }
    let mut i: usize = 0;
    let mut seg_start: usize = 0;
    while i < n
        invariant
            n == raw@.len(),
            seg_start <= i <= n,
            raw_segments(raw@.subrange(0, i as int)).last() == raw@.subrange(
                seg_start as int,
                i as int,
            ),
            views_of(parts@) == opt_root(raw@) + keep_non_empty(
                raw_segments(raw@.subrange(0, i as int)).drop_last(),
            ),
        decreases n - i,
    {
        let ghost p = raw@.subrange(0, i as int);
        let ghost p2 = raw@.subrange(0, i + 1 as int);
        proof {
            assert(p2.drop_last() =~= p);
            assert(p2.last() == raw@[i as int]);
            lemma_raw_segments_len(p);
        }
        let c = raw.get_char(i);
        if c == '/' {
            proof {
                assert(raw_segments(p2) == raw_segments(p).push(Seq::<char>::empty()));
                assert(raw_segments(p2).drop_last() =~= raw_segments(p));
            }
            if i > seg_start {
                let seg = raw.substring_char(seg_start, i);
                let owned = String::from_str(seg);
                let ghost prev = parts@;
                let ghost ov = owned@;
                proof {
                    assert(ov == raw_segments(p).last());
                    assert(non_empty(raw_segments(p).last()));
                    assert(keep_non_empty(raw_segments(p)) == keep_non_empty(
                        raw_segments(p).drop_last(),
                    ).push(raw_segments(p).last()));
                }
                parts.push(owned);
                proof {
                    assert(views_of(parts@) =~= views_of(prev).push(ov));
                    assert((opt_root(raw@) + keep_non_empty(raw_segments(p).drop_last())).push(ov)
                        =~= opt_root(raw@) + keep_non_empty(raw_segments(p).drop_last()).push(ov));
                    assert(views_of(parts@) == opt_root(raw@) + keep_non_empty(
                        raw_segments(p2).drop_last(),
                    ));
                }
            } else {
                proof {
                    assert(raw@.subrange(seg_start as int, i as int) =~= Seq::<char>::empty());
                    assert(!non_empty(raw_segments(p).last()));
                    assert(keep_non_empty(raw_segments(p)) == keep_non_empty(
                        raw_segments(p).drop_last(),
                    ));
                }
            }
            seg_start = i + 1;
            proof {
                assert(raw_segments(p2).last() =~= raw@.subrange(
                    seg_start as int,
                    i + 1 as int,
                ));
            }
        } else {
            proof {
                let r = raw_segments(p);
                assert(raw_segments(p2) == r.update(r.len() - 1, r.last().push(raw@[i as int])));
                assert(raw_segments(p2).drop_last() =~= r.drop_last());
                assert(raw_segments(p2).last() == r.last().push(raw@[i as int]));
                assert(r.last().push(raw@[i as int]) =~= raw@.subrange(
                    seg_start as int,
                    i + 1 as int,
                ));
            }
        }
        i = i + 1;
    }
    proof {
        assert(raw@.subrange(0, n as int) =~= raw@);
        lemma_raw_segments_len(raw@);
    }
    if n > seg_start {
        let seg = raw.substring_char(seg_start, n);
        let owned = String::from_str(seg);
        let ghost prev = parts@;
        let ghost ov = owned@;
        proof {
            assert(ov == raw_segments(raw@).last());
            assert(non_empty(raw_segments(raw@).last()));
            assert(keep_non_empty(raw_segments(raw@)) == keep_non_empty(
                raw_segments(raw@).drop_last(),
            ).push(raw_segments(raw@).last()));
        }
        parts.push(owned);
        proof {
            assert(views_of(parts@) =~= views_of(prev).push(ov));
            assert((opt_root(raw@) + keep_non_empty(raw_segments(raw@).drop_last())).push(ov)
                =~= opt_root(raw@) + keep_non_empty(raw_segments(raw@).drop_last()).push(ov));
            assert(views_of(parts@) == components(raw@));
        }
    } else {
        proof {
            assert(raw@.subrange(seg_start as int, n as int) =~= Seq::<char>::empty());
            assert(!non_empty(raw_segments(raw@).last()));
            assert(keep_non_empty(raw_segments(raw@)) == keep_non_empty(
                raw_segments(raw@).drop_last(),
            ));
            assert(views_of(parts@) =~= components(raw@));
        }
    }
    parts
}

/// Rejoins the first `end` of the given components into path text, exactly
/// as the model's [`join`] does.
pub fn join_components(parts: &Vec<String>, end: usize) -> (joined: String)
    requires
        end <= parts@.len(),
        canonical_components(views_of(parts@)),
    ensures
        joined@ == join(views_of(parts@).subrange(0, end as int)),
{
    let ghost cs = views_of(parts@);
    let mut joined = String::new();
    proof {
        assert(cs.subrange(0, 0) =~= Seq::<Seq<char>>::empty());
    }
    let mut j: usize = 0;
    while j < end
        invariant
            end <= parts@.len(),
            canonical_components(views_of(parts@)),
            cs == views_of(parts@),
            j <= end,
            joined@ == join(cs.subrange(0, j as int)),
        decreases end - j,
    {
        let ghost c2 = cs.subrange(0, j + 1 as int);
        proof {
            assert(c2.drop_last() =~= cs.subrange(0, j as int));
            assert(c2.last() == cs[j as int]);
            crate::path_model::lemma_join_len(cs.subrange(0, j as int));
            assert(forall|k: int|
                0 <= k < j ==> non_empty(#[trigger] cs.subrange(0, j as int)[k]));
        }
        if j > 0 {
            let root_first = parts[0].as_str().unicode_len() == 1 && parts[0].as_str().get_char(0)
                == '/';
            proof {
                assert(root_first == (cs[0] == root_marker())) by {
                    if parts@[0]@.len() == 1 && parts@[0]@[0] == sep() {
                        assert(parts@[0]@ =~= root_marker());
                    }
                }
            }
            if j == 1 && root_first {
                proof {
                    assert(cs.subrange(0, 1)[0] == cs[0]);
                    assert(join(cs.subrange(0, 1)) == root_marker());
                }
            } else {
                proof {
                    // with two or more components the prefix is longer than
                    // the root marker, and a lone non-root component cannot
                    // contain the separator at all
                    if j == 1 {
                        assert(join(cs.subrange(0, 1)) == cs[0]);
                        assert(cs[0] != root_marker());
                    } else {
                        assert(join(cs.subrange(0, j as int)).len() >= 2);
                    }
                    assert(join(cs.subrange(0, j as int)) != root_marker());
                }
                joined.append("/");
                proof {
                    reveal_strlit("/");
                    assert("/"@ =~= seq![sep()]);
                }
            }
        }
        joined.append(parts[j].as_str());
        proof {
            if j == 0 {
                assert(c2 =~= seq![cs[0]]);
                assert(join(c2) == cs[0]);
                assert(joined@ =~= join(c2));
            } else {
                assert(joined@ =~= join(c2));
            }
        }
        j = j + 1;
    }
    joined
}

} // verus!
