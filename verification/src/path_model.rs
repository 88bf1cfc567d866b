//! The path model shared by the web-path validator and the token-path parser.
//!
//! Paths are modeled explicitly over forward-slash text, independent of the
//! operating system's own path semantics: a path string is split into an
//! ordered sequence of *components* — a root marker (`/`) at index 0 when the
//! path is absolute, followed by every non-empty run of non-separator
//! characters. Repeated, leading and trailing separators contribute nothing
//! beyond the root marker, so `a//b/` has the same components as `a/b`.

use vstd::prelude::*;

verus! {

/// The path-separator character of the modeled path convention.
pub open spec fn sep() -> char {
    '/'
}

/// The root-marker component: the leading `/` of an absolute path, kept as a
/// component of its own so that it takes part in component indexing and in
/// rejoining.
pub open spec fn root_marker() -> Seq<char> {
    seq![sep()]
}

/// Splits `s` at every separator, keeping empty pieces: the result always has
/// one more element than `s` has separators.
pub open spec fn raw_segments(s: Seq<char>) -> Seq<Seq<char>>
    decreases s.len(),
{
    if s.len() == 0 {
        seq![Seq::<char>::empty()]
    } else if s.last() == sep() {
        raw_segments(s.drop_last()).push(Seq::<char>::empty())
    } else {
        let r = raw_segments(s.drop_last());
        r.update(r.len() - 1, r.last().push(s.last()))
    }
}

/// Whether a piece of a split counts as a segment: only non-empty pieces do.
pub open spec fn non_empty(t: Seq<char>) -> bool {
    t.len() > 0
}

/// Keeps the non-empty pieces of a split, in order.
pub open spec fn keep_non_empty(pieces: Seq<Seq<char>>) -> Seq<Seq<char>>
    decreases pieces.len(),
{
    if pieces.len() == 0 {
        seq![]
    } else if non_empty(pieces.last()) {
        keep_non_empty(pieces.drop_last()).push(pieces.last())
    } else {
        keep_non_empty(pieces.drop_last())
    }
}

/// The non-empty pieces of `s` between separators: repeated separators
/// collapse, and leading or trailing separators add no segment.
pub open spec fn segments(s: Seq<char>) -> Seq<Seq<char>> {
    keep_non_empty(raw_segments(s))
}

/// Whether `s` starts with the root marker, i.e. is an absolute path.
pub open spec fn is_rooted(s: Seq<char>) -> bool {
    s.len() > 0 && s[0] == sep()
}

/// The root marker as a (possibly empty) component sequence of its own.
pub open spec fn opt_root(s: Seq<char>) -> Seq<Seq<char>> {
    if is_rooted(s) {
        seq![root_marker()]
    } else {
        Seq::empty()
    }
}

/// The ordered components of `s`: the root marker first when `s` is
/// absolute, then every segment.
pub open spec fn components(s: Seq<char>) -> Seq<Seq<char>> {
    opt_root(s) + segments(s)
}

/// Rejoins a component sequence into path text: components are glued with
/// single separators, except that nothing is inserted directly after the
/// root marker, which is its own separator.
pub open spec fn join(cs: Seq<Seq<char>>) -> Seq<char>
    decreases cs.len(),
{
    if cs.len() == 0 {
        Seq::empty()
    } else if cs.len() == 1 {
        cs[0]
    } else if join(cs.drop_last()) == root_marker() {
        join(cs.drop_last()) + cs.last()
    } else {
        join(cs.drop_last()) + seq![sep()] + cs.last()
    }
}

/// The shape that a component sequence produced by [`components`] always
/// has: every component non-empty, and no separator anywhere except in a
/// root marker standing at index 0.
pub open spec fn canonical_components(cs: Seq<Seq<char>>) -> bool {
    &&& forall|i: int| 0 <= i < cs.len() ==> non_empty(#[trigger] cs[i])
    &&& forall|i: int| 1 <= i < cs.len() ==> sep_free(#[trigger] cs[i])
    &&& cs.len() > 0 && cs[0] != root_marker() ==> sep_free(cs[0])
}

/// Whether `t` contains no separator character.
pub open spec fn sep_free(t: Seq<char>) -> bool {
    forall|j: int| 0 <= j < t.len() ==> t[j] != sep()
}

/// A split always yields at least one piece.
pub proof fn lemma_raw_segments_len(s: Seq<char>)
    ensures
        raw_segments(s).len() >= 1,
    decreases s.len(),
{
    if s.len() > 0 {
        lemma_raw_segments_len(s.drop_last());
    }
}

/// No piece of a split contains a separator.
pub proof fn lemma_raw_segments_sep_free(s: Seq<char>)
    ensures
        forall|i: int|
            0 <= i < raw_segments(s).len() ==> sep_free(#[trigger] raw_segments(s)[i]),
    decreases s.len(),
{
    if s.len() > 0 {
        lemma_raw_segments_sep_free(s.drop_last());
        lemma_raw_segments_len(s.drop_last());
        let r = raw_segments(s.drop_last());
        if s.last() != sep() {
            assert forall|i: int| 0 <= i < raw_segments(s).len() implies sep_free(
                #[trigger] raw_segments(s)[i],
            ) by {
                if i == r.len() - 1 {
                    assert(raw_segments(s)[i] == r.last().push(s.last()));
                } else {
                    assert(raw_segments(s)[i] == r[i]);
                }
            }
        }
    }
}

/// Keeping the non-empty pieces keeps only non-empty pieces, and invents no
/// new text: every kept piece is one of the original pieces.
pub proof fn lemma_keep_non_empty_elements(pieces: Seq<Seq<char>>)
    ensures
        forall|i: int|
            0 <= i < keep_non_empty(pieces).len() ==> non_empty(
                #[trigger] keep_non_empty(pieces)[i],
            ) && pieces.contains(keep_non_empty(pieces)[i]),
    decreases pieces.len(),
{
    if pieces.len() > 0 {
        lemma_keep_non_empty_elements(pieces.drop_last());
        let kept = keep_non_empty(pieces);
        let prior = keep_non_empty(pieces.drop_last());
        assert forall|i: int| 0 <= i < kept.len() implies non_empty(#[trigger] kept[i])
            && pieces.contains(kept[i]) by {
            if i < prior.len() {
                assert(kept[i] == prior[i]);
                let j = choose|j: int|
                    0 <= j < pieces.drop_last().len() && pieces.drop_last()[j] == prior[i];
                assert(pieces[j] == prior[i]);
            } else {
                assert(kept[i] == pieces.last());
                assert(pieces[pieces.len() - 1] == pieces.last());
            }
        }
    }
}

/// Every segment of `s` is non-empty and free of separators.
pub proof fn lemma_segments_canonical(s: Seq<char>)
    ensures
        forall|i: int|
            0 <= i < segments(s).len() ==> non_empty(#[trigger] segments(s)[i]) && sep_free(
                segments(s)[i],
            ),
{
    lemma_raw_segments_sep_free(s);
    lemma_keep_non_empty_elements(raw_segments(s));
    assert forall|i: int| 0 <= i < segments(s).len() implies non_empty(#[trigger] segments(s)[i])
        && sep_free(segments(s)[i]) by {
        let raw = raw_segments(s);
        let j = choose|j: int| 0 <= j < raw.len() && raw[j] == segments(s)[i];
        assert(sep_free(raw[j]));
    }
}

/// Every component of `s` is non-empty, and is either the root marker at
/// index 0 or free of separators.
pub proof fn lemma_components_canonical(s: Seq<char>)
    ensures
        canonical_components(components(s)),
{
    lemma_segments_canonical(s);
    assert forall|i: int| 0 <= i < components(s).len() implies non_empty(
        #[trigger] components(s)[i],
    ) by {
        if is_rooted(s) && i == 0 {
            assert(components(s)[0] == root_marker());
        } else {
            assert(components(s)[i] == segments(s)[i - opt_root(s).len()]);
        }
    }
    assert forall|i: int| 1 <= i < components(s).len() implies sep_free(
        #[trigger] components(s)[i],
    ) by {
        assert(components(s)[i] == segments(s)[i - opt_root(s).len()]);
    }
    if components(s).len() > 0 && components(s)[0] != root_marker() {
        assert(components(s)[0] == segments(s)[0]);
    }
}

/// Rejoining at least one non-empty component yields at least one character
/// per component, so a join of two or more components is never the lone
/// root marker.
pub proof fn lemma_join_len(cs: Seq<Seq<char>>)
    requires
        forall|i: int| 0 <= i < cs.len() ==> non_empty(#[trigger] cs[i]),
    ensures
        join(cs).len() >= cs.len(),
    decreases cs.len(),
{
    if cs.len() > 1 {
        lemma_join_len(cs.drop_last());
    }
}

/// Appending separator-free text to a path extends the last piece of its
/// split and nothing else.
pub proof fn lemma_raw_segments_extend(a: Seq<char>, b: Seq<char>)
    requires
        sep_free(b),
    ensures
        raw_segments(a + b) == raw_segments(a).update(
            raw_segments(a).len() - 1,
            raw_segments(a).last() + b,
        ),
    decreases b.len(),
{
    lemma_raw_segments_len(a);
    let r = raw_segments(a);
    if b.len() == 0 {
        assert(a + b =~= a);
        assert(r.update(r.len() - 1, r.last() + b) =~= r);
    } else {
        assert(sep_free(b.drop_last()));
        lemma_raw_segments_extend(a, b.drop_last());
        let ab = a + b;
        assert(ab.drop_last() =~= a + b.drop_last());
        assert(ab.last() == b.last());
        assert(b.last() != sep());
        let prior = raw_segments(a + b.drop_last());
        assert(prior == r.update(r.len() - 1, r.last() + b.drop_last()));
        assert(prior.last() == r.last() + b.drop_last());
        assert(raw_segments(ab) == prior.update(prior.len() - 1, prior.last().push(b.last())));
        assert(prior.last().push(b.last()) =~= r.last() + b);
        assert(prior.update(prior.len() - 1, r.last() + b) =~= r.update(r.len() - 1, r.last() + b));
    }
}

/// Splits made only of empty pieces keep no segment.
proof fn lemma_keep_empties()
    ensures
        keep_non_empty(Seq::<Seq<char>>::empty()) == Seq::<Seq<char>>::empty(),
        keep_non_empty(seq![Seq::<char>::empty()]) == Seq::<Seq<char>>::empty(),
        keep_non_empty(seq![Seq::<char>::empty(), Seq::<char>::empty()])
            == Seq::<Seq<char>>::empty(),
{
    let e = Seq::<char>::empty();
    assert(keep_non_empty(Seq::<Seq<char>>::empty()) =~= Seq::<Seq<char>>::empty());
    assert(seq![e].drop_last() =~= Seq::<Seq<char>>::empty());
    assert(!non_empty(seq![e].last()));
    assert(keep_non_empty(seq![e]) =~= Seq::<Seq<char>>::empty());
    assert(seq![e, e].drop_last() =~= seq![e]);
    assert(!non_empty(seq![e, e].last()));
    assert(keep_non_empty(seq![e, e]) =~= Seq::<Seq<char>>::empty());
}

/// Splitting is a left inverse of rejoining: the components of a rejoined
/// canonical component sequence are that sequence again. This is what makes
/// re-parsing a reconstructed path equivalent to the original parse.
pub proof fn lemma_components_join(cs: Seq<Seq<char>>)
    requires
        canonical_components(cs),
    ensures
        components(join(cs)) == cs,
        cs.len() > 0 ==> join(cs).len() > 0 && join(cs)[0] == cs[0][0],
    decreases cs.len(),
{
    lemma_keep_empties();
    if cs.len() == 0 {
        assert(join(cs) == Seq::<char>::empty());
        assert(raw_segments(join(cs)) == seq![Seq::<char>::empty()]);
        assert(segments(join(cs)) =~= Seq::<Seq<char>>::empty());
        assert(components(join(cs)) =~= cs);
    } else if cs.len() == 1 {
        let s = cs[0];
        assert(join(cs) == s);
        if s == root_marker() {
            assert(s.len() == 1 && s.last() == sep());
            assert(s.drop_last() =~= Seq::<char>::empty());
            assert(raw_segments(Seq::<char>::empty()) == seq![Seq::<char>::empty()]);
            assert(raw_segments(s) =~= seq![Seq::<char>::empty(), Seq::<char>::empty()]);
            assert(segments(s) =~= Seq::<Seq<char>>::empty());
            assert(is_rooted(s));
            assert(components(s) =~= cs);
        } else {
            assert(sep_free(s) && s.len() > 0);
            assert(Seq::<char>::empty() + s =~= s);
            lemma_raw_segments_extend(Seq::<char>::empty(), s);
            assert(raw_segments(s) =~= seq![s]);
            assert(seq![s].drop_last() =~= Seq::<Seq<char>>::empty());
            assert(non_empty(seq![s].last()));
            assert(segments(s) =~= seq![s]);
            assert(s[0] != sep());
            assert(!is_rooted(s));
            assert(components(s) =~= cs);
        }
    } else {
        let prefix_cs = cs.drop_last();
        let b = cs.last();
        assert(canonical_components(prefix_cs)) by {
            assert(forall|i: int|
                0 <= i < prefix_cs.len() ==> #[trigger] prefix_cs[i] == cs[i]);
        }
        lemma_components_join(prefix_cs);
        lemma_join_len(prefix_cs);
        let prefix = join(prefix_cs);
        assert(non_empty(b) && sep_free(b));
        if prefix == root_marker() {
            assert(join(cs) == prefix + b);
            // a lone root marker can only be the join of the one-component
            // sequence holding the root marker itself
            assert(prefix_cs.len() == 1);
            assert(prefix_cs[0] == root_marker());
            let s = prefix + b;
            lemma_raw_segments_extend(prefix, b);
            assert(prefix.drop_last() =~= Seq::<char>::empty());
            assert(raw_segments(Seq::<char>::empty()) == seq![Seq::<char>::empty()]);
            assert(raw_segments(prefix) =~= seq![Seq::<char>::empty(), Seq::<char>::empty()]);
            assert(raw_segments(s) =~= seq![Seq::<char>::empty(), Seq::<char>::empty() + b]);
            assert(Seq::<char>::empty() + b =~= b);
            assert(raw_segments(s) =~= seq![Seq::<char>::empty(), b]);
            assert(seq![Seq::<char>::empty(), b].drop_last() =~= seq![Seq::<char>::empty()]);
            assert(non_empty(seq![Seq::<char>::empty(), b].last()));
            assert(segments(s) =~= seq![b]);
            assert(is_rooted(s));
            assert(components(s) =~= cs);
            assert(s[0] == cs[0][0]);
        } else {
            let a = prefix + seq![sep()];
            assert(join(cs) == a + b);
            let s = a + b;
            assert(a.last() == sep());
            assert(a.drop_last() =~= prefix);
            assert(raw_segments(a) == raw_segments(prefix).push(Seq::<char>::empty()));
            lemma_raw_segments_extend(a, b);
            lemma_raw_segments_len(prefix);
            assert(raw_segments(s) =~= raw_segments(prefix).push(Seq::<char>::empty() + b));
            assert(Seq::<char>::empty() + b =~= b);
            assert(raw_segments(s) =~= raw_segments(prefix).push(b));
            assert(raw_segments(prefix).push(b).drop_last() =~= raw_segments(prefix));
            assert(segments(s) == keep_non_empty(raw_segments(prefix)).push(b));
            assert(segments(s) == segments(prefix).push(b));
            assert(s[0] == prefix[0]);
            assert(is_rooted(s) == is_rooted(prefix));
            assert(opt_root(s) == opt_root(prefix));
            assert(components(s) =~= components(prefix).push(b));
            assert(components(prefix).push(b) =~= cs);
            assert(s[0] == cs[0][0]);
        }
    }
}

/// Idempotence at the model level: splitting the rejoined components of any
/// path gives the same components back.
pub proof fn lemma_rejoin(s: Seq<char>)
    ensures
        components(join(components(s))) == components(s),
{
    lemma_components_canonical(s);
    lemma_components_join(components(s));
}

} // verus!
