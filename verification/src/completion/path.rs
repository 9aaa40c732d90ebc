//! The dotted path of names before the cursor (`foo.bar.ba`), read from
//! the back over the grapheme clusters of the text.
use vstd::prelude::*;
use vstd::string::StrSliceExecFns;
use unicode_segmentation::UnicodeSegmentation;
use crate::chars::{alphabetic, is_alphabetic};
use crate::text::chars_of;

verus! {

/// The extended grapheme clusters of a text, in order.
pub uninterp spec fn grapheme_clusters(s: Seq<char>) -> Seq<Seq<char>>;

/// The concatenation of a sequence of texts.
pub open spec fn flat(cs: Seq<Seq<char>>) -> Seq<char>
    decreases cs.len(),
{
    if cs.len() == 0 {
        Seq::empty()
    } else {
        flat(cs.drop_last()) + cs.last()
    }
}

/// The views of a list of string slices.
pub open spec fn strs_view(v: Seq<&str>) -> Seq<Seq<char>> {
    Seq::new(v.len(), |i: int| v[i]@)
}

/// `UnicodeSegmentation::graphemes(s, true)` of unicode-segmentation,
/// collected. Its result is named [`grapheme_clusters`]; its source yields
/// consecutive non-empty slices of `s` from its start to its end, so the
/// clusters are non-empty and together make up `s`.
#[verifier::external_body]
pub(crate) fn graphemes<'a>(s: &'a str) -> (r: Vec<&'a str>)
    ensures
        strs_view(r@) == grapheme_clusters(s@),
        flat(strs_view(r@)) == s@,
        forall|i: int| 0 <= i < r@.len() ==> (#[trigger] r@[i])@.len() > 0,
{
    s.graphemes(true).collect()
}

/// The components of the dotted path that ends the text `s`, last first:
/// scanning the clusters `cs[k-1]`, `cs[k-2]`, ... backwards, a letter
/// extends the current component to the left (it then begins at `begin`
/// and ends at `end`), a dot ends it and starts the next one, and anything
/// else (also a cluster of several characters) ends the path.
pub open spec fn path_from(s: Seq<char>, cs: Seq<Seq<char>>, k: int, begin: int, end: int) -> Seq<Seq<char>>
    decreases k,
{
    if k <= 0 || k > cs.len() {
        seq![s.subrange(begin, end)]
    } else {
        let g = cs[k - 1];
        let i = flat(cs.take(k - 1)).len() as int;
        if g.len() == 1 && alphabetic(g[0]) {
            path_from(s, cs, k - 1, i, end)
        } else if g.len() == 1 && g[0] == '.' {
            seq![s.subrange(begin, end)] + path_from(s, cs, k - 1, i, i)
        } else {
            seq![s.subrange(begin, end)]
        }
    }
}

/// The components of the dotted path that ends `s`, last first.
pub open spec fn completable_path_spec(s: Seq<char>) -> Seq<Seq<char>> {
    let cs = grapheme_clusters(s);
    path_from(s, cs, cs.len() as int, s.len() as int, s.len() as int)
}

proof fn lemma_flat_take(cs: Seq<Seq<char>>, k: int)
    requires
        0 < k <= cs.len(),
    ensures
        flat(cs.take(k)) == flat(cs.take(k - 1)) + cs[k - 1],
{
    assert(cs.take(k).drop_last() =~= cs.take(k - 1));
}

/// The components of the dotted path of names that ends `p`, last first;
/// the first is the incomplete name at the end (possibly empty).
pub fn completable_path<'a>(p: &'a str) -> (r: Vec<&'a str>)
    ensures
        strs_view(r@) == completable_path_spec(p@),
        r@.len() >= 1,
{
    let cs = graphemes(p);
    let ghost gs = grapheme_clusters(p@);
    let ghost s = p@;
    let len = p.unicode_len();
    let mut result: Vec<&'a str> = Vec::new();
    let mut end: usize = len;
    let mut begin: usize = len;
    let mut pos: usize = len;
    let mut k: usize = cs.len();
    proof {
        assert(cs@.len() == gs.len());
        assert(gs.take(gs.len() as int) =~= gs);
        assert(strs_view(result@) + completable_path_spec(s) =~= completable_path_spec(s));
    }
    while k > 0
        invariant_except_break
            completable_path_spec(s) == strs_view(result@) + path_from(
                s,
                gs,
                k as int,
                begin as int,
                end as int,
            ),
        invariant
            p@ == s,
            gs == grapheme_clusters(s),
            strs_view(cs@) == gs,
            flat(gs) == s,
            len == s.len(),
            k <= cs@.len(),
            pos == flat(gs.take(k as int)).len(),
            pos <= begin <= end <= len,
            forall|i: int| 0 <= i < cs@.len() ==> (#[trigger] cs@[i])@.len() > 0,
        ensures
            completable_path_spec(s) == strs_view(result@) + seq![s.subrange(
                begin as int,
                end as int,
            )],
            begin <= end <= len,
        decreases k,
    {
        let g = chars_of(cs[k - 1]);
        proof {
            assert(gs[k - 1] == cs@[k - 1]@);
            lemma_flat_take(gs, k as int);
        }
        let i = pos - g.len();
        if g.len() == 1 && is_alphabetic(g[0]) {
            begin = i;
        } else if g.len() == 1 && g[0] == '.' {
            let seg = p.substring_char(begin, end);
            let ghost before = result@;
            result.push(seg);
            proof {
                assert(strs_view(result@) =~= strs_view(before).push(seg@));
                assert(strs_view(before) + (seq![seg@] + path_from(
                    s,
                    gs,
                    k - 1,
                    i as int,
                    i as int,
                )) =~= strs_view(result@) + path_from(s, gs, k - 1, i as int, i as int));
            }
            begin = i;
            end = i;
        } else {
            break;
        }
        pos = i;
        k -= 1;
    }
    let seg = p.substring_char(begin, end);
    let ghost before = result@;
    result.push(seg);
    proof {
        assert(strs_view(result@) =~= strs_view(before).push(seg@));
    }
    result
}

/// The dotted path before the cursor: the complete names, in order, and
/// the incomplete name at the end.
#[derive(Debug, PartialEq)]
pub struct CompleterPath<'s> {
    pub path: Vec<&'s str>,
    pub incomplete: &'s str,
}

impl<'a> CompleterPath<'a> {
    /// The path that ends `s`.
    pub fn from_str(s: &'a str) -> (r: Self)
        ensures
            r.incomplete@ == completable_path_spec(s@)[0],
            strs_view(r.path@) == completable_path_spec(s@).skip(1).reverse(),
    {
        let v = completable_path(s);
        let incomplete = v[0];
        let mut path: Vec<&'a str> = Vec::new();
        let mut i: usize = v.len();
        while i > 1
            invariant
                1 <= i <= v@.len(),
                strs_view(path@) == strs_view(v@).skip(i as int).reverse(),
            decreases i,
        {
            i -= 1;
            let ghost before = path@;
            path.push(v[i]);
            proof {
                let w = strs_view(v@);
                assert(strs_view(path@) =~= strs_view(before).push(v@[i as int]@));
                assert(w.skip(i as int).reverse() =~= w.skip(i + 1).reverse().push(w[i as int]));
            }
        }
        CompleterPath { path, incomplete }
    }
}

} // verus!
