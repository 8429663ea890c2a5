//! The converter: one configurable split → pattern → join pipeline.

use vstd::prelude::*;
use vstd::string::StringExecFns;
use crate::boundary::{
    Boundary, BoundaryView, bviews, word_views, split_words, split_chars, default_bviews,
};
use crate::pattern::{Pattern, apply_pattern, apply_to_words};
use crate::case::Case;
use crate::chars::{str_chars, chars_string, chars_copy};

verus! {

/// The words joined, with the delimiter between each adjacent pair.
pub open spec fn join_words(ws: Seq<Seq<char>>, d: Seq<char>) -> Seq<char>
    decreases ws.len(),
{
    if ws.len() == 0 {
        Seq::empty()
    } else if ws.len() == 1 {
        ws[0]
    } else {
        ws[0] + d + join_words(ws.drop_first(), d)
    }
}

/// What one full conversion returns: the input split on `bs`, the words
/// mutated by `p`, and the result joined with `d`.
pub open spec fn convert_spec(bs: Seq<BoundaryView>, p: Pattern, d: Seq<char>, s: Seq<char>) -> Seq<
    char,
> {
    join_words(apply_pattern(p, split_words(bs, s)), d)
}

pub broadcast proof fn lemma_join_snoc(ws: Seq<Seq<char>>, d: Seq<char>, w: Seq<char>)
    ensures
        ws.len() == 0 ==> #[trigger] join_words(ws.push(w), d) == w,
        ws.len() >= 1 ==> join_words(ws.push(w), d) == join_words(ws, d) + d + w,
    decreases ws.len(),
{
    if ws.len() == 0 {
        assert(join_words(ws.push(w), d) == ws.push(w)[0]);
        assert(ws.push(w)[0] == w);
    } else {
        assert(ws.push(w).drop_first() =~= ws.drop_first().push(w));
        lemma_join_snoc(ws.drop_first(), d, w);
        if ws.len() == 1 {
            assert(join_words(ws.push(w), d) == ws[0] + d + join_words(ws.drop_first().push(w), d));
            assert(join_words(ws.drop_first().push(w), d) == w);
        } else {
            assert(join_words(ws.push(w), d) == ws[0] + d + (join_words(ws.drop_first(), d) + d
                + w));
            assert(ws[0] + d + (join_words(ws.drop_first(), d) + d + w) =~= (ws[0] + d
                + join_words(ws.drop_first(), d)) + d + w);
        }
    }
}

/// Joins a word list with a delimiter.
pub(crate) fn join_chars(ws: &Vec<Vec<char>>, d: &Vec<char>) -> (r: Vec<char>)
    ensures
        r@ == join_words(word_views(ws@), d@),
{
    let ghost wsv = word_views(ws@);
    let n = ws.len();
    let mut r: Vec<char> = Vec::new();
    if n == 0 {
        proof {
            assert(r@ =~= join_words(wsv, d@));
        }
        return r;
    }
    let mut r = chars_copy(&ws[0]);
    proof {
        assert(wsv.take(1) =~= seq![wsv[0]]);
        assert(join_words(wsv.take(1), d@) == wsv[0]);
    }
    let mut i: usize = 1;
    while i < n
        invariant
            1 <= i <= n,
            n == ws@.len(),
            wsv == word_views(ws@),
            r@ == join_words(wsv.take(i as int), d@),
        decreases n - i,
    {
        let mut sep = chars_copy(d);
        r.append(&mut sep);
        let mut word = chars_copy(&ws[i]);
        r.append(&mut word);
        proof {
            assert(wsv.take(i as int + 1) =~= wsv.take(i as int).push(wsv[i as int]));
            lemma_join_snoc(wsv.take(i as int), d@, wsv[i as int]);
            assert(wsv.take(i as int).len() == i);
        }
        i += 1;
    }
    proof {
        assert(wsv.take(n as int) =~= wsv);
    }
    r
}

/// `base` with every boundary that occurs in `gone` removed.
pub open spec fn remove_all(base: Seq<BoundaryView>, gone: Seq<BoundaryView>) -> Seq<BoundaryView>
    decreases base.len(),
{
    if base.len() == 0 {
        base
    } else if gone.contains(base[0]) {
        remove_all(base.drop_first(), gone)
    } else {
        seq![base[0]] + remove_all(base.drop_first(), gone)
    }
}

/// `base` followed by the members of `extra` not already present, in order.
pub open spec fn add_missing(base: Seq<BoundaryView>, extra: Seq<BoundaryView>) -> Seq<
    BoundaryView,
>
    decreases extra.len(),
{
    if extra.len() == 0 {
        base
    } else if base.contains(extra[0]) {
        add_missing(base, extra.drop_first())
    } else {
        add_missing(base.push(extra[0]), extra.drop_first())
    }
}

fn slice_contains(bs: &[Boundary], b: &Boundary) -> (r: bool)
    ensures
        r == bviews(bs@).contains(b@),
{
    let n = bs.len();
    let mut j: usize = 0;
    while j < n
        invariant
            j <= n,
            n == bs@.len(),
            forall|k: int| 0 <= k < j ==> bs@[k]@ != b@,
        decreases n - j,
    {
        if bs[j].same_as(b) {
            proof {
                assert(bviews(bs@)[j as int] == b@);
            }
            return true;
        }
        j += 1;
    }
    proof {
        assert(forall|k: int| 0 <= k < n ==> #[trigger] bviews(bs@)[k] == bs@[k]@);
    }
    false
}

fn vec_contains(bs: &Vec<Boundary>, b: &Boundary) -> (r: bool)
    ensures
        r == bviews(bs@).contains(b@),
{
    slice_contains(bs.as_slice(), b)
}

/// Holds the boundaries, pattern, and delimiter of one conversion, and
/// applies them to strings.
pub struct Converter {
    boundaries: Vec<Boundary>,
    pattern: Pattern,
    delim: String,
}

impl Converter {
    /// The boundary list this converter splits on.
    pub closed spec fn spec_boundaries(&self) -> Seq<BoundaryView> {
        bviews(self.boundaries@)
    }

    /// The pattern this converter applies.
    pub closed spec fn spec_pattern(&self) -> Pattern {
        self.pattern
    }

    /// The delimiter this converter joins with.
    pub closed spec fn spec_delim(&self) -> Seq<char> {
        self.delim@
    }

    /// A converter with the default boundaries, no casing change, and an
    /// empty delimiter.
    pub fn new() -> (r: Converter)
        ensures
            r.spec_boundaries() == default_bviews(),
            r.spec_pattern() == Pattern::Noop,
            r.spec_delim() == Seq::<char>::empty(),
    {
        Converter { boundaries: Boundary::defaults(), pattern: Pattern::Noop, delim: String::new() }
    }

    /// Takes the boundary list from `case`, keeping pattern and delimiter.
    pub fn from_case(self, case: Case) -> (r: Converter)
        ensures
            r.spec_boundaries() == case.spec_boundaries(),
            r.spec_pattern() == self.spec_pattern(),
            r.spec_delim() == self.spec_delim(),
    {
        Converter { boundaries: case.boundaries(), pattern: self.pattern, delim: self.delim }
    }

    /// Takes the pattern and delimiter from `case`, keeping the boundaries.
    pub fn to_case(self, case: Case) -> (r: Converter)
        ensures
            r.spec_boundaries() == self.spec_boundaries(),
            r.spec_pattern() == case.spec_pattern(),
            r.spec_delim() == case.spec_delim(),
    {
        Converter { boundaries: self.boundaries, pattern: case.pattern(), delim: case.delim() }
    }

    /// Replaces the boundary list.
    pub fn set_boundaries(self, bs: &[Boundary]) -> (r: Converter)
        ensures
            r.spec_boundaries() == bviews(bs@),
            r.spec_pattern() == self.spec_pattern(),
            r.spec_delim() == self.spec_delim(),
    {
        let n = bs.len();
        let mut copied: Vec<Boundary> = Vec::new();
        let mut i: usize = 0;
        while i < n
            invariant
                i <= n,
                n == bs@.len(),
                copied@.len() == i,
                forall|k: int| 0 <= k < i ==> #[trigger] copied@[k]@ == bs@[k]@,
            decreases n - i,
        {
            copied.push(bs[i].copied());
            i += 1;
        }
        proof {
            assert(bviews(copied@) =~= bviews(bs@));
        }
        Converter { boundaries: copied, pattern: self.pattern, delim: self.delim }
    }

    /// Adds the given boundaries to the list, skipping those already there.
    pub fn add_boundaries(self, bs: &[Boundary]) -> (r: Converter)
        ensures
            r.spec_boundaries() == add_missing(self.spec_boundaries(), bviews(bs@)),
            r.spec_pattern() == self.spec_pattern(),
            r.spec_delim() == self.spec_delim(),
    {
        let ghost orig = bviews(self.boundaries@);
        let ghost extra = bviews(bs@);
        let mut list = self.boundaries;
        let n = bs.len();
        let mut i: usize = 0;
        proof {
            assert(extra.skip(0) =~= extra);
        }
        while i < n
            invariant
                i <= n,
                n == bs@.len(),
                extra == bviews(bs@),
                add_missing(orig, extra) == add_missing(bviews(list@), extra.skip(i as int)),
            decreases n - i,
        {
            proof {
                assert(extra.skip(i as int)[0] == bs@[i as int]@);
                assert(extra.skip(i as int).drop_first() =~= extra.skip(i as int + 1));
            }
            if !vec_contains(&list, &bs[i]) {
                let ghost before = bviews(list@);
                list.push(bs[i].copied());
                proof {
                    assert(bviews(list@) =~= before.push(bs@[i as int]@));
                }
            }
            i += 1;
        }
        proof {
            assert(extra.skip(n as int) =~= Seq::<BoundaryView>::empty());
        }
        Converter { boundaries: list, pattern: self.pattern, delim: self.delim }
    }

    /// Removes the given boundaries from the list.
    pub fn remove_boundaries(self, bs: &[Boundary]) -> (r: Converter)
        ensures
            r.spec_boundaries() == remove_all(self.spec_boundaries(), bviews(bs@)),
            r.spec_pattern() == self.spec_pattern(),
            r.spec_delim() == self.spec_delim(),
    {
        let ghost orig = bviews(self.boundaries@);
        let ghost gone = bviews(bs@);
        let n = self.boundaries.len();
        let mut kept: Vec<Boundary> = Vec::new();
        let mut i: usize = 0;
        proof {
            assert(orig.skip(0) =~= orig);
            assert(bviews(kept@) + remove_all(orig, gone) =~= remove_all(orig, gone));
        }
        while i < n
            invariant
                i <= n,
                n == self.boundaries@.len(),
                orig == bviews(self.boundaries@),
                gone == bviews(bs@),
                remove_all(orig, gone) == bviews(kept@) + remove_all(orig.skip(i as int), gone),
            decreases n - i,
        {
            proof {
                assert(orig.skip(i as int)[0] == self.boundaries@[i as int]@);
                assert(orig.skip(i as int).drop_first() =~= orig.skip(i as int + 1));
            }
            if !slice_contains(bs, &self.boundaries[i]) {
                let ghost before = bviews(kept@);
                kept.push(self.boundaries[i].copied());
                proof {
                    assert(bviews(kept@) =~= before.push(orig[i as int]));
                    assert(before + (seq![orig[i as int]] + remove_all(
                        orig.skip(i as int + 1),
                        gone,
                    )) =~= bviews(kept@) + remove_all(orig.skip(i as int + 1), gone));
                }
            }
            i += 1;
        }
        proof {
            assert(orig.skip(n as int) =~= Seq::<BoundaryView>::empty());
            assert(bviews(kept@) + remove_all(Seq::empty(), gone) =~= bviews(kept@));
        }
        Converter { boundaries: kept, pattern: self.pattern, delim: self.delim }
    }

    /// Replaces the pattern.
    pub fn set_pattern(self, p: Pattern) -> (r: Converter)
        ensures
            r.spec_boundaries() == self.spec_boundaries(),
            r.spec_pattern() == p,
            r.spec_delim() == self.spec_delim(),
    {
        Converter { boundaries: self.boundaries, pattern: p, delim: self.delim }
    }

    /// Replaces the delimiter.
    pub fn set_delim(self, d: &str) -> (r: Converter)
        ensures
            r.spec_boundaries() == self.spec_boundaries(),
            r.spec_pattern() == self.spec_pattern(),
            r.spec_delim() == d@,
    {
        Converter { boundaries: self.boundaries, pattern: self.pattern, delim: String::from_str(d) }
    }

    /// Runs the conversion on a character sequence.
    pub(crate) fn convert_chars(&self, cs: &Vec<char>) -> (r: Vec<char>)
        ensures
            r@ == convert_spec(self.spec_boundaries(), self.spec_pattern(), self.spec_delim(), cs@),
    {
        let words = split_chars(cs, self.boundaries.as_slice());
        let mutated = apply_to_words(&self.pattern, &words);
        let dchars = str_chars(self.delim.as_str());
        join_chars(&mutated, &dchars)
    }

    /// Runs the conversion on a string.
    pub fn convert(&self, s: &str) -> (r: String)
        ensures
            r@ == convert_spec(self.spec_boundaries(), self.spec_pattern(), self.spec_delim(), s@),
    {
        let cs = str_chars(s);
        let out = self.convert_chars(&cs);
        chars_string(&out)
    }
}

} // verus!
