//! Converts identifier-like strings between naming conventions.
//!
//! A conversion splits the input into words at configurable boundaries,
//! mutates the letter casing of each word with a pattern, and rejoins the
//! words with a delimiter.  The [`Casing`] trait puts the conversions on
//! `str` and `String`; [`Converter`] is the underlying pipeline.

use vstd::prelude::*;

pub mod boundary;
pub mod case;
pub mod chars;
pub mod converter;
pub mod laws;
pub mod pattern;

pub use boundary::Boundary;
pub use boundary::split;
pub use case::Case;
pub use converter::Converter;
pub use pattern::Pattern;

verus! {

use crate::boundary::{BoundaryView, bviews, default_bviews};
use crate::case::deterministic_case_list;
use crate::chars::{drop_ascii_digits, str_chars, strip_digits, chars_eq};
use crate::converter::{convert_spec, remove_all};

/// Whether `s` is already in `case`: stripped of its ASCII digits, it is a
/// fixed point of the conversion into `case` over the default boundaries.
/// Digits are left out because digit boundaries are not present in every
/// case's boundary list.
pub open spec fn is_case_spec(s: Seq<char>, c: Case) -> bool {
    drop_ascii_digits(s) == convert_spec(
        default_bviews(),
        c.spec_pattern(),
        c.spec_delim(),
        drop_ascii_digits(s),
    )
}

/// The members of `cases` that `s` is in, kept in order.
pub open spec fn detect_spec(s: Seq<char>, cases: Seq<Case>) -> Seq<Case>
    decreases cases.len(),
{
    if cases.len() == 0 {
        Seq::empty()
    } else if is_case_spec(s, cases[0]) {
        seq![cases[0]] + detect_spec(s, cases.drop_first())
    } else {
        detect_spec(s, cases.drop_first())
    }
}

fn is_case_chars(cs: &Vec<char>, case: &Case) -> (r: bool)
    ensures
        r == is_case_spec(cs@, *case),
{
    let digitless = strip_digits(cs);
    let conv = Converter::new().set_pattern(case.pattern());
    let d = case.delim();
    let conv = conv.set_delim(d.as_str());
    let out = conv.convert_chars(&digitless);
    chars_eq(&digitless, &out)
}

fn detect_chars(cs: &Vec<char>) -> (r: Vec<Case>)
    ensures
        r@ == detect_spec(cs@, deterministic_case_list()),
{
    let mut pool = Case::deterministic_cases();
    let mut r: Vec<Case> = Vec::new();
    proof {
        assert(r@ + detect_spec(cs@, pool@) =~= detect_spec(cs@, pool@));
    }
    while pool.len() > 0
        invariant
            detect_spec(cs@, deterministic_case_list()) == r@ + detect_spec(cs@, pool@),
        decreases pool@.len(),
    {
        let ghost pool0 = pool@;
        let hit = is_case_chars(cs, &pool[0]);
        let c = pool.remove(0);
        proof {
            assert(pool@ =~= pool0.drop_first());
        }
        if hit {
            let ghost r0 = r@;
            r.push(c);
            proof {
                assert(r0 + (seq![c] + detect_spec(cs@, pool0.drop_first())) =~= r@ + detect_spec(
                    cs@,
                    pool0.drop_first(),
                ));
            }
        }
    }
    proof {
        assert(pool@ =~= Seq::<Case>::empty());
        assert(r@ + detect_spec(cs@, Seq::empty()) =~= r@);
    }
    r
}

/// Holds the input and the boundary choice of a conversion that has been
/// started but not yet given its target case.
pub struct StateConverter<'a> {
    s: &'a str,
    conv: Converter,
}

impl<'a> StateConverter<'a> {
    /// The characters of the input this conversion was started on.
    pub closed spec fn spec_text(&self) -> Seq<char> {
        self.s@
    }

    /// The boundary list the input will be split on.
    pub closed spec fn spec_boundaries(&self) -> Seq<BoundaryView> {
        self.conv.spec_boundaries()
    }

    fn new(s: &'a str) -> (r: StateConverter<'a>)
        ensures
            r.spec_text() == s@,
            r.spec_boundaries() == default_bviews(),
    {
        StateConverter { s, conv: Converter::new() }
    }

    /// Replaces the boundary choice with the boundaries of `case`.
    pub fn from_case(self, case: Case) -> (r: StateConverter<'a>)
        ensures
            r.spec_text() == self.spec_text(),
            r.spec_boundaries() == case.spec_boundaries(),
    {
        StateConverter { s: self.s, conv: self.conv.from_case(case) }
    }

    /// Replaces the boundary choice with the boundaries given.
    pub fn with_boundaries(self, bs: &[Boundary]) -> (r: StateConverter<'a>)
        ensures
            r.spec_text() == self.spec_text(),
            r.spec_boundaries() == bviews(bs@),
    {
        StateConverter { s: self.s, conv: self.conv.set_boundaries(bs) }
    }

    /// Removes the given boundaries from the boundary choice.
    pub fn without_boundaries(self, bs: &[Boundary]) -> (r: StateConverter<'a>)
        ensures
            r.spec_text() == self.spec_text(),
            r.spec_boundaries() == remove_all(self.spec_boundaries(), bviews(bs@)),
    {
        StateConverter { s: self.s, conv: self.conv.remove_boundaries(bs) }
    }

    /// Finishes the conversion: splits on the chosen boundaries, then cases
    /// and joins the words as `case` does.
    pub fn to_case(self, case: Case) -> (r: String)
        ensures
            r@ == convert_spec(
                self.spec_boundaries(),
                case.spec_pattern(),
                case.spec_delim(),
                self.spec_text(),
            ),
    {
        self.conv.to_case(case).convert(self.s)
    }
}

/// String types that can be converted between cases.
pub trait Casing {
    /// The characters of this value.
    spec fn text(&self) -> Seq<char>;

    /// Converts into `case`, splitting on the default boundaries.
    fn to_case(&self, case: Case) -> (r: String)
        ensures
            r@ == convert_spec(
                default_bviews(),
                case.spec_pattern(),
                case.spec_delim(),
                self.text(),
            ),
    ;

    /// Starts a conversion that splits on the boundaries of `case`.
    fn from_case<'a>(&'a self, case: Case) -> (r: StateConverter<'a>)
        ensures
            r.spec_text() == self.text(),
            r.spec_boundaries() == case.spec_boundaries(),
    ;

    /// Starts a conversion that splits on the boundaries given.
    fn with_boundaries<'a>(&'a self, bs: &[Boundary]) -> (r: StateConverter<'a>)
        ensures
            r.spec_text() == self.text(),
            r.spec_boundaries() == bviews(bs@),
    ;

    /// Starts a conversion that splits on the default boundaries less the
    /// ones given.
    fn without_boundaries<'a>(&'a self, bs: &[Boundary]) -> (r: StateConverter<'a>)
        ensures
            r.spec_text() == self.text(),
            r.spec_boundaries() == remove_all(default_bviews(), bviews(bs@)),
    ;

    /// Whether this value is already in `case`, digits set aside.
    fn is_case(&self, case: Case) -> (r: bool)
        ensures
            r == is_case_spec(self.text(), case),
    ;

    /// Every deterministic built-in case this value is in, in catalog
    /// order.
    fn detect_cases(&self) -> (r: Vec<Case>)
        ensures
            r@ == detect_spec(self.text(), deterministic_case_list()),
    ;
}

impl Casing for str {
    open spec fn text(&self) -> Seq<char> {
        self@
    }

    fn to_case(&self, case: Case) -> (r: String) {
        StateConverter::new(self).to_case(case)
    }

    fn from_case<'a>(&'a self, case: Case) -> (r: StateConverter<'a>) {
        StateConverter::new(self).from_case(case)
    }

    fn with_boundaries<'a>(&'a self, bs: &[Boundary]) -> (r: StateConverter<'a>) {
        StateConverter::new(self).with_boundaries(bs)
    }

    fn without_boundaries<'a>(&'a self, bs: &[Boundary]) -> (r: StateConverter<'a>) {
        StateConverter::new(self).without_boundaries(bs)
    }

    fn is_case(&self, case: Case) -> (r: bool) {
        let cs = str_chars(self);
        is_case_chars(&cs, &case)
    }

    fn detect_cases(&self) -> (r: Vec<Case>) {
        let cs = str_chars(self);
        detect_chars(&cs)
    }
}

impl Casing for String {
    open spec fn text(&self) -> Seq<char> {
        self@
    }

    fn to_case(&self, case: Case) -> (r: String) {
        StateConverter::new(self.as_str()).to_case(case)
    }

    fn from_case<'a>(&'a self, case: Case) -> (r: StateConverter<'a>) {
        StateConverter::new(self.as_str()).from_case(case)
    }

    fn with_boundaries<'a>(&'a self, bs: &[Boundary]) -> (r: StateConverter<'a>) {
        StateConverter::new(self.as_str()).with_boundaries(bs)
    }

    fn without_boundaries<'a>(&'a self, bs: &[Boundary]) -> (r: StateConverter<'a>) {
        StateConverter::new(self.as_str()).without_boundaries(bs)
    }

    fn is_case(&self, case: Case) -> (r: bool) {
        let cs = str_chars(self.as_str());
        is_case_chars(&cs, &case)
    }

    fn detect_cases(&self) -> (r: Vec<Case>) {
        let cs = str_chars(self.as_str());
        detect_chars(&cs)
    }
}

} // verus!
