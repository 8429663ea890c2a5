//! The case catalog: each named case bundles a boundary list, a pattern,
//! and a delimiter.

use vstd::prelude::*;
use vstd::string::StringExecFns;
use crate::boundary::{Boundary, BoundaryView, bviews};
use crate::pattern::Pattern;

verus! {

/// A naming convention: how an identifier in this case is split into
/// words, how the words are cased, and what joins them.
#[derive(Clone, PartialEq, Eq, Hash, Debug)]
pub enum Case {
    /// `my_variable_name`
    Snake,
    /// `MY_VARIABLE_NAME`
    Constant,
    /// `MY_VARIABLE_NAME` (same convention as `Constant`)
    UpperSnake,
    /// `My_Variable_Name`
    Ada,
    /// `my-variable-name`
    Kebab,
    /// `MY-VARIABLE-NAME`
    Cobol,
    /// `MY-VARIABLE-NAME` (same convention as `Cobol`)
    UpperKebab,
    /// `My-Variable-Name`
    Train,
    /// `myvariablename`
    Flat,
    /// `MYVARIABLENAME`
    UpperFlat,
    /// `MyVariableName`
    Pascal,
    /// `MyVariableName` (same convention as `Pascal`)
    UpperCamel,
    /// `myVariableName`
    Camel,
    /// `my variable name`
    Lower,
    /// `MY VARIABLE NAME`
    Upper,
    /// `My Variable Name`
    Title,
    /// `My variable name`
    Sentence,
    /// `mY vARIABLE nAME`
    Toggle,
    /// `mY vArIaBlE nAmE`
    Alternating,
    /// A case built directly from its three parts.
    Custom { boundaries: Vec<Boundary>, pattern: Pattern, delim: String },
}

impl Case {
    /// The boundary list an identifier in this case is split on.
    pub open spec fn spec_boundaries(self) -> Seq<BoundaryView> {
        match self {
            Case::Snake | Case::Constant | Case::UpperSnake | Case::Ada => seq![
                BoundaryView::Underscore,
            ],
            Case::Kebab | Case::Cobol | Case::UpperKebab | Case::Train => seq![
                BoundaryView::Hyphen,
            ],
            Case::Flat | Case::UpperFlat => Seq::empty(),
            Case::Pascal | Case::UpperCamel | Case::Camel => seq![
                BoundaryView::LowerUpper,
                BoundaryView::Acronym,
                BoundaryView::LowerDigit,
                BoundaryView::UpperDigit,
                BoundaryView::DigitLower,
                BoundaryView::DigitUpper,
            ],
            Case::Lower | Case::Upper | Case::Title | Case::Sentence | Case::Toggle
                | Case::Alternating => seq![BoundaryView::Space],
            Case::Custom { boundaries, .. } => bviews(boundaries@),
        }
    }

    /// The pattern this case applies to the words.
    pub open spec fn spec_pattern(self) -> Pattern {
        match self {
            Case::Snake | Case::Kebab | Case::Flat | Case::Lower => Pattern::Lowercase,
            Case::Constant | Case::UpperSnake | Case::Cobol | Case::UpperKebab | Case::UpperFlat
                | Case::Upper => Pattern::Uppercase,
            Case::Ada | Case::Train | Case::Pascal | Case::UpperCamel | Case::Title
                => Pattern::Capital,
            Case::Camel => Pattern::Camel,
            Case::Sentence => Pattern::Sentence,
            Case::Toggle => Pattern::Toggle,
            Case::Alternating => Pattern::Alternating,
            Case::Custom { pattern, .. } => pattern,
        }
    }

    /// The delimiter this case joins the words with.
    pub open spec fn spec_delim(self) -> Seq<char> {
        match self {
            Case::Snake | Case::Constant | Case::UpperSnake | Case::Ada => seq!['_'],
            Case::Kebab | Case::Cobol | Case::UpperKebab | Case::Train => seq!['-'],
            Case::Flat | Case::UpperFlat | Case::Pascal | Case::UpperCamel | Case::Camel
                => Seq::empty(),
            Case::Lower | Case::Upper | Case::Title | Case::Sentence | Case::Toggle
                | Case::Alternating => seq![' '],
            Case::Custom { delim, .. } => delim@,
        }
    }

    /// The boundary list of this case, as a fresh vector.
    pub fn boundaries(&self) -> (r: Vec<Boundary>)
        ensures
            bviews(r@) == self.spec_boundaries(),
    {
        match self {
            Case::Snake | Case::Constant | Case::UpperSnake | Case::Ada => {
                let r = vec![Boundary::Underscore];
                proof {
                    assert(bviews(r@) =~= self.spec_boundaries());
                }
                r
            },
            Case::Kebab | Case::Cobol | Case::UpperKebab | Case::Train => {
                let r = vec![Boundary::Hyphen];
                proof {
                    assert(bviews(r@) =~= self.spec_boundaries());
                }
                r
            },
            Case::Flat | Case::UpperFlat => {
                let r: Vec<Boundary> = Vec::new();
                proof {
                    assert(bviews(r@) =~= self.spec_boundaries());
                }
                r
            },
            Case::Pascal | Case::UpperCamel | Case::Camel => {
                let r = vec![
                    Boundary::LowerUpper,
                    Boundary::Acronym,
                    Boundary::LowerDigit,
                    Boundary::UpperDigit,
                    Boundary::DigitLower,
                    Boundary::DigitUpper,
                ];
                proof {
                    assert(bviews(r@) =~= self.spec_boundaries());
                }
                r
            },
            Case::Lower | Case::Upper | Case::Title | Case::Sentence | Case::Toggle
                | Case::Alternating => {
                let r = vec![Boundary::Space];
                proof {
                    assert(bviews(r@) =~= self.spec_boundaries());
                }
                r
            },
            Case::Custom { boundaries, .. } => {
                let n = boundaries.len();
                let mut r: Vec<Boundary> = Vec::new();
                let mut i: usize = 0;
                while i < n
                    invariant
                        i <= n,
                        n == boundaries@.len(),
                        r@.len() == i,
                        forall|k: int| 0 <= k < i ==> #[trigger] r@[k]@ == boundaries@[k]@,
                    decreases n - i,
                {
                    r.push(boundaries[i].copied());
                    i += 1;
                }
                proof {
                    assert(bviews(r@) =~= bviews(boundaries@));
                }
                r
            },
        }
    }

    /// The pattern of this case.
    pub fn pattern(&self) -> (r: Pattern)
        ensures
            r == self.spec_pattern(),
    {
        match self {
            Case::Snake | Case::Kebab | Case::Flat | Case::Lower => Pattern::Lowercase,
            Case::Constant | Case::UpperSnake | Case::Cobol | Case::UpperKebab | Case::UpperFlat
                | Case::Upper => Pattern::Uppercase,
            Case::Ada | Case::Train | Case::Pascal | Case::UpperCamel | Case::Title
                => Pattern::Capital,
            Case::Camel => Pattern::Camel,
            Case::Sentence => Pattern::Sentence,
            Case::Toggle => Pattern::Toggle,
            Case::Alternating => Pattern::Alternating,
            Case::Custom { pattern, .. } => *pattern,
        }
    }

    /// The delimiter of this case, as a fresh string.
    pub fn delim(&self) -> (r: String)
        ensures
            r@ == self.spec_delim(),
    {
        match self {
            Case::Snake | Case::Constant | Case::UpperSnake | Case::Ada => {
                let r = String::from_str("_");
                proof {
                    reveal_strlit("_");
                    assert(r@ =~= self.spec_delim());
                }
                r
            },
            Case::Kebab | Case::Cobol | Case::UpperKebab | Case::Train => {
                let r = String::from_str("-");
                proof {
                    reveal_strlit("-");
                    assert(r@ =~= self.spec_delim());
                }
                r
            },
            Case::Flat | Case::UpperFlat | Case::Pascal | Case::UpperCamel | Case::Camel => {
                let r = String::new();
                proof {
                    assert(r@ =~= self.spec_delim());
                }
                r
            },
            Case::Lower | Case::Upper | Case::Title | Case::Sentence | Case::Toggle
                | Case::Alternating => {
                let r = String::from_str(" ");
                proof {
                    reveal_strlit(" ");
                    assert(r@ =~= self.spec_delim());
                }
                r
            },
            Case::Custom { delim, .. } => delim.clone(),
        }
    }

    /// Builds a case from its three parts.
    pub fn custom(boundaries: Vec<Boundary>, pattern: Pattern, delim: String) -> (r: Case)
        ensures
            r.spec_boundaries() == bviews(boundaries@),
            r.spec_pattern() == pattern,
            r.spec_delim() == delim@,
    {
        Case::Custom { boundaries, pattern, delim }
    }
}

/// The deterministic built-in cases, in catalog order, aliases left out.
pub open spec fn deterministic_case_list() -> Seq<Case> {
    seq![
        Case::Snake,
        Case::Constant,
        Case::Ada,
        Case::Kebab,
        Case::Cobol,
        Case::Train,
        Case::Flat,
        Case::UpperFlat,
        Case::Pascal,
        Case::Camel,
        Case::Lower,
        Case::Upper,
        Case::Title,
        Case::Sentence,
        Case::Toggle,
        Case::Alternating,
    ]
}

/// Every built-in case, aliases too, in catalog order.
pub open spec fn all_case_list() -> Seq<Case> {
    seq![
        Case::Snake,
        Case::Constant,
        Case::UpperSnake,
        Case::Ada,
        Case::Kebab,
        Case::Cobol,
        Case::UpperKebab,
        Case::Train,
        Case::Flat,
        Case::UpperFlat,
        Case::Pascal,
        Case::UpperCamel,
        Case::Camel,
        Case::Lower,
        Case::Upper,
        Case::Title,
        Case::Sentence,
        Case::Toggle,
        Case::Alternating,
    ]
}

impl Case {
    /// The deterministic built-in cases, in catalog order.
    pub fn deterministic_cases() -> (r: Vec<Case>)
        ensures
            r@ == deterministic_case_list(),
    {
        let r = vec![
            Case::Snake,
            Case::Constant,
            Case::Ada,
            Case::Kebab,
            Case::Cobol,
            Case::Train,
            Case::Flat,
            Case::UpperFlat,
            Case::Pascal,
            Case::Camel,
            Case::Lower,
            Case::Upper,
            Case::Title,
            Case::Sentence,
            Case::Toggle,
            Case::Alternating,
        ];
        proof {
            assert(r@ =~= deterministic_case_list());
        }
        r
    }

    /// Every built-in case, aliases too, in catalog order.
    pub fn all_cases() -> (r: Vec<Case>)
        ensures
            r@ == all_case_list(),
    {
        let r = vec![
            Case::Snake,
            Case::Constant,
            Case::UpperSnake,
            Case::Ada,
            Case::Kebab,
            Case::Cobol,
            Case::UpperKebab,
            Case::Train,
            Case::Flat,
            Case::UpperFlat,
            Case::Pascal,
            Case::UpperCamel,
            Case::Camel,
            Case::Lower,
            Case::Upper,
            Case::Title,
            Case::Sentence,
            Case::Toggle,
            Case::Alternating,
        ];
        proof {
            assert(r@ =~= all_case_list());
        }
        r
    }
}

} // verus!
