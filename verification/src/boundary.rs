//! Word boundaries and the splitter: where an identifier is cut into words,
//! and how many characters each cut removes.

use vstd::prelude::*;
use crate::chars::{
    is_upper_char, is_lower_char, is_ascii_digit_char,
    char_is_upper, char_is_lower, char_is_ascii_digit, chars_copy, chars_eq, str_chars,
    chars_string,
};

verus! {

/// A rule that cuts an identifier into words.  Delimiter boundaries remove
/// the matched text; transition boundaries cut between two characters and
/// remove nothing.
#[derive(Clone, PartialEq, Eq, Hash, Debug)]
pub enum Boundary {
    /// Splits on `_`, removing it.
    Underscore,
    /// Splits on `-`, removing it.
    Hyphen,
    /// Splits on a space, removing it.
    Space,
    /// Splits between a lowercase and an uppercase letter, as in `aA`.
    LowerUpper,
    /// Splits a run of two or more uppercase letters right before the last
    /// one when it starts a capitalized word, as in `HTTPRequest`.
    Acronym,
    /// Splits between a lowercase letter and an ASCII digit.
    LowerDigit,
    /// Splits between an uppercase letter and an ASCII digit.
    UpperDigit,
    /// Splits between an ASCII digit and a lowercase letter.
    DigitLower,
    /// Splits between an ASCII digit and an uppercase letter.
    DigitUpper,
    /// Splits on the given literal text, removing it.
    Delim(Vec<char>),
}

/// The mathematical value of a [`Boundary`]: the same shape, with the
/// delimiter text as a sequence.
#[verifier::ext_equal]
pub enum BoundaryView {
    Underscore,
    Hyphen,
    Space,
    LowerUpper,
    Acronym,
    LowerDigit,
    UpperDigit,
    DigitLower,
    DigitUpper,
    Delim(Seq<char>),
}

impl View for Boundary {
    type V = BoundaryView;

    open spec fn view(&self) -> BoundaryView {
        match self {
            Boundary::Underscore => BoundaryView::Underscore,
            Boundary::Hyphen => BoundaryView::Hyphen,
            Boundary::Space => BoundaryView::Space,
            Boundary::LowerUpper => BoundaryView::LowerUpper,
            Boundary::Acronym => BoundaryView::Acronym,
            Boundary::LowerDigit => BoundaryView::LowerDigit,
            Boundary::UpperDigit => BoundaryView::UpperDigit,
            Boundary::DigitLower => BoundaryView::DigitLower,
            Boundary::DigitUpper => BoundaryView::DigitUpper,
            Boundary::Delim(d) => BoundaryView::Delim(d@),
        }
    }
}

/// The views of a list of boundaries.
pub open spec fn bviews(bs: Seq<Boundary>) -> Seq<BoundaryView> {
    bs.map_values(|b: Boundary| b@)
}

/// The views of a list of words.
pub open spec fn word_views(ws: Seq<Vec<char>>) -> Seq<Seq<char>> {
    ws.map_values(|w: Vec<char>| w@)
}

impl BoundaryView {
    /// Whether this boundary matches on (and removes) literal text.
    pub open spec fn is_delim(self) -> bool {
        match self {
            BoundaryView::Underscore => true,
            BoundaryView::Hyphen => true,
            BoundaryView::Space => true,
            BoundaryView::Delim(_) => true,
            _ => false,
        }
    }

    /// The literal text this boundary removes at a cut; empty for
    /// transition boundaries.
    pub open spec fn removed_text(self) -> Seq<char> {
        match self {
            BoundaryView::Underscore => seq!['_'],
            BoundaryView::Hyphen => seq!['-'],
            BoundaryView::Space => seq![' '],
            BoundaryView::Delim(d) => d,
            _ => Seq::empty(),
        }
    }

    /// How many characters of the match still belong to the current word:
    /// none for a delimiter, one for a transition cut after its first
    /// character.
    pub open spec fn keep_count(self) -> int {
        if self.is_delim() {
            0
        } else {
            1
        }
    }

    /// How many characters the scan advances past when this boundary fires.
    pub open spec fn skip_count(self) -> int {
        self.keep_count() + self.removed_text().len()
    }

    /// Whether this boundary matches at the front of the remaining input.
    pub open spec fn fires(self, cs: Seq<char>) -> bool {
        match self {
            BoundaryView::Underscore => cs.len() >= 1 && cs[0] == '_',
            BoundaryView::Hyphen => cs.len() >= 1 && cs[0] == '-',
            BoundaryView::Space => cs.len() >= 1 && cs[0] == ' ',
            BoundaryView::LowerUpper => cs.len() >= 2 && is_lower_char(cs[0]) && is_upper_char(
                cs[1],
            ),
            BoundaryView::Acronym => cs.len() >= 3 && is_upper_char(cs[0]) && is_upper_char(cs[1])
                && is_lower_char(cs[2]),
            BoundaryView::LowerDigit => cs.len() >= 2 && is_lower_char(cs[0])
                && is_ascii_digit_char(cs[1]),
            BoundaryView::UpperDigit => cs.len() >= 2 && is_upper_char(cs[0])
                && is_ascii_digit_char(cs[1]),
            BoundaryView::DigitLower => cs.len() >= 2 && is_ascii_digit_char(cs[0])
                && is_lower_char(cs[1]),
            BoundaryView::DigitUpper => cs.len() >= 2 && is_ascii_digit_char(cs[0])
                && is_upper_char(cs[1]),
            BoundaryView::Delim(d) => 1 <= d.len() && d.len() <= cs.len() && cs.take(
                d.len() as int,
            ) == d,
        }
    }
}

/// The first boundary in the list that fires at the front of `cs`.
pub open spec fn first_fire(bs: Seq<BoundaryView>, cs: Seq<char>) -> Option<BoundaryView>
    decreases bs.len(),
{
    if bs.len() == 0 {
        Option::None
    } else if bs[0].fires(cs) {
        Option::Some(bs[0])
    } else {
        first_fire(bs.drop_first(), cs)
    }
}

/// One left-to-right scan: words as they fall out of the boundary cuts,
/// empty words from adjacent or outer delimiters still present.
pub open spec fn split_rec(bs: Seq<BoundaryView>, cs: Seq<char>, cur: Seq<char>) -> Seq<Seq<char>>
    decreases cs.len(),
{
    if cs.len() == 0 {
        seq![cur]
    } else {
        match first_fire(bs, cs) {
            Option::Some(b) => {
                let skip = if 1 <= b.skip_count() && b.skip_count() <= cs.len() {
                    b.skip_count()
                } else {
                    cs.len() as int
                };
                seq![cur + cs.take(b.keep_count())] + split_rec(bs, cs.skip(skip), Seq::empty())
            },
            Option::None => split_rec(bs, cs.drop_first(), cur.push(cs[0])),
        }
    }
}

/// The non-empty words of a scan, in order.
pub open spec fn keep_nonempty(ws: Seq<Seq<char>>) -> Seq<Seq<char>>
    decreases ws.len(),
{
    if ws.len() == 0 {
        Seq::empty()
    } else if ws[0].len() > 0 {
        seq![ws[0]] + keep_nonempty(ws.drop_first())
    } else {
        keep_nonempty(ws.drop_first())
    }
}

/// The words of `cs` under the boundary list `bs`: the scan's words with
/// the empty ones (leading, trailing, or doubled delimiters) dropped.
pub open spec fn split_words(bs: Seq<BoundaryView>, cs: Seq<char>) -> Seq<Seq<char>> {
    keep_nonempty(split_rec(bs, cs, Seq::empty()))
}

pub broadcast proof fn lemma_keep_nonempty_add(a: Seq<Seq<char>>, b: Seq<Seq<char>>)
    ensures
        #[trigger] keep_nonempty(a + b) == keep_nonempty(a) + keep_nonempty(b),
    decreases a.len(),
{
    if a.len() == 0 {
        assert(a + b =~= b);
        assert(keep_nonempty(a) + keep_nonempty(b) =~= keep_nonempty(b));
    } else {
        assert((a + b).drop_first() =~= a.drop_first() + b);
        assert((a + b)[0] == a[0]);
        lemma_keep_nonempty_add(a.drop_first(), b);
        if a[0].len() > 0 {
            assert(seq![a[0]] + (keep_nonempty(a.drop_first()) + keep_nonempty(b)) =~= (seq![a[0]]
                + keep_nonempty(a.drop_first())) + keep_nonempty(b));
        }
    }
}

pub proof fn lemma_keep_nonempty_one(w: Seq<char>)
    ensures
        w.len() > 0 ==> keep_nonempty(seq![w]) == seq![w],
        w.len() == 0 ==> keep_nonempty(seq![w]) == Seq::<Seq<char>>::empty(),
{
    reveal_with_fuel(keep_nonempty, 2);
    assert(seq![w].drop_first() =~= Seq::<Seq<char>>::empty());
    if w.len() > 0 {
        assert(keep_nonempty(seq![w]) =~= seq![w] + keep_nonempty(Seq::<Seq<char>>::empty()));
        assert(seq![w] + keep_nonempty(Seq::<Seq<char>>::empty()) =~= seq![w]);
    }
}

proof fn lemma_fire_bounds(b: BoundaryView, cs: Seq<char>)
    requires
        b.fires(cs),
    ensures
        1 <= b.skip_count(),
        b.skip_count() <= cs.len(),
        b.keep_count() <= b.skip_count(),
{
}

impl Boundary {
    /// A boundary that splits on the given literal text and removes it.
    pub fn from_delim(d: &str) -> (r: Boundary)
        requires
            d@.len() >= 1,
        ensures
            r@ == BoundaryView::Delim(d@),
    {
        Boundary::Delim(str_chars(d))
    }

    /// A fresh boundary with the same value.
    pub fn copied(&self) -> (r: Boundary)
        ensures
            r@ == self@,
    {
        match self {
            Boundary::Underscore => Boundary::Underscore,
            Boundary::Hyphen => Boundary::Hyphen,
            Boundary::Space => Boundary::Space,
            Boundary::LowerUpper => Boundary::LowerUpper,
            Boundary::Acronym => Boundary::Acronym,
            Boundary::LowerDigit => Boundary::LowerDigit,
            Boundary::UpperDigit => Boundary::UpperDigit,
            Boundary::DigitLower => Boundary::DigitLower,
            Boundary::DigitUpper => Boundary::DigitUpper,
            Boundary::Delim(d) => Boundary::Delim(chars_copy(d)),
        }
    }

    /// Whether two boundaries are the same rule with the same text.
    pub fn same_as(&self, other: &Boundary) -> (r: bool)
        ensures
            r == (self@ == other@),
    {
        match (self, other) {
            (Boundary::Underscore, Boundary::Underscore) => true,
            (Boundary::Hyphen, Boundary::Hyphen) => true,
            (Boundary::Space, Boundary::Space) => true,
            (Boundary::LowerUpper, Boundary::LowerUpper) => true,
            (Boundary::Acronym, Boundary::Acronym) => true,
            (Boundary::LowerDigit, Boundary::LowerDigit) => true,
            (Boundary::UpperDigit, Boundary::UpperDigit) => true,
            (Boundary::DigitLower, Boundary::DigitLower) => true,
            (Boundary::DigitUpper, Boundary::DigitUpper) => true,
            (Boundary::Delim(a), Boundary::Delim(b)) => {
                let r = chars_eq(a, b);
                proof {
                    if a@ == b@ {
                        assert(self@ =~= other@);
                    }
                }
                r
            },
            _ => false,
        }
    }

    /// The boundary list used when no case or boundary set is chosen.
    pub fn defaults() -> (r: Vec<Boundary>)
        ensures
            bviews(r@) == default_bviews(),
    {
        let r = vec![
            Boundary::Underscore,
            Boundary::Hyphen,
            Boundary::Space,
            Boundary::LowerUpper,
            Boundary::Acronym,
            Boundary::LowerDigit,
            Boundary::UpperDigit,
            Boundary::DigitLower,
            Boundary::DigitUpper,
        ];
        proof {
            assert(bviews(r@) =~= default_bviews());
        }
        r
    }

    /// The four digit/letter transition boundaries.
    pub fn digits() -> (r: Vec<Boundary>)
        ensures
            bviews(r@) == digit_bviews(),
    {
        let r = vec![
            Boundary::LowerDigit,
            Boundary::UpperDigit,
            Boundary::DigitLower,
            Boundary::DigitUpper,
        ];
        proof {
            assert(bviews(r@) =~= digit_bviews());
        }
        r
    }
}

/// The default boundary list: the three common delimiters, the
/// lower-to-upper and acronym cuts, and the four digit transitions.
pub open spec fn default_bviews() -> Seq<BoundaryView> {
    seq![
        BoundaryView::Underscore,
        BoundaryView::Hyphen,
        BoundaryView::Space,
        BoundaryView::LowerUpper,
        BoundaryView::Acronym,
        BoundaryView::LowerDigit,
        BoundaryView::UpperDigit,
        BoundaryView::DigitLower,
        BoundaryView::DigitUpper,
    ]
}

/// The four digit/letter transition boundaries.
pub open spec fn digit_bviews() -> Seq<BoundaryView> {
    seq![
        BoundaryView::LowerDigit,
        BoundaryView::UpperDigit,
        BoundaryView::DigitLower,
        BoundaryView::DigitUpper,
    ]
}

fn fires_at(b: &Boundary, cs: &Vec<char>, i: usize) -> (r: bool)
    requires
        i <= cs@.len(),
    ensures
        r == b@.fires(cs@.skip(i as int)),
{
    let n = cs.len();
    let rem = n - i;
    proof {
        assert(cs@.skip(i as int).len() == rem);
        assert(forall|t: int|
            0 <= t < rem ==> #[trigger] cs@.skip(i as int)[t] == cs@[i as int + t]);
    }
    match b {
        Boundary::Underscore => rem >= 1 && cs[i] == '_',
        Boundary::Hyphen => rem >= 1 && cs[i] == '-',
        Boundary::Space => rem >= 1 && cs[i] == ' ',
        Boundary::LowerUpper => rem >= 2 && char_is_lower(cs[i]) && char_is_upper(cs[i + 1]),
        Boundary::Acronym => rem >= 3 && char_is_upper(cs[i]) && char_is_upper(cs[i + 1])
            && char_is_lower(cs[i + 2]),
        Boundary::LowerDigit => rem >= 2 && char_is_lower(cs[i]) && char_is_ascii_digit(cs[i + 1]),
        Boundary::UpperDigit => rem >= 2 && char_is_upper(cs[i]) && char_is_ascii_digit(cs[i + 1]),
        Boundary::DigitLower => rem >= 2 && char_is_ascii_digit(cs[i]) && char_is_lower(cs[i + 1]),
        Boundary::DigitUpper => rem >= 2 && char_is_ascii_digit(cs[i]) && char_is_upper(cs[i + 1]),
        Boundary::Delim(d) => {
            let dl = d.len();
            if dl < 1 || dl > rem {
                false
            } else {
                let mut k: usize = 0;
                while k < dl
                    invariant
                        k <= dl,
                        b@ == BoundaryView::Delim(d@),
                        dl == d@.len(),
                        1 <= dl,
                        dl <= rem,
                        n == cs@.len(),
                        i + dl <= n,
                        rem == cs@.len() - i,
                        forall|t: int| 0 <= t < k ==> cs@[i + t] == d@[t],
                        forall|t: int|
                            0 <= t < rem ==> #[trigger] cs@.skip(i as int)[t] == cs@[i as int + t],
                    decreases dl - k,
                {
                    if cs[i + k] != d[k] {
                        proof {
                            assert(cs@.skip(i as int).take(dl as int)[k as int] == cs@[i + k]);
                            assert(cs@.skip(i as int).take(dl as int) != d@);
                        }
                        return false;
                    }
                    k += 1;
                }
                proof {
                    assert(cs@.skip(i as int).take(dl as int) =~= d@);
                }
                true
            }
        },
    }
}

fn find_fire(bs: &[Boundary], cs: &Vec<char>, i: usize) -> (r: Option<usize>)
    requires
        i <= cs@.len(),
    ensures
        match r {
            Option::Some(j) => j < bs@.len() && bs@[j as int]@.fires(cs@.skip(i as int))
                && first_fire(bviews(bs@), cs@.skip(i as int)) == Option::Some(bs@[j as int]@),
            Option::None => first_fire(bviews(bs@), cs@.skip(i as int)) is None,
        },
{
    let n = bs.len();
    let mut j: usize = 0;
    proof {
        assert(bviews(bs@).skip(0) =~= bviews(bs@));
    }
    while j < n
        invariant
            j <= n,
            n == bs@.len(),
            i <= cs@.len(),
            first_fire(bviews(bs@), cs@.skip(i as int)) == first_fire(
                bviews(bs@).skip(j as int),
                cs@.skip(i as int),
            ),
        decreases n - j,
    {
        proof {
            assert(bviews(bs@).skip(j as int)[0] == bs@[j as int]@);
        }
        if fires_at(&bs[j], cs, i) {
            return Option::Some(j);
        }
        proof {
            assert(bviews(bs@).skip(j as int).drop_first() =~= bviews(bs@).skip(j as int + 1));
        }
        j += 1;
    }
    proof {
        assert(bviews(bs@).skip(n as int) =~= Seq::<BoundaryView>::empty());
    }
    Option::None
}

fn cut_counts(b: &Boundary) -> (r: (usize, usize))
    ensures
        r.0 as int == b@.keep_count(),
        r.1 as int == b@.skip_count(),
{
    match b {
        Boundary::Underscore => (0, 1),
        Boundary::Hyphen => (0, 1),
        Boundary::Space => (0, 1),
        Boundary::Delim(d) => (0, d.len()),
        _ => (1, 1),
    }
}

/// Splits a character sequence into its non-empty words.
pub(crate) fn split_chars(cs: &Vec<char>, bs: &[Boundary]) -> (r: Vec<Vec<char>>)
    ensures
        word_views(r@) == split_words(bviews(bs@), cs@),
{
    let ghost bsv = bviews(bs@);
    let n = cs.len();
    let mut out: Vec<Vec<char>> = Vec::new();
    let mut cur: Vec<char> = Vec::new();
    let mut i: usize = 0;
    proof {
        assert(cs@.skip(0) =~= cs@);
        assert(word_views(out@) + keep_nonempty(split_rec(bsv, cs@, cur@)) =~= keep_nonempty(
            split_rec(bsv, cs@, cur@),
        ));
    }
    while i < n
        invariant
            i <= n,
            n == cs@.len(),
            bsv == bviews(bs@),
            split_words(bsv, cs@) == word_views(out@) + keep_nonempty(
                split_rec(bsv, cs@.skip(i as int), cur@),
            ),
        decreases n - i,
    {
        let ghost sfx = cs@.skip(i as int);
        assert(sfx.len() == n - i);
        match find_fire(bs, cs, i) {
            Option::Some(j) => {
                let ghost b = bs@[j as int]@;
                proof {
                    lemma_fire_bounds(b, sfx);
                }
                let (keep, skip) = cut_counts(&bs[j]);
                let ghost cur0 = cur@;
                if keep == 1 {
                    cur.push(cs[i]);
                    proof {
                        assert(sfx.take(1)[0] == sfx[0]);
                        assert(sfx[0] == cs@[i as int]);
                        assert(cur@ =~= cur0 + sfx.take(b.keep_count()));
                    }
                } else {
                    proof {
                        assert(cur@ =~= cur0 + sfx.take(0));
                    }
                }
                let w = cur;
                cur = Vec::new();
                let ghost out0 = word_views(out@);
                proof {
                    lemma_keep_nonempty_one(w@);
                }
                if w.len() > 0 {
                    out.push(w);
                    proof {
                        assert(word_views(out@) =~= out0.push(w@));
                    }
                }
                proof {
                    assert(split_rec(bsv, sfx, cur0) == seq![w@] + split_rec(
                        bsv,
                        sfx.skip(b.skip_count()),
                        Seq::empty(),
                    ));
                    lemma_keep_nonempty_add(seq![w@], split_rec(bsv, sfx.skip(b.skip_count()), Seq::empty()));
                    assert(sfx.skip(b.skip_count()) =~= cs@.skip(i as int + b.skip_count()));
                    assert(word_views(out@) + keep_nonempty(
                        split_rec(bsv, cs@.skip(i as int + b.skip_count()), Seq::<char>::empty()),
                    ) =~= out0 + keep_nonempty(split_rec(bsv, sfx, cur0)));
                    assert(i + skip <= n);
                }
                i += skip;
            },
            Option::None => {
                let c = cs[i];
                let ghost cur0 = cur@;
                cur.push(c);
                proof {
                    assert(sfx[0] == cs@[i as int]);
                    assert(sfx.drop_first() =~= cs@.skip(i as int + 1));
                    assert(cur@ =~= cur0.push(sfx[0]));
                    assert(split_rec(bsv, sfx, cur0) == split_rec(
                        bsv,
                        cs@.skip(i as int + 1),
                        cur@,
                    ));
                }
                i += 1;
            },
        }
    }
    proof {
        assert(cs@.skip(n as int) =~= Seq::<char>::empty());
        assert(split_rec(bsv, Seq::empty(), cur@) == seq![cur@]);
    }
    let ghost out0 = word_views(out@);
    proof {
        lemma_keep_nonempty_one(cur@);
    }
    if cur.len() > 0 {
        let w = cur;
        out.push(w);
        proof {
            assert(word_views(out@) =~= out0.push(w@));
            assert(out0 + keep_nonempty(seq![w@]) =~= word_views(out@));
        }
    } else {
        proof {
            assert(out0 + keep_nonempty(seq![cur@]) =~= out0);
        }
    }
    out
}

/// Splits an identifier into its words, using the given boundaries.
pub fn split(s: &str, boundaries: &[Boundary]) -> (r: Vec<String>)
    ensures
        r@.map_values(|w: String| w@) == split_words(bviews(boundaries@), s@),
{
    let cs = str_chars(s);
    let words = split_chars(&cs, boundaries);
    let n = words.len();
    let mut r: Vec<String> = Vec::new();
    let mut i: usize = 0;
    while i < n
        invariant
            i <= n,
            n == words@.len(),
            r@.len() == i,
            forall|k: int| 0 <= k < i ==> #[trigger] r@[k]@ == words@[k]@,
        decreases n - i,
    {
        r.push(chars_string(&words[i]));
        i += 1;
    }
    proof {
        assert(r@.map_values(|w: String| w@) =~= word_views(words@));
    }
    r
}

} // verus!
