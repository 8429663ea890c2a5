//! Patterns: how the letter casing of a word list is mutated.  A pattern
//! never adds or drops words; it only rewrites each word through the
//! per-character case mappings.

use vstd::prelude::*;
use crate::chars::{
    lower_char, upper_char, is_cased_char, char_to_lower, char_to_upper, char_is_upper,
    char_is_lower, chars_copy,
};
use crate::boundary::word_views;

verus! {

/// A casing rule applied to the word list as a whole.
#[derive(Clone, Copy, PartialEq, Eq, Hash, Debug)]
pub enum Pattern {
    /// Leaves every word as it is.
    Noop,
    /// Every character of every word lowercased.
    Lowercase,
    /// Every character of every word uppercased.
    Uppercase,
    /// First character of each word uppercased, the rest lowercased.
    Capital,
    /// First word lowercased; every later word capitalized.
    Camel,
    /// First character of each word lowercased, the rest uppercased.
    Toggle,
    /// First word capitalized; every later word lowercased.
    Sentence,
    /// Cased characters alternate lower/upper across the whole word list,
    /// uncased characters passing through unchanged.
    Alternating,
}

/// A single word with every character lowercased.
pub open spec fn lower_word(w: Seq<char>) -> Seq<char>
    decreases w.len(),
{
    if w.len() == 0 {
        Seq::empty()
    } else {
        lower_char(w[0]) + lower_word(w.drop_first())
    }
}

/// A single word with every character uppercased.
pub open spec fn upper_word(w: Seq<char>) -> Seq<char>
    decreases w.len(),
{
    if w.len() == 0 {
        Seq::empty()
    } else {
        upper_char(w[0]) + upper_word(w.drop_first())
    }
}

/// A single word with its first character uppercased and the rest
/// lowercased.
pub open spec fn capital_word(w: Seq<char>) -> Seq<char> {
    if w.len() == 0 {
        Seq::empty()
    } else {
        upper_char(w[0]) + lower_word(w.drop_first())
    }
}

/// A single word with its first character lowercased and the rest
/// uppercased.
pub open spec fn toggle_word(w: Seq<char>) -> Seq<char> {
    if w.len() == 0 {
        Seq::empty()
    } else {
        lower_char(w[0]) + upper_word(w.drop_first())
    }
}

/// How one word's characters are cased by a word-wise pattern.
#[derive(Clone, Copy, PartialEq, Eq, Debug)]
pub enum WordCasing {
    Lower,
    Upper,
    Capital,
    Toggle,
}

pub open spec fn cased_word(op: WordCasing, w: Seq<char>) -> Seq<char> {
    match op {
        WordCasing::Lower => lower_word(w),
        WordCasing::Upper => upper_word(w),
        WordCasing::Capital => capital_word(w),
        WordCasing::Toggle => toggle_word(w),
    }
}

/// The first word cased one way, every later word another way.
pub open spec fn two_op_words(first: WordCasing, rest: WordCasing, ws: Seq<Seq<char>>) -> Seq<
    Seq<char>,
> {
    if ws.len() == 0 {
        ws
    } else {
        seq![cased_word(first, ws[0])] + ws.drop_first().map_values(
            |w: Seq<char>| cased_word(rest, w),
        )
    }
}

/// One word under the alternating pattern, starting at parity `up`.
pub open spec fn alt_word(w: Seq<char>, up: bool) -> Seq<char>
    decreases w.len(),
{
    if w.len() == 0 {
        Seq::empty()
    } else if is_cased_char(w[0]) {
        (if up {
            upper_char(w[0])
        } else {
            lower_char(w[0])
        }) + alt_word(w.drop_first(), !up)
    } else {
        seq![w[0]] + alt_word(w.drop_first(), up)
    }
}

/// The parity after a word under the alternating pattern.
pub open spec fn alt_after(w: Seq<char>, up: bool) -> bool
    decreases w.len(),
{
    if w.len() == 0 {
        up
    } else if is_cased_char(w[0]) {
        alt_after(w.drop_first(), !up)
    } else {
        alt_after(w.drop_first(), up)
    }
}

/// The whole word list under the alternating pattern, the parity running
/// through the words in order.
pub open spec fn alt_words(ws: Seq<Seq<char>>, up: bool) -> Seq<Seq<char>>
    decreases ws.len(),
{
    if ws.len() == 0 {
        Seq::empty()
    } else {
        seq![alt_word(ws[0], up)] + alt_words(ws.drop_first(), alt_after(ws[0], up))
    }
}

/// What a pattern does to a word list.
pub open spec fn apply_pattern(p: Pattern, ws: Seq<Seq<char>>) -> Seq<Seq<char>> {
    match p {
        Pattern::Noop => ws,
        Pattern::Lowercase => two_op_words(WordCasing::Lower, WordCasing::Lower, ws),
        Pattern::Uppercase => two_op_words(WordCasing::Upper, WordCasing::Upper, ws),
        Pattern::Capital => two_op_words(WordCasing::Capital, WordCasing::Capital, ws),
        Pattern::Camel => two_op_words(WordCasing::Lower, WordCasing::Capital, ws),
        Pattern::Toggle => two_op_words(WordCasing::Toggle, WordCasing::Toggle, ws),
        Pattern::Sentence => two_op_words(WordCasing::Capital, WordCasing::Lower, ws),
        Pattern::Alternating => alt_words(ws, false),
    }
}

fn word_lower(w: &Vec<char>) -> (r: Vec<char>)
    ensures
        r@ == lower_word(w@),
{
    let n = w.len();
    let mut r: Vec<char> = Vec::new();
    let mut i: usize = 0;
    proof {
        assert(w@.skip(0) =~= w@);
        assert(r@ + lower_word(w@) =~= lower_word(w@));
    }
    while i < n
        invariant
            i <= n,
            n == w@.len(),
            lower_word(w@) == r@ + lower_word(w@.skip(i as int)),
        decreases n - i,
    {
        let mut piece = char_to_lower(w[i]);
        proof {
            assert(w@.skip(i as int)[0] == w@[i as int]);
            assert(w@.skip(i as int).drop_first() =~= w@.skip(i as int + 1));
            assert((r@ + piece@) + lower_word(w@.skip(i as int + 1)) =~= r@ + (lower_char(
                w@[i as int],
            ) + lower_word(w@.skip(i as int + 1))));
        }
        r.append(&mut piece);
        i += 1;
    }
    proof {
        assert(w@.skip(n as int) =~= Seq::<char>::empty());
        assert(r@ + lower_word(Seq::empty()) =~= r@);
    }
    r
}

fn word_upper(w: &Vec<char>) -> (r: Vec<char>)
    ensures
        r@ == upper_word(w@),
{
    let n = w.len();
    let mut r: Vec<char> = Vec::new();
    let mut i: usize = 0;
    proof {
        assert(w@.skip(0) =~= w@);
        assert(r@ + upper_word(w@) =~= upper_word(w@));
    }
    while i < n
        invariant
            i <= n,
            n == w@.len(),
            upper_word(w@) == r@ + upper_word(w@.skip(i as int)),
        decreases n - i,
    {
        let mut piece = char_to_upper(w[i]);
        proof {
            assert(w@.skip(i as int)[0] == w@[i as int]);
            assert(w@.skip(i as int).drop_first() =~= w@.skip(i as int + 1));
            assert((r@ + piece@) + upper_word(w@.skip(i as int + 1)) =~= r@ + (upper_char(
                w@[i as int],
            ) + upper_word(w@.skip(i as int + 1))));
        }
        r.append(&mut piece);
        i += 1;
    }
    proof {
        assert(w@.skip(n as int) =~= Seq::<char>::empty());
        assert(r@ + upper_word(Seq::empty()) =~= r@);
    }
    r
}

fn word_rest_lower(w: &Vec<char>, mut r: Vec<char>) -> (out: Vec<char>)
    requires
        w@.len() >= 1,
    ensures
        out@ == r@ + lower_word(w@.skip(1)),
{
    let ghost r0 = r@;
    let n = w.len();
    let mut i: usize = 1;
    proof {
        assert(r@ + lower_word(w@.skip(1)) =~= r0 + lower_word(w@.skip(1)));
    }
    while i < n
        invariant
            1 <= i <= n,
            n == w@.len(),
            r0 + lower_word(w@.skip(1)) == r@ + lower_word(w@.skip(i as int)),
        decreases n - i,
    {
        let mut piece = char_to_lower(w[i]);
        proof {
            assert(w@.skip(i as int)[0] == w@[i as int]);
            assert(w@.skip(i as int).drop_first() =~= w@.skip(i as int + 1));
            assert((r@ + piece@) + lower_word(w@.skip(i as int + 1)) =~= r@ + (lower_char(
                w@[i as int],
            ) + lower_word(w@.skip(i as int + 1))));
        }
        r.append(&mut piece);
        i += 1;
    }
    proof {
        assert(w@.skip(n as int) =~= Seq::<char>::empty());
        assert(r@ + lower_word(Seq::empty()) =~= r@);
    }
    r
}

fn word_rest_upper(w: &Vec<char>, mut r: Vec<char>) -> (out: Vec<char>)
    requires
        w@.len() >= 1,
    ensures
        out@ == r@ + upper_word(w@.skip(1)),
{
    let ghost r0 = r@;
    let n = w.len();
    let mut i: usize = 1;
    proof {
        assert(r@ + upper_word(w@.skip(1)) =~= r0 + upper_word(w@.skip(1)));
    }
    while i < n
        invariant
            1 <= i <= n,
            n == w@.len(),
            r0 + upper_word(w@.skip(1)) == r@ + upper_word(w@.skip(i as int)),
        decreases n - i,
    {
        let mut piece = char_to_upper(w[i]);
        proof {
            assert(w@.skip(i as int)[0] == w@[i as int]);
            assert(w@.skip(i as int).drop_first() =~= w@.skip(i as int + 1));
            assert((r@ + piece@) + upper_word(w@.skip(i as int + 1)) =~= r@ + (upper_char(
                w@[i as int],
            ) + upper_word(w@.skip(i as int + 1))));
        }
        r.append(&mut piece);
        i += 1;
    }
    proof {
        assert(w@.skip(n as int) =~= Seq::<char>::empty());
        assert(r@ + upper_word(Seq::empty()) =~= r@);
    }
    r
}

fn word_capital(w: &Vec<char>) -> (r: Vec<char>)
    ensures
        r@ == capital_word(w@),
{
    if w.len() == 0 {
        let r: Vec<char> = Vec::new();
        proof {
            assert(r@ =~= capital_word(w@));
        }
        return r;
    }
    let head = char_to_upper(w[0]);
    let r = word_rest_lower(w, head);
    proof {
        assert(w@.skip(1) =~= w@.drop_first());
    }
    r
}

fn word_toggle(w: &Vec<char>) -> (r: Vec<char>)
    ensures
        r@ == toggle_word(w@),
{
    if w.len() == 0 {
        let r: Vec<char> = Vec::new();
        proof {
            assert(r@ =~= toggle_word(w@));
        }
        return r;
    }
    let head = char_to_lower(w[0]);
    let r = word_rest_upper(w, head);
    proof {
        assert(w@.skip(1) =~= w@.drop_first());
    }
    r
}

fn word_cased(op: &WordCasing, w: &Vec<char>) -> (r: Vec<char>)
    ensures
        r@ == cased_word(*op, w@),
{
    match op {
        WordCasing::Lower => word_lower(w),
        WordCasing::Upper => word_upper(w),
        WordCasing::Capital => word_capital(w),
        WordCasing::Toggle => word_toggle(w),
    }
}

fn words_two_op(ws: &Vec<Vec<char>>, first: WordCasing, rest: WordCasing) -> (r: Vec<Vec<char>>)
    ensures
        word_views(r@) == two_op_words(first, rest, word_views(ws@)),
{
    let ghost wsv = word_views(ws@);
    let n = ws.len();
    let mut r: Vec<Vec<char>> = Vec::new();
    if n == 0 {
        proof {
            assert(word_views(r@) =~= two_op_words(first, rest, wsv));
        }
        return r;
    }
    r.push(word_cased(&first, &ws[0]));
    let mut i: usize = 1;
    while i < n
        invariant
            1 <= i <= n,
            n == ws@.len(),
            wsv == word_views(ws@),
            word_views(r@) =~= seq![cased_word(first, wsv[0])] + wsv.subrange(1, i as int).map_values(
                |w: Seq<char>| cased_word(rest, w),
            ),
        decreases n - i,
    {
        let ghost r0 = word_views(r@);
        r.push(word_cased(&rest, &ws[i]));
        proof {
            assert(word_views(r@) =~= r0.push(cased_word(rest, wsv[i as int])));
            assert(wsv.subrange(1, i as int + 1).map_values(|w: Seq<char>| cased_word(rest, w))
                =~= wsv.subrange(1, i as int).map_values(|w: Seq<char>| cased_word(rest, w)).push(
                cased_word(rest, wsv[i as int]),
            ));
            assert(word_views(r@) =~= seq![cased_word(first, wsv[0])] + wsv.subrange(
                1,
                i as int + 1,
            ).map_values(|w: Seq<char>| cased_word(rest, w)));
        }
        i += 1;
    }
    proof {
        assert(wsv.subrange(1, n as int) =~= wsv.drop_first());
        assert(word_views(r@) =~= two_op_words(first, rest, wsv));
    }
    r
}

fn word_alt(w: &Vec<char>, up0: bool) -> (r: (Vec<char>, bool))
    ensures
        r.0@ == alt_word(w@, up0),
        r.1 == alt_after(w@, up0),
{
    let n = w.len();
    let mut out: Vec<char> = Vec::new();
    let mut up = up0;
    let mut i: usize = 0;
    proof {
        assert(w@.skip(0) =~= w@);
        assert(out@ + alt_word(w@, up0) =~= alt_word(w@, up0));
    }
    while i < n
        invariant
            i <= n,
            n == w@.len(),
            alt_word(w@, up0) == out@ + alt_word(w@.skip(i as int), up),
            alt_after(w@, up0) == alt_after(w@.skip(i as int), up),
        decreases n - i,
    {
        let c = w[i];
        proof {
            assert(w@.skip(i as int)[0] == w@[i as int]);
            assert(w@.skip(i as int).drop_first() =~= w@.skip(i as int + 1));
        }
        let cased = char_is_upper(c) || char_is_lower(c);
        if cased {
            let mut piece = if up {
                char_to_upper(c)
            } else {
                char_to_lower(c)
            };
            proof {
                assert((out@ + piece@) + alt_word(w@.skip(i as int + 1), !up) =~= out@ + (piece@
                    + alt_word(w@.skip(i as int + 1), !up)));
            }
            out.append(&mut piece);
            up = !up;
        } else {
            out.push(c);
            proof {
                assert(out@ + alt_word(w@.skip(i as int + 1), up) =~= out@.drop_last() + (seq![c]
                    + alt_word(w@.skip(i as int + 1), up)));
            }
        }
        i += 1;
    }
    proof {
        assert(w@.skip(n as int) =~= Seq::<char>::empty());
        assert(out@ + alt_word(Seq::empty(), up) =~= out@);
    }
    (out, up)
}

fn words_alt(ws: &Vec<Vec<char>>) -> (r: Vec<Vec<char>>)
    ensures
        word_views(r@) == alt_words(word_views(ws@), false),
{
    let ghost wsv = word_views(ws@);
    let n = ws.len();
    let mut r: Vec<Vec<char>> = Vec::new();
    let mut up = false;
    let mut i: usize = 0;
    proof {
        assert(wsv.skip(0) =~= wsv);
        assert(word_views(r@) + alt_words(wsv, false) =~= alt_words(wsv, false));
    }
    while i < n
        invariant
            i <= n,
            n == ws@.len(),
            wsv == word_views(ws@),
            alt_words(wsv, false) == word_views(r@) + alt_words(wsv.skip(i as int), up),
        decreases n - i,
    {
        let ghost r0 = word_views(r@);
        let ghost up_before: bool = up;
        let (w, up2) = word_alt(&ws[i], up);
        proof {
            assert(ws@[i as int]@ == wsv[i as int]);
            assert(wsv.skip(i as int)[0] == wsv[i as int]);
            assert(wsv.skip(i as int).drop_first() =~= wsv.skip(i as int + 1));
        }
        r.push(w);
        up = up2;
        proof {
            assert(word_views(r@) =~= r0.push(alt_word(wsv[i as int], up_before)));
            assert(r0 + (seq![alt_word(wsv[i as int], up_before)] + alt_words(
                wsv.skip(i as int + 1),
                alt_after(wsv[i as int], up_before),
            )) =~= word_views(r@) + alt_words(wsv.skip(i as int + 1), up2));
        }
        i += 1;
    }
    proof {
        assert(wsv.skip(n as int) =~= Seq::<Seq<char>>::empty());
        assert(word_views(r@) + alt_words(Seq::empty(), up) =~= word_views(r@));
    }
    r
}

fn words_copy(ws: &Vec<Vec<char>>) -> (r: Vec<Vec<char>>)
    ensures
        word_views(r@) == word_views(ws@),
{
    let n = ws.len();
    let mut r: Vec<Vec<char>> = Vec::new();
    let mut i: usize = 0;
    while i < n
        invariant
            i <= n,
            n == ws@.len(),
            r@.len() == i,
            forall|k: int| 0 <= k < i ==> #[trigger] r@[k]@ == ws@[k]@,
        decreases n - i,
    {
        r.push(chars_copy(&ws[i]));
        i += 1;
    }
    proof {
        assert(word_views(r@) =~= word_views(ws@));
    }
    r
}

/// Applies a pattern to a word list.
pub(crate) fn apply_to_words(p: &Pattern, ws: &Vec<Vec<char>>) -> (r: Vec<Vec<char>>)
    ensures
        word_views(r@) == apply_pattern(*p, word_views(ws@)),
{
    match p {
        Pattern::Noop => words_copy(ws),
        Pattern::Lowercase => words_two_op(ws, WordCasing::Lower, WordCasing::Lower),
        Pattern::Uppercase => words_two_op(ws, WordCasing::Upper, WordCasing::Upper),
        Pattern::Capital => words_two_op(ws, WordCasing::Capital, WordCasing::Capital),
        Pattern::Camel => words_two_op(ws, WordCasing::Lower, WordCasing::Capital),
        Pattern::Toggle => words_two_op(ws, WordCasing::Toggle, WordCasing::Toggle),
        Pattern::Sentence => words_two_op(ws, WordCasing::Capital, WordCasing::Lower),
        Pattern::Alternating => words_alt(ws),
    }
}

} // verus!
