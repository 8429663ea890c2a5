//! Laws of the conversion pipeline, proved once over the specification:
//! the empty input always converts to the empty output; splitting never
//! yields an empty word; an input that matches no boundary is one word;
//! and re-converting an already-converted string through the same case is
//! a fixed point, for every built-in deterministic case, on ASCII input
//! (for the camel-style cases, under the word shapes that survive a
//! round trip).

use vstd::prelude::*;
use crate::boundary::{
    BoundaryView, first_fire, split_rec, split_words, keep_nonempty, lemma_keep_nonempty_add,
    lemma_keep_nonempty_one,
};
use crate::case::Case;
use crate::chars::{
    all_ascii, ascii_to_lower, ascii_to_upper, is_ascii_char, is_ascii_digit_char,
    is_ascii_lower_char, is_ascii_upper_char, is_cased_char, is_upper_char,
};
use crate::converter::{convert_spec, join_words};
use crate::pattern::{
    Pattern, WordCasing, alt_after, alt_word, alt_words, apply_pattern, capital_word, cased_word,
    lower_word, toggle_word, two_op_words, upper_word,
};

verus! {

/// Law: the empty input converts to the empty output, whatever the
/// boundaries, the pattern, and the delimiter.
pub proof fn lemma_empty_input(bs: Seq<BoundaryView>, p: Pattern, d: Seq<char>)
    ensures
        convert_spec(bs, p, d, Seq::empty()) == Seq::<char>::empty(),
{
    let e = Seq::<char>::empty();
    assert(split_rec(bs, e, e) == seq![e]);
    lemma_keep_nonempty_one(e);
    assert(split_words(bs, e) == Seq::<Seq<char>>::empty());
    let ws = Seq::<Seq<char>>::empty();
    assert(apply_pattern(p, ws) =~= ws);
    assert(join_words(ws, d) == Seq::<char>::empty());
}

/// Law: every (from_case, to_case) pair maps the empty string to the
/// empty string.
pub proof fn lemma_empty_for_case_pair(from: Case, to: Case)
    ensures
        convert_spec(
            from.spec_boundaries(),
            to.spec_pattern(),
            to.spec_delim(),
            Seq::empty(),
        ) == Seq::<char>::empty(),
{
    lemma_empty_input(from.spec_boundaries(), to.spec_pattern(), to.spec_delim());
}

/// A boundary that cuts on exactly the one-character text `dc`, removing
/// it: one of the built-in delimiters, or `Delim` of a single character.
pub open spec fn single_delim(b: BoundaryView, dc: char) -> bool {
    b.is_delim() && b.removed_text() == seq![dc]
}

/// An ASCII delimiter character that no ASCII case mapping produces or
/// changes: not a letter.
pub open spec fn neutral_delim(dc: char) -> bool {
    is_ascii_char(dc) && !is_ascii_upper_char(dc) && !is_ascii_lower_char(dc)
}

/// No character of `w` is `dc`.
pub open spec fn free_of(w: Seq<char>, dc: char) -> bool {
    forall|i: int| 0 <= i < w.len() ==> w[i] != dc
}

/// Every word non-empty, delimiter-free, and ASCII.
pub open spec fn words_clean(ws: Seq<Seq<char>>, dc: char) -> bool {
    &&& forall|k: int| 0 <= k < ws.len() ==> (#[trigger] ws[k]).len() > 0
    &&& forall|k: int| 0 <= k < ws.len() ==> free_of(#[trigger] ws[k], dc)
    &&& forall|k: int| 0 <= k < ws.len() ==> all_ascii(#[trigger] ws[k])
}

proof fn lemma_single_delim_fires(b: BoundaryView, dc: char, cs: Seq<char>)
    requires
        single_delim(b, dc),
    ensures
        b.fires(cs) <==> (cs.len() >= 1 && cs[0] == dc),
{
    assert(b.removed_text()[0] == dc);
    if cs.len() >= 1 && cs[0] == dc {
        assert(cs.take(1) =~= seq![dc]);
    }
    if cs.len() >= 1 && b.fires(cs) {
        assert(cs.take(1)[0] == cs[0]);
    }
}

proof fn lemma_first_fire_single(b: BoundaryView, cs: Seq<char>)
    ensures
        b.fires(cs) ==> first_fire(seq![b], cs) == Option::Some(b),
        !b.fires(cs) ==> first_fire(seq![b], cs) is None,
{
    reveal_with_fuel(first_fire, 2);
    assert(seq![b][0] == b);
    assert(seq![b].drop_first() =~= Seq::<BoundaryView>::empty());
}

proof fn lemma_scan_clean(b: BoundaryView, dc: char, w: Seq<char>, tail: Seq<char>, cur: Seq<char>)
    requires
        single_delim(b, dc),
        free_of(w, dc),
    ensures
        split_rec(seq![b], w + tail, cur) == split_rec(seq![b], tail, cur + w),
    decreases w.len(),
{
    if w.len() == 0 {
        assert(w + tail =~= tail);
        assert(cur + w =~= cur);
    } else {
        let cs = w + tail;
        assert(cs[0] == w[0]);
        lemma_single_delim_fires(b, dc, cs);
        lemma_first_fire_single(b, cs);
        assert(split_rec(seq![b], cs, cur) == split_rec(seq![b], cs.drop_first(), cur.push(cs[0])));
        assert(cs.drop_first() =~= w.drop_first() + tail);
        assert(free_of(w.drop_first(), dc)) by {
            assert(forall|i: int| 0 <= i < w.len() - 1 ==> w.drop_first()[i] == w[i + 1]);
        }
        lemma_scan_clean(b, dc, w.drop_first(), tail, cur.push(w[0]));
        assert(cur.push(w[0]) + w.drop_first() =~= cur + w);
    }
}

proof fn lemma_split_join(b: BoundaryView, dc: char, ws: Seq<Seq<char>>)
    requires
        single_delim(b, dc),
        words_clean(ws, dc),
    ensures
        split_words(seq![b], join_words(ws, seq![dc])) == ws,
    decreases ws.len(),
{
    let bs = seq![b];
    let d = seq![dc];
    let e = Seq::<char>::empty();
    if ws.len() == 0 {
        assert(join_words(ws, d) == e);
        assert(split_rec(bs, e, e) == seq![e]);
        lemma_keep_nonempty_one(e);
        assert(split_words(bs, e) =~= ws);
    } else if ws.len() == 1 {
        assert(join_words(ws, d) == ws[0]);
        assert(ws[0] + e =~= ws[0]);
        assert(e + ws[0] =~= ws[0]);
        lemma_scan_clean(b, dc, ws[0], e, e);
        assert(split_rec(bs, ws[0], e) == split_rec(bs, e, ws[0]));
        assert(split_rec(bs, e, ws[0]) == seq![ws[0]]);
        lemma_keep_nonempty_one(ws[0]);
        assert(split_words(bs, ws[0]) =~= ws);
    } else {
        let rest = ws.drop_first();
        let jrest = join_words(rest, d);
        let cs2 = d + jrest;
        assert(join_words(ws, d) == ws[0] + d + jrest);
        assert(ws[0] + d + jrest =~= ws[0] + cs2);
        lemma_scan_clean(b, dc, ws[0], cs2, e);
        assert(e + ws[0] =~= ws[0]);
        assert(split_rec(bs, ws[0] + cs2, e) == split_rec(bs, cs2, ws[0]));
        assert(cs2[0] == dc);
        lemma_single_delim_fires(b, dc, cs2);
        lemma_first_fire_single(b, cs2);
        assert(b.keep_count() == 0);
        assert(b.skip_count() == 1);
        assert(split_rec(bs, cs2, ws[0]) == seq![ws[0] + cs2.take(0)] + split_rec(
            bs,
            cs2.skip(1),
            e,
        ));
        assert(ws[0] + cs2.take(0) =~= ws[0]);
        assert(cs2.skip(1) =~= jrest);
        assert(forall|k: int| 0 <= k < rest.len() ==> rest[k] == ws[k + 1]);
        assert(words_clean(rest, dc));
        lemma_split_join(b, dc, rest);
        lemma_keep_nonempty_add(seq![ws[0]], split_rec(bs, jrest, e));
        lemma_keep_nonempty_one(ws[0]);
        assert(split_words(bs, join_words(ws, d)) =~= seq![ws[0]] + keep_nonempty(
            split_rec(bs, jrest, e),
        ));
        assert(seq![ws[0]] + rest =~= ws);
    }
}

proof fn lemma_ascii_char_maps(c: char)
    requires
        is_ascii_char(c),
    ensures
        is_ascii_char(ascii_to_lower(c)),
        is_ascii_char(ascii_to_upper(c)),
        !is_ascii_upper_char(ascii_to_lower(c)),
        !is_ascii_lower_char(ascii_to_upper(c)),
        ascii_to_lower(ascii_to_lower(c)) == ascii_to_lower(c),
        ascii_to_upper(ascii_to_upper(c)) == ascii_to_upper(c),
        is_ascii_upper_char(c) ==> ascii_to_lower(c) as u32 == c as u32 + 32,
        is_ascii_lower_char(c) ==> ascii_to_upper(c) as u32 == c as u32 - 32,
        !is_ascii_upper_char(c) ==> ascii_to_lower(c) == c,
        !is_ascii_lower_char(c) ==> ascii_to_upper(c) == c,
{
}

proof fn lemma_ascii_letter_maps(c: char)
    requires
        is_ascii_upper_char(c) || is_ascii_lower_char(c),
    ensures
        is_ascii_lower_char(ascii_to_lower(c)),
        is_ascii_upper_char(ascii_to_upper(c)),
{
    lemma_ascii_char_maps(c);
}

proof fn lemma_ascii_char_neutral(c: char, dc: char)
    requires
        is_ascii_char(c),
        neutral_delim(dc),
        c != dc,
    ensures
        ascii_to_lower(c) != dc,
        ascii_to_upper(c) != dc,
{
    lemma_ascii_char_maps(c);
    if is_ascii_upper_char(c) {
        assert(is_ascii_lower_char(ascii_to_lower(c)));
    }
    if is_ascii_lower_char(c) {
        assert(is_ascii_upper_char(ascii_to_upper(c)));
    }
}

/// The character a word-wise casing rule puts at position `i` for the
/// input character `c` there.
pub open spec fn op_char(op: WordCasing, i: int, c: char) -> char {
    match op {
        WordCasing::Lower => ascii_to_lower(c),
        WordCasing::Upper => ascii_to_upper(c),
        WordCasing::Capital => if i == 0 {
            ascii_to_upper(c)
        } else {
            ascii_to_lower(c)
        },
        WordCasing::Toggle => if i == 0 {
            ascii_to_lower(c)
        } else {
            ascii_to_upper(c)
        },
    }
}

proof fn lemma_lower_word_ascii(w: Seq<char>)
    requires
        all_ascii(w),
    ensures
        lower_word(w).len() == w.len(),
        forall|i: int| 0 <= i < w.len() ==> #[trigger] lower_word(w)[i] == ascii_to_lower(w[i]),
    decreases w.len(),
{
    if w.len() > 0 {
        assert(forall|i: int|
            0 <= i < w.len() - 1 ==> #[trigger] w.drop_first()[i] == w[i + 1]);
        lemma_lower_word_ascii(w.drop_first());
        assert(lower_word(w) == seq![ascii_to_lower(w[0])] + lower_word(w.drop_first()));
    }
}

proof fn lemma_upper_word_ascii(w: Seq<char>)
    requires
        all_ascii(w),
    ensures
        upper_word(w).len() == w.len(),
        forall|i: int| 0 <= i < w.len() ==> #[trigger] upper_word(w)[i] == ascii_to_upper(w[i]),
    decreases w.len(),
{
    if w.len() > 0 {
        assert(forall|i: int|
            0 <= i < w.len() - 1 ==> #[trigger] w.drop_first()[i] == w[i + 1]);
        lemma_upper_word_ascii(w.drop_first());
        assert(upper_word(w) == seq![ascii_to_upper(w[0])] + upper_word(w.drop_first()));
    }
}

proof fn lemma_cased_word_ascii(op: WordCasing, w: Seq<char>)
    requires
        all_ascii(w),
    ensures
        cased_word(op, w).len() == w.len(),
        all_ascii(cased_word(op, w)),
        forall|i: int| 0 <= i < w.len() ==> #[trigger] cased_word(op, w)[i] == op_char(op, i, w[i]),
{
    lemma_lower_word_ascii(w);
    lemma_upper_word_ascii(w);
    assert(forall|i: int| 0 <= i < w.len() - 1 ==> #[trigger] w.drop_first()[i] == w[i + 1]);
    if w.len() > 0 {
        lemma_lower_word_ascii(w.drop_first());
        lemma_upper_word_ascii(w.drop_first());
        assert(capital_word(w) == seq![ascii_to_upper(w[0])] + lower_word(w.drop_first()));
        assert(toggle_word(w) == seq![ascii_to_lower(w[0])] + upper_word(w.drop_first()));
    }
    assert forall|i: int| 0 <= i < w.len() implies is_ascii_char(
        #[trigger] cased_word(op, w)[i],
    ) by {
        lemma_ascii_char_maps(w[i]);
    }
}

proof fn lemma_cased_word_clean(op: WordCasing, w: Seq<char>, dc: char)
    requires
        all_ascii(w),
        free_of(w, dc),
        neutral_delim(dc),
    ensures
        free_of(cased_word(op, w), dc),
{
    lemma_cased_word_ascii(op, w);
    assert forall|i: int| 0 <= i < cased_word(op, w).len() implies #[trigger] cased_word(op, w)[i]
        != dc by {
        lemma_ascii_char_neutral(w[i], dc);
    }
}

proof fn lemma_cased_word_idem(op: WordCasing, w: Seq<char>)
    requires
        all_ascii(w),
    ensures
        cased_word(op, cased_word(op, w)) == cased_word(op, w),
{
    let w1 = cased_word(op, w);
    lemma_cased_word_ascii(op, w);
    lemma_cased_word_ascii(op, w1);
    assert forall|i: int| 0 <= i < w1.len() implies #[trigger] cased_word(op, w1)[i] == w1[i] by {
        lemma_ascii_char_maps(w[i]);
        lemma_ascii_char_maps(w1[i]);
    }
    assert(cased_word(op, w1) =~= w1);
}

/// The word-wise casing rules of a pattern that cases the first word one
/// way and every later word another, when the pattern is of that shape.
pub open spec fn wordwise_ops(p: Pattern) -> Option<(WordCasing, WordCasing)> {
    match p {
        Pattern::Lowercase => Option::Some((WordCasing::Lower, WordCasing::Lower)),
        Pattern::Uppercase => Option::Some((WordCasing::Upper, WordCasing::Upper)),
        Pattern::Capital => Option::Some((WordCasing::Capital, WordCasing::Capital)),
        Pattern::Camel => Option::Some((WordCasing::Lower, WordCasing::Capital)),
        Pattern::Toggle => Option::Some((WordCasing::Toggle, WordCasing::Toggle)),
        Pattern::Sentence => Option::Some((WordCasing::Capital, WordCasing::Lower)),
        _ => Option::None,
    }
}

proof fn lemma_two_op_index(first: WordCasing, rest: WordCasing, ws: Seq<Seq<char>>)
    ensures
        two_op_words(first, rest, ws).len() == ws.len(),
        forall|k: int|
            0 <= k < ws.len() ==> #[trigger] two_op_words(first, rest, ws)[k] == cased_word(
                if k == 0 {
                    first
                } else {
                    rest
                },
                ws[k],
            ),
{
    if ws.len() > 0 {
        assert(forall|k: int|
            0 <= k < ws.len() - 1 ==> #[trigger] ws.drop_first()[k] == ws[k + 1]);
    }
}

proof fn lemma_two_op_clean(first: WordCasing, rest: WordCasing, ws: Seq<Seq<char>>, dc: char)
    requires
        words_clean(ws, dc),
        neutral_delim(dc),
    ensures
        words_clean(two_op_words(first, rest, ws), dc),
{
    let out = two_op_words(first, rest, ws);
    lemma_two_op_index(first, rest, ws);
    assert forall|k: int| 0 <= k < out.len() implies (#[trigger] out[k]).len() > 0 && free_of(
        out[k],
        dc,
    ) && all_ascii(out[k]) by {
        let op = if k == 0 {
            first
        } else {
            rest
        };
        lemma_cased_word_ascii(op, ws[k]);
        lemma_cased_word_clean(op, ws[k], dc);
    }
}

proof fn lemma_two_op_idem(first: WordCasing, rest: WordCasing, ws: Seq<Seq<char>>)
    requires
        forall|k: int| 0 <= k < ws.len() ==> all_ascii(#[trigger] ws[k]),
    ensures
        two_op_words(first, rest, two_op_words(first, rest, ws)) == two_op_words(first, rest, ws),
{
    let ws1 = two_op_words(first, rest, ws);
    lemma_two_op_index(first, rest, ws);
    lemma_two_op_index(first, rest, ws1);
    assert forall|k: int| 0 <= k < ws1.len() implies #[trigger] two_op_words(first, rest, ws1)[k]
        == ws1[k] by {
        let op = if k == 0 {
            first
        } else {
            rest
        };
        lemma_cased_word_ascii(op, ws[k]);
        lemma_cased_word_idem(op, ws[k]);
    }
    assert(two_op_words(first, rest, ws1) =~= ws1);
}

proof fn lemma_split_rec_clean(b: BoundaryView, dc: char, cs: Seq<char>, cur: Seq<char>)
    requires
        single_delim(b, dc),
        free_of(cur, dc),
        all_ascii(cur),
        all_ascii(cs),
    ensures
        forall|k: int|
            0 <= k < split_rec(seq![b], cs, cur).len() ==> free_of(
                #[trigger] split_rec(seq![b], cs, cur)[k],
                dc,
            ) && all_ascii(split_rec(seq![b], cs, cur)[k]),
    decreases cs.len(),
{
    let bs = seq![b];
    let e = Seq::<char>::empty();
    if cs.len() == 0 {
        assert(split_rec(bs, cs, cur) == seq![cur]);
    } else {
        lemma_single_delim_fires(b, dc, cs);
        lemma_first_fire_single(b, cs);
        assert(forall|i: int| 0 <= i < cs.len() - 1 ==> #[trigger] cs.drop_first()[i] == cs[i + 1]);
        assert(forall|i: int| 0 <= i < cs.len() - 1 ==> #[trigger] cs.skip(1)[i] == cs[i + 1]);
        if cs[0] == dc {
            assert(b.keep_count() == 0);
            assert(b.skip_count() == 1);
            assert(split_rec(bs, cs, cur) == seq![cur + cs.take(0)] + split_rec(bs, cs.skip(1), e));
            assert(cur + cs.take(0) =~= cur);
            lemma_split_rec_clean(b, dc, cs.skip(1), e);
            let tailwords = split_rec(bs, cs.skip(1), e);
            assert forall|k: int| 0 <= k < split_rec(bs, cs, cur).len() implies free_of(
                #[trigger] split_rec(bs, cs, cur)[k],
                dc,
            ) && all_ascii(split_rec(bs, cs, cur)[k]) by {
                if k == 0 {
                    assert(split_rec(bs, cs, cur)[0] == cur + cs.take(0));
                } else {
                    assert(split_rec(bs, cs, cur)[k] == tailwords[k - 1]);
                }
            }
        } else {
            assert(split_rec(bs, cs, cur) == split_rec(bs, cs.drop_first(), cur.push(cs[0])));
            assert(free_of(cur.push(cs[0]), dc));
            assert(all_ascii(cur.push(cs[0])));
            lemma_split_rec_clean(b, dc, cs.drop_first(), cur.push(cs[0]));
        }
    }
}

proof fn lemma_keep_nonempty_members(ws: Seq<Seq<char>>)
    ensures
        forall|k: int|
            0 <= k < keep_nonempty(ws).len() ==> (#[trigger] keep_nonempty(ws)[k]).len() > 0
                && ws.contains(keep_nonempty(ws)[k]),
    decreases ws.len(),
{
    if ws.len() > 0 {
        lemma_keep_nonempty_members(ws.drop_first());
        assert forall|k: int|
            0 <= k < keep_nonempty(ws).len() implies (#[trigger] keep_nonempty(ws)[k]).len() > 0
            && ws.contains(keep_nonempty(ws)[k]) by {
            let out = keep_nonempty(ws);
            let tail = keep_nonempty(ws.drop_first());
            if ws[0].len() > 0 {
                if k == 0 {
                    assert(out[0] == ws[0]);
                } else {
                    assert(out[k] == tail[k - 1]);
                    let j = choose|j: int|
                        0 <= j < ws.drop_first().len() && ws.drop_first()[j] == tail[k - 1];
                    assert(ws[j + 1] == tail[k - 1]);
                }
            } else {
                assert(out[k] == tail[k]);
                let j = choose|j: int|
                    0 <= j < ws.drop_first().len() && ws.drop_first()[j] == tail[k];
                assert(ws[j + 1] == tail[k]);
            }
        }
    }
}

proof fn lemma_split_words_clean(b: BoundaryView, dc: char, s: Seq<char>)
    requires
        single_delim(b, dc),
        all_ascii(s),
    ensures
        words_clean(split_words(seq![b], s), dc),
{
    let e = Seq::<char>::empty();
    let raw = split_rec(seq![b], s, e);
    lemma_split_rec_clean(b, dc, s, e);
    lemma_keep_nonempty_members(raw);
    let out = split_words(seq![b], s);
    assert forall|k: int| 0 <= k < out.len() implies (#[trigger] out[k]).len() > 0 && free_of(
        out[k],
        dc,
    ) && all_ascii(out[k]) by {
        let j = choose|j: int| 0 <= j < raw.len() && raw[j] == out[k];
        assert(free_of(raw[j], dc));
    }
}

/// Law: for a conversion whose one boundary is its own single-character,
/// non-letter delimiter, and whose pattern cases the words one by one,
/// converting an already-converted ASCII string changes nothing.
pub proof fn lemma_convert_idempotent(b: BoundaryView, dc: char, p: Pattern, s: Seq<char>)
    requires
        single_delim(b, dc),
        neutral_delim(dc),
        wordwise_ops(p) is Some,
        all_ascii(s),
    ensures
        convert_spec(seq![b], p, seq![dc], convert_spec(seq![b], p, seq![dc], s)) == convert_spec(
            seq![b],
            p,
            seq![dc],
            s,
        ),
{
    let bs = seq![b];
    let d = seq![dc];
    let (first, rest) = wordwise_ops(p).unwrap();
    let ws = split_words(bs, s);
    lemma_split_words_clean(b, dc, s);
    assert(apply_pattern(p, ws) == two_op_words(first, rest, ws));
    let ws1 = two_op_words(first, rest, ws);
    lemma_two_op_clean(first, rest, ws, dc);
    let out1 = join_words(ws1, d);
    lemma_split_join(b, dc, ws1);
    assert(split_words(bs, out1) == ws1);
    lemma_two_op_idem(first, rest, ws);
    assert(apply_pattern(p, ws1) == ws1);
    assert(convert_spec(bs, p, d, out1) == out1);
}

proof fn lemma_ascii_cased(c: char)
    requires
        is_ascii_char(c),
    ensures
        is_cased_char(c) == (is_ascii_upper_char(c) || is_ascii_lower_char(c)),
        is_cased_char(ascii_to_lower(c)) == is_cased_char(c),
        is_cased_char(ascii_to_upper(c)) == is_cased_char(c),
{
    lemma_ascii_char_maps(c);
}

proof fn lemma_alt_word_clean(w: Seq<char>, up: bool, dc: char)
    requires
        all_ascii(w),
        free_of(w, dc),
        neutral_delim(dc),
    ensures
        alt_word(w, up).len() == w.len(),
        all_ascii(alt_word(w, up)),
        free_of(alt_word(w, up), dc),
    decreases w.len(),
{
    if w.len() > 0 {
        let c = w[0];
        lemma_ascii_char_maps(c);
        lemma_ascii_char_neutral(c, dc);
        assert(forall|i: int| 0 <= i < w.len() - 1 ==> #[trigger] w.drop_first()[i] == w[i + 1]);
        if is_cased_char(c) {
            lemma_alt_word_clean(w.drop_first(), !up, dc);
            assert(alt_word(w, up) == seq![
                if up {
                    ascii_to_upper(c)
                } else {
                    ascii_to_lower(c)
                },
            ] + alt_word(w.drop_first(), !up));
        } else {
            lemma_alt_word_clean(w.drop_first(), up, dc);
        }
    }
}

proof fn lemma_alt_word_idem(w: Seq<char>, up: bool)
    requires
        all_ascii(w),
    ensures
        alt_word(alt_word(w, up), up) == alt_word(w, up),
        alt_after(alt_word(w, up), up) == alt_after(w, up),
    decreases w.len(),
{
    if w.len() > 0 {
        let c = w[0];
        lemma_ascii_char_maps(c);
        lemma_ascii_cased(c);
        assert(forall|i: int| 0 <= i < w.len() - 1 ==> #[trigger] w.drop_first()[i] == w[i + 1]);
        let out = alt_word(w, up);
        if is_cased_char(c) {
            let c1 = if up {
                ascii_to_upper(c)
            } else {
                ascii_to_lower(c)
            };
            lemma_ascii_char_maps(c1);
            lemma_ascii_cased(c1);
            assert(out == seq![c1] + alt_word(w.drop_first(), !up));
            assert(out[0] == c1);
            assert(out.drop_first() =~= alt_word(w.drop_first(), !up));
            lemma_alt_word_idem(w.drop_first(), !up);
            assert(alt_word(out, up) == seq![
                if up {
                    ascii_to_upper(c1)
                } else {
                    ascii_to_lower(c1)
                },
            ] + alt_word(out.drop_first(), !up));
        } else {
            assert(out == seq![c] + alt_word(w.drop_first(), up));
            assert(out[0] == c);
            assert(out.drop_first() =~= alt_word(w.drop_first(), up));
            lemma_alt_word_idem(w.drop_first(), up);
            assert(alt_word(out, up) == seq![c] + alt_word(out.drop_first(), up));
        }
    }
}

proof fn lemma_alt_words_clean(ws: Seq<Seq<char>>, up: bool, dc: char)
    requires
        words_clean(ws, dc),
        neutral_delim(dc),
    ensures
        alt_words(ws, up).len() == ws.len(),
        words_clean(alt_words(ws, up), dc),
    decreases ws.len(),
{
    if ws.len() > 0 {
        let rest = ws.drop_first();
        assert(forall|k: int| 0 <= k < rest.len() ==> #[trigger] rest[k] == ws[k + 1]);
        lemma_alt_word_clean(ws[0], up, dc);
        lemma_alt_words_clean(rest, alt_after(ws[0], up), dc);
        let out = alt_words(ws, up);
        let tail = alt_words(rest, alt_after(ws[0], up));
        assert forall|k: int| 0 <= k < out.len() implies (#[trigger] out[k]).len() > 0 && free_of(
            out[k],
            dc,
        ) && all_ascii(out[k]) by {
            if k == 0 {
                assert(out[0] == alt_word(ws[0], up));
            } else {
                assert(out[k] == tail[k - 1]);
            }
        }
    }
}

proof fn lemma_alt_words_idem(ws: Seq<Seq<char>>, up: bool)
    requires
        forall|k: int| 0 <= k < ws.len() ==> all_ascii(#[trigger] ws[k]),
    ensures
        alt_words(alt_words(ws, up), up) == alt_words(ws, up),
    decreases ws.len(),
{
    if ws.len() > 0 {
        let rest = ws.drop_first();
        assert(forall|k: int| 0 <= k < rest.len() ==> #[trigger] rest[k] == ws[k + 1]);
        let up2 = alt_after(ws[0], up);
        let ws1 = alt_words(ws, up);
        lemma_alt_word_idem(ws[0], up);
        lemma_alt_words_idem(rest, up2);
        assert(ws1 == seq![alt_word(ws[0], up)] + alt_words(rest, up2));
        assert(ws1[0] == alt_word(ws[0], up));
        assert(ws1.drop_first() =~= alt_words(rest, up2));
        assert(alt_words(ws1, up) == seq![alt_word(ws1[0], up)] + alt_words(
            ws1.drop_first(),
            alt_after(ws1[0], up),
        ));
        assert(alt_words(ws1, up) =~= ws1);
    }
}

/// Law: the alternating conversion over a single-delimiter boundary is
/// idempotent on ASCII input.
pub proof fn lemma_alternating_idempotent(b: BoundaryView, dc: char, s: Seq<char>)
    requires
        single_delim(b, dc),
        neutral_delim(dc),
        all_ascii(s),
    ensures
        convert_spec(
            seq![b],
            Pattern::Alternating,
            seq![dc],
            convert_spec(seq![b], Pattern::Alternating, seq![dc], s),
        ) == convert_spec(seq![b], Pattern::Alternating, seq![dc], s),
{
    let bs = seq![b];
    let d = seq![dc];
    let ws = split_words(bs, s);
    lemma_split_words_clean(b, dc, s);
    let ws1 = alt_words(ws, false);
    lemma_alt_words_clean(ws, false, dc);
    let out1 = join_words(ws1, d);
    lemma_split_join(b, dc, ws1);
    lemma_alt_words_idem(ws, false);
}

/// Law: splitting never yields an empty word.
pub proof fn lemma_split_words_nonempty(bs: Seq<BoundaryView>, s: Seq<char>)
    ensures
        forall|k: int|
            0 <= k < split_words(bs, s).len() ==> (#[trigger] split_words(bs, s)[k]).len() > 0,
{
    lemma_keep_nonempty_members(split_rec(bs, s, Seq::empty()));
}

proof fn lemma_split_rec_no_match(bs: Seq<BoundaryView>, cs: Seq<char>, cur: Seq<char>)
    requires
        forall|i: int| 0 <= i < cs.len() ==> first_fire(bs, #[trigger] cs.skip(i)) is None,
    ensures
        split_rec(bs, cs, cur) == seq![cur + cs],
    decreases cs.len(),
{
    if cs.len() == 0 {
        assert(cur + cs =~= cur);
    } else {
        assert(cs.skip(0) =~= cs);
        assert(first_fire(bs, cs) is None);
        assert(forall|i: int|
            0 <= i < cs.len() - 1 ==> cs.drop_first().skip(i) =~= cs.skip(i + 1));
        lemma_split_rec_no_match(bs, cs.drop_first(), cur.push(cs[0]));
        assert(cur.push(cs[0]) + cs.drop_first() =~= cur + cs);
    }
}

/// Law: when no boundary matches anywhere in the input, the whole input
/// is the one word, and the empty input yields no words at all.
pub proof fn lemma_split_no_match(bs: Seq<BoundaryView>, cs: Seq<char>)
    requires
        forall|i: int| 0 <= i < cs.len() ==> first_fire(bs, #[trigger] cs.skip(i)) is None,
    ensures
        cs.len() == 0 ==> split_words(bs, cs) == Seq::<Seq<char>>::empty(),
        cs.len() > 0 ==> split_words(bs, cs) == seq![cs],
{
    let e = Seq::<char>::empty();
    lemma_split_rec_no_match(bs, cs, e);
    assert(e + cs =~= cs);
    lemma_keep_nonempty_one(cs);
}

/// Law: a conversion with no boundaries and an empty delimiter (the flat
/// cases) is idempotent on ASCII input, for the word-wise patterns.
pub proof fn lemma_flat_idempotent(p: Pattern, s: Seq<char>)
    requires
        wordwise_ops(p) is Some,
        all_ascii(s),
    ensures
        convert_spec(
            Seq::empty(),
            p,
            Seq::empty(),
            convert_spec(Seq::empty(), p, Seq::empty(), s),
        ) == convert_spec(Seq::empty(), p, Seq::empty(), s),
{
    let bs = Seq::<BoundaryView>::empty();
    let d = Seq::<char>::empty();
    let e = Seq::<char>::empty();
    let (first, rest) = wordwise_ops(p).unwrap();
    assert(forall|i: int| 0 <= i < s.len() ==> first_fire(bs, #[trigger] s.skip(i)) is None);
    lemma_split_no_match(bs, s);
    if s.len() == 0 {
        lemma_empty_input(bs, p, d);
    } else {
        let ws = seq![s];
        assert(split_words(bs, s) == ws);
        assert(apply_pattern(p, ws) == two_op_words(first, rest, ws));
        let ws1 = two_op_words(first, rest, ws);
        lemma_two_op_index(first, rest, ws);
        let w1 = ws1[0];
        assert(ws1 =~= seq![w1]);
        lemma_cased_word_ascii(first, s);
        assert(w1.len() == s.len());
        assert(join_words(ws1, d) == w1);
        assert(forall|i: int| 0 <= i < w1.len() ==> first_fire(bs, #[trigger] w1.skip(i)) is None);
        lemma_split_no_match(bs, w1);
        assert(split_words(bs, w1) == seq![w1]);
        lemma_two_op_idem(first, rest, ws);
        assert(apply_pattern(p, seq![w1]) == ws1);
        assert(convert_spec(bs, p, d, w1) == w1);
    }
}

/// Law: re-converting an already-converted string through the same case
/// is a fixed point, for the built-in cases whose boundary is their own
/// delimiter and for the flat cases, on ASCII input.
pub proof fn lemma_case_idempotent(c: Case, s: Seq<char>)
    requires
        all_ascii(s),
        c is Snake || c is Constant || c is UpperSnake || c is Ada || c is Kebab || c is Cobol
            || c is UpperKebab || c is Train || c is Flat || c is UpperFlat || c is Lower
            || c is Upper || c is Title || c is Sentence || c is Toggle || c is Alternating,
    ensures
        convert_spec(
            c.spec_boundaries(),
            c.spec_pattern(),
            c.spec_delim(),
            convert_spec(c.spec_boundaries(), c.spec_pattern(), c.spec_delim(), s),
        ) == convert_spec(c.spec_boundaries(), c.spec_pattern(), c.spec_delim(), s),
{
    if c is Snake || c is Constant || c is UpperSnake || c is Ada {
        assert(c.spec_boundaries() =~= seq![BoundaryView::Underscore]);
        lemma_convert_idempotent(BoundaryView::Underscore, '_', c.spec_pattern(), s);
    } else if c is Flat || c is UpperFlat {
        assert(c.spec_boundaries() =~= Seq::<BoundaryView>::empty());
        assert(c.spec_delim() =~= Seq::<char>::empty());
        lemma_flat_idempotent(c.spec_pattern(), s);
    } else if c is Kebab || c is Cobol || c is UpperKebab || c is Train {
        assert(c.spec_boundaries() =~= seq![BoundaryView::Hyphen]);
        lemma_convert_idempotent(BoundaryView::Hyphen, '-', c.spec_pattern(), s);
    } else if c is Alternating {
        assert(c.spec_boundaries() =~= seq![BoundaryView::Space]);
        lemma_alternating_idempotent(BoundaryView::Space, ' ', s);
    } else {
        assert(c.spec_boundaries() =~= seq![BoundaryView::Space]);
        lemma_convert_idempotent(BoundaryView::Space, ' ', c.spec_pattern(), s);
    }
}

/// The boundary list of the camel-style cases: the lower-to-upper and
/// acronym cuts and the four digit transitions.
pub open spec fn camel_bounds() -> Seq<BoundaryView> {
    seq![
        BoundaryView::LowerUpper,
        BoundaryView::Acronym,
        BoundaryView::LowerDigit,
        BoundaryView::UpperDigit,
        BoundaryView::DigitLower,
        BoundaryView::DigitUpper,
    ]
}

/// A non-empty run of ASCII lowercase letters.
pub open spec fn lower_letters(w: Seq<char>) -> bool {
    w.len() >= 1 && forall|i: int| 0 <= i < w.len() ==> is_ascii_lower_char(#[trigger] w[i])
}

/// An ASCII uppercase letter followed by one or more lowercase letters.
pub open spec fn capital_shape(w: Seq<char>) -> bool {
    w.len() >= 2 && is_ascii_upper_char(w[0]) && forall|i: int|
        1 <= i < w.len() ==> is_ascii_lower_char(#[trigger] w[i])
}

/// An ASCII-letter word of two or more characters.
pub open spec fn letters_word(w: Seq<char>) -> bool {
    w.len() >= 2 && forall|i: int|
        0 <= i < w.len() ==> is_ascii_upper_char(#[trigger] w[i]) || is_ascii_lower_char(w[i])
}

proof fn lemma_first_fire_none(bs: Seq<BoundaryView>, cs: Seq<char>)
    requires
        forall|j: int| 0 <= j < bs.len() ==> !(#[trigger] bs[j]).fires(cs),
    ensures
        first_fire(bs, cs) is None,
    decreases bs.len(),
{
    if bs.len() > 0 {
        assert(forall|j: int| 0 <= j < bs.len() - 1 ==> #[trigger] bs.drop_first()[j] == bs[j + 1]);
        lemma_first_fire_none(bs.drop_first(), cs);
    }
}

proof fn lemma_camel_no_fire(cs: Seq<char>)
    requires
        cs.len() >= 1,
        is_ascii_upper_char(cs[0]) || is_ascii_lower_char(cs[0]),
        cs.len() >= 2 ==> is_ascii_lower_char(cs[1]),
    ensures
        first_fire(camel_bounds(), cs) is None,
{
    let bs = camel_bounds();
    if cs.len() >= 2 {
        assert(is_ascii_char(cs[1]));
        assert(!is_upper_char(cs[1]));
        assert(!is_ascii_digit_char(cs[1]));
    }
    assert(is_ascii_char(cs[0]));
    assert(!is_ascii_digit_char(cs[0]));
    assert(!BoundaryView::LowerUpper.fires(cs));
    assert(!BoundaryView::Acronym.fires(cs));
    assert(!BoundaryView::LowerDigit.fires(cs));
    assert(!BoundaryView::UpperDigit.fires(cs));
    assert(!BoundaryView::DigitLower.fires(cs));
    assert(!BoundaryView::DigitUpper.fires(cs));
    assert forall|j: int| 0 <= j < bs.len() implies !(#[trigger] bs[j]).fires(cs) by {
        if j == 0 {
            assert(bs[j] == BoundaryView::LowerUpper);
        } else if j == 1 {
            assert(bs[j] == BoundaryView::Acronym);
        } else if j == 2 {
            assert(bs[j] == BoundaryView::LowerDigit);
        } else if j == 3 {
            assert(bs[j] == BoundaryView::UpperDigit);
        } else if j == 4 {
            assert(bs[j] == BoundaryView::DigitLower);
        } else {
            assert(bs[j] == BoundaryView::DigitUpper);
        }
    }
    lemma_first_fire_none(bs, cs);
}

proof fn lemma_camel_scan_lowers(u: Seq<char>, tail: Seq<char>, cur: Seq<char>)
    requires
        lower_letters(u),
        tail.len() > 0 ==> is_ascii_upper_char(tail[0]),
    ensures
        tail.len() == 0 ==> split_rec(camel_bounds(), u + tail, cur) == seq![cur + u],
        tail.len() > 0 ==> split_rec(camel_bounds(), u + tail, cur) == seq![cur + u] + split_rec(
            camel_bounds(),
            tail,
            Seq::empty(),
        ),
    decreases u.len(),
{
    let bs = camel_bounds();
    let cs = u + tail;
    assert(cs[0] == u[0]);
    if u.len() == 1 && tail.len() > 0 {
        assert(cs[1] == tail[0]);
        assert(is_ascii_char(cs[0]) && is_ascii_char(cs[1]));
        assert(BoundaryView::LowerUpper.fires(cs));
        assert(bs[0] == BoundaryView::LowerUpper);
        assert(first_fire(bs, cs) == Option::Some(BoundaryView::LowerUpper));
        assert(BoundaryView::LowerUpper.keep_count() == 1);
        assert(BoundaryView::LowerUpper.skip_count() == 1);
        assert(split_rec(bs, cs, cur) == seq![cur + cs.take(1)] + split_rec(
            bs,
            cs.skip(1),
            Seq::empty(),
        ));
        assert(cur + cs.take(1) =~= cur + u);
        assert(cs.skip(1) =~= tail);
    } else {
        if u.len() >= 2 {
            assert(cs[1] == u[1]);
        }
        lemma_camel_no_fire(cs);
        assert(split_rec(bs, cs, cur) == split_rec(bs, cs.drop_first(), cur.push(cs[0])));
        if u.len() == 1 {
            assert(cs.drop_first() =~= Seq::<char>::empty());
            assert(split_rec(bs, Seq::empty(), cur.push(u[0])) == seq![cur.push(u[0])]);
            assert(cur.push(u[0]) =~= cur + u);
        } else {
            assert(cs.drop_first() =~= u.drop_first() + tail);
            assert(forall|i: int|
                0 <= i < u.len() - 1 ==> #[trigger] u.drop_first()[i] == u[i + 1]);
            lemma_camel_scan_lowers(u.drop_first(), tail, cur.push(u[0]));
            assert(cur.push(u[0]) + u.drop_first() =~= cur + u);
        }
    }
}

proof fn lemma_camel_scan_capital(v: Seq<char>, tail: Seq<char>, cur: Seq<char>)
    requires
        capital_shape(v),
        tail.len() > 0 ==> is_ascii_upper_char(tail[0]),
    ensures
        tail.len() == 0 ==> split_rec(camel_bounds(), v + tail, cur) == seq![cur + v],
        tail.len() > 0 ==> split_rec(camel_bounds(), v + tail, cur) == seq![cur + v] + split_rec(
            camel_bounds(),
            tail,
            Seq::empty(),
        ),
{
    let bs = camel_bounds();
    let cs = v + tail;
    assert(cs[0] == v[0]);
    assert(cs[1] == v[1]);
    lemma_camel_no_fire(cs);
    assert(split_rec(bs, cs, cur) == split_rec(bs, cs.drop_first(), cur.push(cs[0])));
    assert(cs.drop_first() =~= v.drop_first() + tail);
    assert(forall|i: int| 0 <= i < v.len() - 1 ==> #[trigger] v.drop_first()[i] == v[i + 1]);
    lemma_camel_scan_lowers(v.drop_first(), tail, cur.push(v[0]));
    assert(cur.push(v[0]) + v.drop_first() =~= cur + v);
}

proof fn lemma_join_head(ws: Seq<Seq<char>>, d: Seq<char>)
    requires
        ws.len() >= 1,
        ws[0].len() >= 1,
    ensures
        join_words(ws, d).len() >= ws[0].len(),
        join_words(ws, d)[0] == ws[0][0],
{
    if ws.len() >= 2 {
        assert(join_words(ws, d) == ws[0] + d + join_words(ws.drop_first(), d));
        assert((ws[0] + d + join_words(ws.drop_first(), d))[0] == ws[0][0]);
    }
}

proof fn lemma_camel_join(vs: Seq<Seq<char>>, first_lower: bool)
    requires
        vs.len() > 0 ==> (if first_lower {
            lower_letters(vs[0])
        } else {
            capital_shape(vs[0])
        }),
        forall|k: int| 1 <= k < vs.len() ==> capital_shape(#[trigger] vs[k]),
    ensures
        split_words(camel_bounds(), join_words(vs, Seq::empty())) == vs,
    decreases vs.len(),
{
    let bs = camel_bounds();
    let e = Seq::<char>::empty();
    if vs.len() == 0 {
        assert(join_words(vs, e) == e);
        assert(split_rec(bs, e, e) == seq![e]);
        lemma_keep_nonempty_one(e);
        assert(split_words(bs, e) =~= vs);
    } else if vs.len() == 1 {
        let v = vs[0];
        assert(join_words(vs, e) == v);
        assert(v + e =~= v);
        if first_lower {
            lemma_camel_scan_lowers(v, e, e);
        } else {
            lemma_camel_scan_capital(v, e, e);
        }
        assert(split_rec(bs, v, e) == seq![e + v]);
        assert(e + v =~= v);
        lemma_keep_nonempty_one(v);
        assert(split_words(bs, v) =~= vs);
    } else {
        let rest = vs.drop_first();
        assert(forall|k: int| 0 <= k < rest.len() ==> #[trigger] rest[k] == vs[k + 1]);
        let jrest = join_words(rest, e);
        lemma_join_head(rest, e);
        assert(jrest[0] == rest[0][0]);
        assert(is_ascii_upper_char(jrest[0]));
        assert(join_words(vs, e) == vs[0] + e + jrest);
        assert(vs[0] + e + jrest =~= vs[0] + jrest);
        if first_lower {
            lemma_camel_scan_lowers(vs[0], jrest, e);
        } else {
            lemma_camel_scan_capital(vs[0], jrest, e);
        }
        assert(e + vs[0] =~= vs[0]);
        assert(split_rec(bs, vs[0] + jrest, e) == seq![vs[0]] + split_rec(bs, jrest, e));
        lemma_camel_join(rest, false);
        lemma_keep_nonempty_add(seq![vs[0]], split_rec(bs, jrest, e));
        lemma_keep_nonempty_one(vs[0]);
        assert(split_words(bs, join_words(vs, e)) =~= seq![vs[0]] + keep_nonempty(
            split_rec(bs, jrest, e),
        ));
        assert(seq![vs[0]] + rest =~= vs);
    }
}

proof fn lemma_capital_of_letters(w: Seq<char>)
    requires
        letters_word(w),
    ensures
        capital_shape(cased_word(WordCasing::Capital, w)),
{
    assert(all_ascii(w)) by {
        assert forall|i: int| 0 <= i < w.len() implies is_ascii_char(#[trigger] w[i]) by {}
    }
    lemma_cased_word_ascii(WordCasing::Capital, w);
    let out = cased_word(WordCasing::Capital, w);
    assert(out[0] == ascii_to_upper(w[0]));
    lemma_ascii_letter_maps(w[0]);
    assert forall|i: int| 1 <= i < out.len() implies is_ascii_lower_char(#[trigger] out[i]) by {
        lemma_ascii_letter_maps(w[i]);
    }
}

proof fn lemma_lower_of_letters(w: Seq<char>)
    requires
        w.len() >= 1,
        forall|i: int|
            0 <= i < w.len() ==> is_ascii_upper_char(#[trigger] w[i]) || is_ascii_lower_char(w[i]),
    ensures
        lower_letters(cased_word(WordCasing::Lower, w)),
{
    assert(all_ascii(w)) by {
        assert forall|i: int| 0 <= i < w.len() implies is_ascii_char(#[trigger] w[i]) by {}
    }
    lemma_cased_word_ascii(WordCasing::Lower, w);
    let out = cased_word(WordCasing::Lower, w);
    assert forall|i: int| 0 <= i < out.len() implies is_ascii_lower_char(#[trigger] out[i]) by {
        lemma_ascii_letter_maps(w[i]);
    }
}

/// Law: the Pascal-style conversion (camel boundaries, capitalized words,
/// no delimiter) is idempotent when every word of the input splits into
/// ASCII letters, two or more per word.  A one-letter word breaks it: two
/// of them join into a run of uppercase letters that does not split back.
pub proof fn lemma_pascal_idempotent(s: Seq<char>)
    requires
        all_ascii(s),
        forall|k: int|
            0 <= k < split_words(camel_bounds(), s).len() ==> letters_word(
                #[trigger] split_words(camel_bounds(), s)[k],
            ),
    ensures
        convert_spec(
            camel_bounds(),
            Pattern::Capital,
            Seq::empty(),
            convert_spec(camel_bounds(), Pattern::Capital, Seq::empty(), s),
        ) == convert_spec(camel_bounds(), Pattern::Capital, Seq::empty(), s),
{
    let bs = camel_bounds();
    let e = Seq::<char>::empty();
    let ws = split_words(bs, s);
    let ws1 = two_op_words(WordCasing::Capital, WordCasing::Capital, ws);
    lemma_two_op_index(WordCasing::Capital, WordCasing::Capital, ws);
    assert forall|k: int| 1 <= k < ws1.len() implies capital_shape(#[trigger] ws1[k]) by {
        lemma_capital_of_letters(ws[k]);
    }
    if ws.len() > 0 {
        lemma_capital_of_letters(ws[0]);
    }
    lemma_camel_join(ws1, false);
    assert forall|k: int| 0 <= k < ws.len() implies all_ascii(#[trigger] ws[k]) by {
        assert(letters_word(ws[k]));
        assert forall|i: int| 0 <= i < ws[k].len() implies is_ascii_char(#[trigger] ws[k][i]) by {}
    }
    lemma_two_op_idem(WordCasing::Capital, WordCasing::Capital, ws);
    assert(apply_pattern(Pattern::Capital, ws1) == ws1);
}

/// Law: the camel conversion (camel boundaries, first word lowercased and
/// the rest capitalized, no delimiter) is idempotent when the first split
/// word is ASCII letters and every later one is ASCII letters, two or
/// more per word.
pub proof fn lemma_camel_idempotent(s: Seq<char>)
    requires
        all_ascii(s),
        split_words(camel_bounds(), s).len() > 0 ==> {
            let w = split_words(camel_bounds(), s)[0];
            forall|i: int|
                0 <= i < w.len() ==> is_ascii_upper_char(#[trigger] w[i]) || is_ascii_lower_char(
                    w[i],
                )
        },
        forall|k: int|
            1 <= k < split_words(camel_bounds(), s).len() ==> letters_word(
                #[trigger] split_words(camel_bounds(), s)[k],
            ),
    ensures
        convert_spec(
            camel_bounds(),
            Pattern::Camel,
            Seq::empty(),
            convert_spec(camel_bounds(), Pattern::Camel, Seq::empty(), s),
        ) == convert_spec(camel_bounds(), Pattern::Camel, Seq::empty(), s),
{
    let bs = camel_bounds();
    let e = Seq::<char>::empty();
    let ws = split_words(bs, s);
    let ws1 = two_op_words(WordCasing::Lower, WordCasing::Capital, ws);
    lemma_two_op_index(WordCasing::Lower, WordCasing::Capital, ws);
    assert forall|k: int| 1 <= k < ws1.len() implies capital_shape(#[trigger] ws1[k]) by {
        lemma_capital_of_letters(ws[k]);
    }
    if ws.len() > 0 {
        lemma_split_words_nonempty(bs, s);
        lemma_lower_of_letters(ws[0]);
    }
    lemma_camel_join(ws1, true);
    assert forall|k: int| 0 <= k < ws.len() implies all_ascii(#[trigger] ws[k]) by {
        assert forall|i: int| 0 <= i < ws[k].len() implies is_ascii_char(#[trigger] ws[k][i]) by {
            if k == 0 {
            } else {
                assert(letters_word(ws[k]));
            }
        }
    }
    lemma_two_op_idem(WordCasing::Lower, WordCasing::Capital, ws);
    assert(apply_pattern(Pattern::Camel, ws1) == ws1);
}


/// The camel-style cases split on exactly the camel boundary list, join
/// with nothing, and case the words as the camel lemmas assume.
pub proof fn lemma_camel_case_parts()
    ensures
        Case::Pascal.spec_boundaries() == camel_bounds(),
        Case::UpperCamel.spec_boundaries() == camel_bounds(),
        Case::Camel.spec_boundaries() == camel_bounds(),
        Case::Pascal.spec_pattern() == Pattern::Capital,
        Case::UpperCamel.spec_pattern() == Pattern::Capital,
        Case::Camel.spec_pattern() == Pattern::Camel,
        Case::Pascal.spec_delim() == Seq::<char>::empty(),
        Case::UpperCamel.spec_delim() == Seq::<char>::empty(),
        Case::Camel.spec_delim() == Seq::<char>::empty(),
{
    assert(Case::Pascal.spec_boundaries() =~= camel_bounds());
    assert(Case::UpperCamel.spec_boundaries() =~= camel_bounds());
    assert(Case::Camel.spec_boundaries() =~= camel_bounds());
    assert(Case::Pascal.spec_delim() =~= Seq::<char>::empty());
    assert(Case::UpperCamel.spec_delim() =~= Seq::<char>::empty());
    assert(Case::Camel.spec_delim() =~= Seq::<char>::empty());
}


} // verus!
