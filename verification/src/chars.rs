//! Character-level primitives: ASCII character classes, and the Unicode
//! case mappings of `char` behind named, trusted declarations.

use vstd::prelude::*;
use vstd::string::StrSliceExecFns;

verus! {

/// The ASCII decimal digits `'0'..='9'`.
pub open spec fn is_ascii_digit_char(c: char) -> bool {
    48 <= c as u32 && c as u32 <= 57
}

/// The ASCII uppercase letters `'A'..='Z'`.
pub open spec fn is_ascii_upper_char(c: char) -> bool {
    65 <= c as u32 && c as u32 <= 90
}

/// The ASCII lowercase letters `'a'..='z'`.
pub open spec fn is_ascii_lower_char(c: char) -> bool {
    97 <= c as u32 && c as u32 <= 122
}

pub open spec fn is_ascii_char(c: char) -> bool {
    c as u32 <= 127
}

pub open spec fn all_ascii(s: Seq<char>) -> bool {
    forall|i: int| 0 <= i < s.len() ==> is_ascii_char(#[trigger] s[i])
}

/// The ASCII lowercase mapping: `'A'..='Z'` move down by 32, everything
/// else is left alone.
pub open spec fn ascii_to_lower(c: char) -> char {
    if is_ascii_upper_char(c) {
        ((c as u32 + 32) as u8) as char
    } else {
        c
    }
}

/// The ASCII uppercase mapping: `'a'..='z'` move up by 32, everything
/// else is left alone.
pub open spec fn ascii_to_upper(c: char) -> char {
    if is_ascii_lower_char(c) {
        ((c as u32 - 32) as u8) as char
    } else {
        c
    }
}

/// Whether `char::is_uppercase` holds of a character beyond ASCII.
pub uninterp spec fn unicode_upper_table(c: char) -> bool;

/// Whether `char::is_lowercase` holds of a character beyond ASCII.
pub uninterp spec fn unicode_lower_table(c: char) -> bool;

/// The Unicode lowercase mapping of a character beyond ASCII.
pub uninterp spec fn unicode_lower_map(c: char) -> Seq<char>;

/// The Unicode uppercase mapping of a character beyond ASCII.
pub uninterp spec fn unicode_upper_map(c: char) -> Seq<char>;

/// The Unicode `Uppercase` property of a character.
pub open spec fn is_upper_char(c: char) -> bool {
    if is_ascii_char(c) {
        is_ascii_upper_char(c)
    } else {
        unicode_upper_table(c)
    }
}

/// The Unicode `Lowercase` property of a character.
pub open spec fn is_lower_char(c: char) -> bool {
    if is_ascii_char(c) {
        is_ascii_lower_char(c)
    } else {
        unicode_lower_table(c)
    }
}

/// A character with an upper/lower distinction.
pub open spec fn is_cased_char(c: char) -> bool {
    is_upper_char(c) || is_lower_char(c)
}

/// The full Unicode lowercase mapping of a character, as the sequence of
/// characters it expands to.
pub open spec fn lower_char(c: char) -> Seq<char> {
    if is_ascii_char(c) {
        seq![ascii_to_lower(c)]
    } else {
        unicode_lower_map(c)
    }
}

/// The full Unicode uppercase mapping of a character.
pub open spec fn upper_char(c: char) -> Seq<char> {
    if is_ascii_char(c) {
        seq![ascii_to_upper(c)]
    } else {
        unicode_upper_map(c)
    }
}

/// Relies on `char::is_uppercase`: the Unicode `Uppercase` property, a
/// function of the character alone; on ASCII it holds exactly of `'A'..='Z'`.
#[verifier::external_body]
pub(crate) fn char_is_upper(c: char) -> (r: bool)
    ensures
        r == is_upper_char(c),
        !is_ascii_char(c) ==> r == unicode_upper_table(c),
{
    c.is_uppercase()
}

/// Relies on `char::is_lowercase`: the Unicode `Lowercase` property, a
/// function of the character alone; on ASCII it holds exactly of `'a'..='z'`.
#[verifier::external_body]
pub(crate) fn char_is_lower(c: char) -> (r: bool)
    ensures
        r == is_lower_char(c),
        !is_ascii_char(c) ==> r == unicode_lower_table(c),
{
    c.is_lowercase()
}

/// Relies on `char::to_lowercase`: the Unicode lowercase mapping, a function
/// of the character alone that yields one or more characters; on ASCII it
/// maps `'A'..='Z'` to `'a'..='z'` and leaves other characters unchanged.
#[verifier::external_body]
pub(crate) fn char_to_lower(c: char) -> (r: Vec<char>)
    ensures
        r@ == lower_char(c),
        !is_ascii_char(c) ==> r@ == unicode_lower_map(c),
        r@.len() >= 1,
{
    c.to_lowercase().collect()
}

/// Relies on `char::to_uppercase`: the Unicode uppercase mapping, a function
/// of the character alone that yields one or more characters; on ASCII it
/// maps `'a'..='z'` to `'A'..='Z'` and leaves other characters unchanged.
#[verifier::external_body]
pub(crate) fn char_to_upper(c: char) -> (r: Vec<char>)
    ensures
        r@ == upper_char(c),
        !is_ascii_char(c) ==> r@ == unicode_upper_map(c),
        r@.len() >= 1,
{
    c.to_uppercase().collect()
}

pub(crate) fn char_is_ascii_digit(c: char) -> (r: bool)
    ensures
        r == is_ascii_digit_char(c),
{
    let u = c as u32;
    48 <= u && u <= 57
}

/// The sequence with every ASCII digit removed.
pub open spec fn drop_ascii_digits(s: Seq<char>) -> Seq<char>
    decreases s.len(),
{
    if s.len() == 0 {
        Seq::empty()
    } else if is_ascii_digit_char(s[0]) {
        drop_ascii_digits(s.drop_first())
    } else {
        seq![s[0]] + drop_ascii_digits(s.drop_first())
    }
}

pub(crate) fn strip_digits(cs: &Vec<char>) -> (r: Vec<char>)
    ensures
        r@ == drop_ascii_digits(cs@),
{
    let n = cs.len();
    let mut r: Vec<char> = Vec::new();
    let mut i: usize = 0;
    proof {
        assert(cs@.skip(0) =~= cs@);
        assert(r@ + drop_ascii_digits(cs@) =~= drop_ascii_digits(cs@));
    }
    while i < n
        invariant
            i <= n,
            n == cs@.len(),
            drop_ascii_digits(cs@) == r@ + drop_ascii_digits(cs@.skip(i as int)),
        decreases n - i,
    {
        let c = cs[i];
        proof {
            assert(cs@.skip(i as int).drop_first() =~= cs@.skip(i as int + 1));
            assert(cs@.skip(i as int)[0] == cs@[i as int]);
        }
        if !char_is_ascii_digit(c) {
            r.push(c);
        }
        proof {
            assert(drop_ascii_digits(cs@) == r@ + drop_ascii_digits(cs@.skip(i as int + 1)));
        }
        i += 1;
    }
    proof {
        assert(cs@.skip(n as int) =~= Seq::<char>::empty());
        assert(drop_ascii_digits(cs@) =~= r@);
    }
    r
}

pub(crate) fn str_chars(s: &str) -> (r: Vec<char>)
    ensures
        r@ == s@,
{
    let n = s.unicode_len();
    let mut v: Vec<char> = Vec::new();
    let mut i: usize = 0;
    while i < n
        invariant
            i <= n,
            n == s@.len(),
            v@ == s@.take(i as int),
        decreases n - i,
    {
        v.push(s.get_char(i));
        proof {
            assert(v@ =~= s@.take(i as int + 1));
        }
        i += 1;
    }
    proof {
        assert(s@.take(n as int) =~= s@);
    }
    v
}

pub(crate) fn chars_copy(cs: &Vec<char>) -> (r: Vec<char>)
    ensures
        r@ == cs@,
{
    let n = cs.len();
    let mut r: Vec<char> = Vec::new();
    let mut i: usize = 0;
    while i < n
        invariant
            i <= n,
            n == cs@.len(),
            r@ == cs@.take(i as int),
        decreases n - i,
    {
        r.push(cs[i]);
        proof {
            assert(r@ =~= cs@.take(i as int + 1));
        }
        i += 1;
    }
    proof {
        assert(cs@.take(n as int) =~= cs@);
    }
    r
}

pub(crate) fn chars_eq(a: &Vec<char>, b: &Vec<char>) -> (r: bool)
    ensures
        r == (a@ == b@),
{
    if a.len() != b.len() {
        return false;
    }
    let n = a.len();
    let mut i: usize = 0;
    while i < n
        invariant
            i <= n,
            n == a@.len(),
            n == b@.len(),
            forall|k: int| 0 <= k < i ==> a@[k] == b@[k],
        decreases n - i,
    {
        if a[i] != b[i] {
            return false;
        }
        i += 1;
    }
    proof {
        assert(a@ =~= b@);
    }
    true
}

/// Relies on `String`'s `FromIterator` over `char`: the collected string
/// holds exactly the characters of the vector, in order.
#[verifier::external_body]
pub(crate) fn chars_string(cs: &Vec<char>) -> (r: String)
    ensures
        r@ == cs@,
{
    cs.iter().collect()
}

} // verus!
