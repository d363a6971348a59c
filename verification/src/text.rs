//! Character-level helpers shared by the two backends: the UTF-8 width of a
//! scalar value, and building a `String` from decoded characters.

use vstd::prelude::*;

verus! {

/// A Unicode scalar value: a code point outside the surrogate range.
pub open spec fn is_scalar_value(v: int) -> bool {
    (0 <= v < 0xD800) || (0xE000 <= v <= 0x10FFFF)
}

/// How many bytes the UTF-8 encoding of code point `v` takes.
pub open spec fn utf8_width(v: int) -> int {
    if v < 0x80 {
        1
    } else if v < 0x800 {
        2
    } else if v < 0x10000 {
        3
    } else {
        4
    }
}

/// Total UTF-8 byte length of a character sequence.
pub open spec fn utf8_len(s: Seq<char>) -> int
    decreases s.len(),
{
    if s.len() == 0 {
        0
    } else {
        utf8_width(s[0] as int) + utf8_len(s.skip(1))
    }
}

pub proof fn lemma_utf8_len_nonneg(s: Seq<char>)
    ensures
        utf8_len(s) >= 0,
    decreases s.len(),
{
    if s.len() > 0 {
        lemma_utf8_len_nonneg(s.skip(1));
    }
}

/// The UTF-8 length splits at any cut point.
pub proof fn lemma_utf8_len_split(s: Seq<char>, k: int)
    requires
        0 <= k <= s.len(),
    ensures
        utf8_len(s) == utf8_len(s.take(k)) + utf8_len(s.skip(k)),
    decreases s.len(),
{
    if k == 0 {
        assert(s.take(0) =~= Seq::<char>::empty());
        assert(s.skip(0) =~= s);
    } else {
        lemma_utf8_len_split(s.skip(1), k - 1);
        assert(s.skip(1).take(k - 1) =~= s.take(k).skip(1));
        assert(s.skip(1).skip(k - 1) =~= s.skip(k));
        assert(s.take(k)[0] == s[0]);
    }
}

/// A prefix never takes more UTF-8 bytes than the whole.
pub proof fn lemma_utf8_len_prefix(s: Seq<char>, k: int)
    requires
        0 <= k <= s.len(),
    ensures
        utf8_len(s.take(k)) <= utf8_len(s),
{
    lemma_utf8_len_split(s, k);
    lemma_utf8_len_nonneg(s.skip(k));
}

/// Computes the UTF-8 byte width of `c`.
pub fn char_utf8_width(c: char) -> (r: usize)
    ensures
        r == utf8_width(c as int),
        1 <= r <= 4,
{
    let v = c as u32;
    if v < 0x80 {
        1
    } else if v < 0x800 {
        2
    } else if v < 0x10000 {
        3
    } else {
        4
    }
}

/// Turns a scalar value into the character it denotes.
///
/// Relies on `char::from_u32`: returns `Some` exactly when the argument is a
/// Unicode scalar value (not a surrogate and at most `0x10FFFF`), carrying a
/// `char` with that value, so the unwrap cannot fail here.
#[verifier::external_body]
pub fn char_of_scalar(v: u32) -> (r: char)
    requires
        is_scalar_value(v as int),
    ensures
        r as u32 == v,
{
    char::from_u32(v).unwrap()
}

/// Appends one character to a string.
///
/// Relies on `String::push`: appends the given `char` to the end of the
/// string.
#[verifier::external_body]
pub fn push_char(s: &mut String, c: char)
    ensures
        final(s)@ == old(s)@.push(c),
{
    s.push(c)
}

/// Builds a `String` holding exactly the characters of `chars`.
pub fn string_from_chars(chars: &Vec<char>) -> (r: String)
    ensures
        r@ == chars@,
{
    let mut r = String::new();
    let mut i: usize = 0;
    while i < chars.len()
        invariant
            i <= chars@.len(),
            r@ == chars@.take(i as int),
        decreases chars@.len() - i,
    {
        push_char(&mut r, chars[i]);
        proof {
            assert(chars@.take(i + 1 as int) == chars@.take(i as int).push(chars@[i as int]));
        }
        i = i + 1;
    }
    proof {
        assert(chars@.take(chars@.len() as int) == chars@);
    }
    r
}

} // verus!
