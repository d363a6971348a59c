//! Decoding native message bytes as UTF-8.
//!
//! A POSIX message lookup fills a byte buffer in the locale encoding; this
//! library reads it as UTF-8 and keeps the longest well-formed prefix,
//! dropping everything from the first invalid or incomplete unit on, so that
//! some description text is available even when the encoding is not clean.

use vstd::prelude::*;

use crate::text::is_scalar_value;
use crate::text::utf8_width;

verus! {

/// True of a UTF-8 continuation byte (`10xxxxxx`).
pub open spec fn is_cont(b: u8) -> bool {
    0x80 <= b < 0xC0
}

/// True when `b0 b1` can open a well-formed three-byte sequence: the ranges
/// exclude overlong forms (`E0 A0..`) and surrogates (`ED 80..9F` only).
pub open spec fn is_three_byte_lead(b0: u8, b1: u8) -> bool {
    ||| (b0 == 0xE0 && 0xA0 <= b1 < 0xC0)
    ||| (0xE1 <= b0 <= 0xEC && is_cont(b1))
    ||| (b0 == 0xED && 0x80 <= b1 < 0xA0)
    ||| (0xEE <= b0 <= 0xEF && is_cont(b1))
}

/// True when `b0 b1` can open a well-formed four-byte sequence: the ranges
/// exclude overlong forms (`F0 90..`) and values past `U+10FFFF` (`F4 80..8F`).
pub open spec fn is_four_byte_lead(b0: u8, b1: u8) -> bool {
    ||| (b0 == 0xF0 && 0x90 <= b1 < 0xC0)
    ||| (0xF1 <= b0 <= 0xF3 && is_cont(b1))
    ||| (b0 == 0xF4 && 0x80 <= b1 < 0x90)
}

/// Length (1 to 4) of the well-formed UTF-8 sequence at the front of `s`,
/// or 0 when `s` does not start with one.
pub open spec fn step_len(s: Seq<u8>) -> int {
    if s.len() >= 1 && s[0] < 0x80 {
        1
    } else if s.len() >= 2 && 0xC2 <= s[0] <= 0xDF && is_cont(s[1]) {
        2
    } else if s.len() >= 3 && is_three_byte_lead(s[0], s[1]) && is_cont(s[2]) {
        3
    } else if s.len() >= 4 && is_four_byte_lead(s[0], s[1]) && is_cont(s[2]) && is_cont(s[3]) {
        4
    } else {
        0
    }
}

/// Scalar value of the sequence at the front of `s`; meaningful only when
/// `step_len(s) > 0`.
pub open spec fn step_scalar(s: Seq<u8>) -> int {
    let k = step_len(s);
    if k == 1 {
        s[0] as int
    } else if k == 2 {
        (s[0] as int - 0xC0) * 0x40 + (s[1] as int - 0x80)
    } else if k == 3 {
        (s[0] as int - 0xE0) * 0x1000 + (s[1] as int - 0x80) * 0x40 + (s[2] as int - 0x80)
    } else if k == 4 {
        (s[0] as int - 0xF0) * 0x40000 + (s[1] as int - 0x80) * 0x1000 + (s[2] as int - 0x80)
            * 0x40 + (s[3] as int - 0x80)
    } else {
        0
    }
}

/// True when `s` is entirely made of well-formed UTF-8 sequences.
pub open spec fn valid_utf8(s: Seq<u8>) -> bool
    decreases s.len(),
{
    s.len() == 0 || (step_len(s) > 0 && valid_utf8(s.skip(step_len(s))))
}

/// The characters denoted by the longest well-formed UTF-8 prefix of `s`:
/// decoding stops at the first invalid or incomplete sequence.
pub open spec fn decode_utf8(s: Seq<u8>) -> Seq<char>
    decreases s.len(),
{
    if step_len(s) <= 0 {
        Seq::empty()
    } else {
        seq![step_scalar(s) as char] + decode_utf8(s.skip(step_len(s)))
    }
}

/// A well-formed sequence always denotes a Unicode scalar value, and its
/// byte length is exactly the UTF-8 width of that value.
pub proof fn lemma_step_scalar_in_range(s: Seq<u8>)
    requires
        step_len(s) > 0,
    ensures
        is_scalar_value(step_scalar(s)),
        utf8_width(step_scalar(s)) == step_len(s),
{
}

/// Taking a prefix that covers the front sequence leaves it intact.
proof fn lemma_step_take(s: Seq<u8>, k: int)
    requires
        step_len(s) > 0,
        step_len(s) <= k <= s.len(),
    ensures
        step_len(s.take(k)) == step_len(s),
        step_scalar(s.take(k)) == step_scalar(s),
{
    assert(s.take(k)[0] == s[0]);
    if k >= 2 {
        assert(s.take(k)[1] == s[1]);
    }
    if k >= 3 {
        assert(s.take(k)[2] == s[2]);
    }
    if k >= 4 {
        assert(s.take(k)[3] == s[3]);
    }
}

/// The decoded text is exactly the decoding of a well-formed prefix of the
/// input, and its own UTF-8 length is that prefix's length, so the text never
/// holds an invalid or incomplete sequence and is never longer than what the
/// native call wrote.
pub proof fn lemma_decode_utf8_sound(s: Seq<u8>)
    ensures
        exists|k: int|
            0 <= k <= s.len() && valid_utf8(#[trigger] s.take(k)) && decode_utf8(s)
                == decode_utf8(s.take(k)) && crate::text::utf8_len(decode_utf8(s)) == k,
    decreases s.len(),
{
    if step_len(s) <= 0 {
        assert(s.take(0) =~= Seq::<u8>::empty());
        assert(valid_utf8(s.take(0)));
        assert(crate::text::utf8_len(decode_utf8(s)) == 0);
        assert(decode_utf8(s.take(0)) =~= decode_utf8(s));
    } else {
        let st = step_len(s);
        let rest = s.skip(st);
        lemma_decode_utf8_sound(rest);
        let k0 = choose|k0: int|
            0 <= k0 <= rest.len() && valid_utf8(#[trigger] rest.take(k0)) && decode_utf8(rest)
                == decode_utf8(rest.take(k0)) && crate::text::utf8_len(decode_utf8(rest)) == k0;
        let k = st + k0;
        lemma_step_take(s, k);
        lemma_step_scalar_in_range(s);
        let c = step_scalar(s) as char;
        assert(c as int == step_scalar(s));
        assert(s.take(k).skip(st) =~= rest.take(k0));
        assert(valid_utf8(s.take(k)));
        assert(decode_utf8(s) == seq![c] + decode_utf8(rest));
        assert(decode_utf8(s.take(k)) == seq![c] + decode_utf8(rest.take(k0)));
        assert((seq![c] + decode_utf8(rest)).skip(1) =~= decode_utf8(rest));
        assert((seq![c] + decode_utf8(rest))[0] == c);
        assert(crate::text::utf8_len(decode_utf8(s)) == crate::text::utf8_width(c as int)
            + crate::text::utf8_len(decode_utf8(rest)));
        assert(0 <= k <= s.len() && valid_utf8(s.take(k)) && decode_utf8(s) == decode_utf8(
            s.take(k),
        ) && crate::text::utf8_len(decode_utf8(s)) == k);
    }
}

/// Computes `is_cont(b)`.
fn cont_byte(b: u8) -> (r: bool)
    ensures
        r == is_cont(b),
{
    0x80 <= b && b < 0xC0
}

/// Decodes the longest well-formed UTF-8 prefix of the first `n` bytes of
/// `buf`, dropping everything from the first invalid or incomplete unit on.
pub fn from_utf8_lossy(buf: &Vec<u8>, n: usize) -> (r: Vec<char>)
    requires
        n <= buf@.len(),
    ensures
        r@ == decode_utf8(buf@.take(n as int)),
{
    let ghost full: Seq<u8> = buf@.take(n as int);
    let mut chars: Vec<char> = Vec::new();
    let mut i: usize = 0;
    proof {
        assert(full.skip(0) =~= full);
        assert(chars@ + decode_utf8(full) =~= decode_utf8(full));
    }
    loop
        invariant
            i <= n <= buf@.len(),
            full == buf@.take(n as int),
            decode_utf8(full) == chars@ + decode_utf8(full.skip(i as int)),
        ensures
            chars@ == decode_utf8(full),
        decreases n - i,
    {
        let ghost rest: Seq<u8> = full.skip(i as int);
        if i >= n {
            proof {
                assert(rest.len() == 0);
                assert(decode_utf8(rest) =~= Seq::<char>::empty());
                assert(chars@ + decode_utf8(rest) =~= chars@);
            }
            break;
        }
        let b0 = buf[i];
        proof {
            assert(rest[0] == buf@[i as int]);
        }
        let mut step: usize = 0;
        let mut v: u32 = 0;
        if b0 < 0x80 {
            step = 1;
            v = b0 as u32;
        } else if n - i >= 2 {
            let b1 = buf[i + 1];
            proof {
                assert(rest[1] == buf@[i + 1 as int]);
            }
            if 0xC2 <= b0 && b0 <= 0xDF && cont_byte(b1) {
                step = 2;
                v = (b0 as u32 - 0xC0) * 0x40 + (b1 as u32 - 0x80);
            } else if n - i >= 3 {
                let b2 = buf[i + 2];
                proof {
                    assert(rest[2] == buf@[i + 2 as int]);
                }
                let three = (b0 == 0xE0 && 0xA0 <= b1 && b1 < 0xC0) || (0xE1 <= b0 && b0 <= 0xEC
                    && cont_byte(b1)) || (b0 == 0xED && 0x80 <= b1 && b1 < 0xA0) || (0xEE <= b0
                    && b0 <= 0xEF && cont_byte(b1));
                if three && cont_byte(b2) {
                    step = 3;
                    v = (b0 as u32 - 0xE0) * 0x1000 + (b1 as u32 - 0x80) * 0x40 + (b2 as u32
                        - 0x80);
                } else if n - i >= 4 {
                    let b3 = buf[i + 3];
                    proof {
                        assert(rest[3] == buf@[i + 3 as int]);
                    }
                    let four = (b0 == 0xF0 && 0x90 <= b1 && b1 < 0xC0) || (0xF1 <= b0 && b0 <= 0xF3
                        && cont_byte(b1)) || (b0 == 0xF4 && 0x80 <= b1 && b1 < 0x90);
                    if four && cont_byte(b2) && cont_byte(b3) {
                        step = 4;
                        v = (b0 as u32 - 0xF0) * 0x40000 + (b1 as u32 - 0x80) * 0x1000 + (b2 as u32
                            - 0x80) * 0x40 + (b3 as u32 - 0x80);
                    }
                }
            }
        }
        if step == 0 {
            proof {
                assert(step_len(rest) == 0);
                assert(decode_utf8(rest) =~= Seq::<char>::empty());
                assert(chars@ + decode_utf8(rest) =~= chars@);
            }
            break;
        }
        proof {
            assert(step_len(rest) == step as int);
            assert(step_scalar(rest) == v as int);
            lemma_step_scalar_in_range(rest);
        }
        let c = crate::text::char_of_scalar(v);
        chars.push(c);
        proof {
            assert(c == step_scalar(rest) as char);
            assert(rest.skip(step as int) =~= full.skip(i + step as int));
            assert(decode_utf8(rest) == seq![c] + decode_utf8(full.skip(i + step as int)));
            assert(chars@ + decode_utf8(full.skip(i + step as int)) =~= decode_utf8(full));
        }
        i = i + step;
    }
    chars
}

} // verus!

