//! Decoding native wide-character message units as UTF-16.
//!
//! A Windows-style message lookup fills a buffer of 16-bit units; this
//! library decodes them with the standard replacement character standing in
//! for any unpaired surrogate, reading only up to a NUL unit.

use vstd::prelude::*;

use crate::text::is_scalar_value;
use crate::text::utf8_width;

verus! {

/// The standard replacement character, substituted for unpaired surrogates.
pub const REPLACEMENT: char = '\u{FFFD}';

/// True of a high (leading) surrogate unit.
pub open spec fn is_high_surrogate(u: u16) -> bool {
    0xD800 <= u < 0xDC00
}

/// True of a low (trailing) surrogate unit.
pub open spec fn is_low_surrogate(u: u16) -> bool {
    0xDC00 <= u < 0xE000
}

/// How many units the decoder consumes at the front of `s`: two for a valid
/// surrogate pair, one for anything else.
pub open spec fn u16_step_len(s: Seq<u16>) -> int {
    if s.len() >= 2 && is_high_surrogate(s[0]) && is_low_surrogate(s[1]) {
        2
    } else {
        1
    }
}

/// Scalar value the decoder produces at the front of `s`: the unit itself
/// outside the surrogate range, the combined code point for a valid pair,
/// and the replacement character for an unpaired surrogate.
pub open spec fn u16_step_scalar(s: Seq<u16>) -> int {
    if u16_step_len(s) == 2 {
        0x10000 + (s[0] as int - 0xD800) * 0x400 + (s[1] as int - 0xDC00)
    } else if is_high_surrogate(s[0]) || is_low_surrogate(s[0]) {
        0xFFFD
    } else {
        s[0] as int
    }
}

/// The characters denoted by `s` decoded as UTF-16, one replacement
/// character for each unpaired surrogate unit.
pub open spec fn decode_utf16(s: Seq<u16>) -> Seq<char>
    decreases s.len(),
{
    if s.len() == 0 {
        Seq::empty()
    } else {
        seq![u16_step_scalar(s) as char] + decode_utf16(s.skip(u16_step_len(s)))
    }
}

/// The decoder only ever produces Unicode scalar values.
pub proof fn lemma_u16_step_scalar_in_range(s: Seq<u16>)
    requires
        s.len() > 0,
    ensures
        is_scalar_value(u16_step_scalar(s)),
{
}

/// Length of the NUL-terminated front of `s`: the index of the first zero
/// unit, or `s.len()` when there is none.
pub open spec fn nul_len16(s: Seq<u16>) -> int
    decreases s.len(),
{
    if s.len() == 0 {
        0
    } else if s[0] == 0 {
        0
    } else {
        1 + nul_len16(s.skip(1))
    }
}

proof fn lemma_nul_len16_at(s: Seq<u16>, i: int)
    requires
        0 <= i <= s.len(),
        forall|j: int| 0 <= j < i ==> s[j] != 0,
        i == s.len() || s[i] == 0,
    ensures
        nul_len16(s) == i,
    decreases i,
{
    if s.len() == 0 || i == 0 {
    } else {
        assert forall|j: int| 0 <= j < i - 1 implies s.skip(1)[j] != 0 by {
            assert(s.skip(1)[j] == s[j + 1]);
        }
        if i < s.len() {
            assert(s.skip(1)[i - 1] == s[i]);
        }
        lemma_nul_len16_at(s.skip(1), i - 1);
    }
}

/// Measures the filled part of a wide buffer: the units before the first NUL,
/// or all `n` when no NUL was written among them.
pub fn wide_len(units: &Vec<u16>, n: usize) -> (r: usize)
    requires
        n <= units@.len(),
    ensures
        r == nul_len16(units@.take(n as int)),
        r <= n,
{
    let ghost full: Seq<u16> = units@.take(n as int);
    let mut i: usize = 0;
    loop
        invariant
            i <= n <= units@.len(),
            full == units@.take(n as int),
            forall|j: int| 0 <= j < i ==> full[j] != 0,
        ensures
            nul_len16(full) == i,
        decreases n - i,
    {
        if i >= n {
            proof {
                lemma_nul_len16_at(full, i as int);
            }
            break;
        }
        if units[i] == 0 {
            proof {
                lemma_nul_len16_at(full, i as int);
            }
            break;
        }
        i = i + 1;
    }
    i
}

/// Decodes the first `n` units of `units` as UTF-16, substituting the
/// replacement character for unpaired surrogates and stopping at the first
/// NUL unit.
pub fn decode_wide(units: &Vec<u16>, n: usize) -> (r: Vec<char>)
    requires
        n <= units@.len(),
    ensures
        r@ == decode_utf16(units@.take(n as int).take(nul_len16(units@.take(n as int)))),
{
    let m = wide_len(units, n);
    let ghost full: Seq<u16> = units@.take(n as int).take(
        nul_len16(units@.take(n as int)),
    );
    proof {
        assert forall|j: int| 0 <= j < m implies full[j] == units@[j] by {}
    }
    let mut chars: Vec<char> = Vec::new();
    let mut i: usize = 0;
    proof {
        assert(full.skip(0) =~= full);
        assert(chars@ + decode_utf16(full) =~= decode_utf16(full));
    }
    loop
        invariant
            i <= m <= n <= units@.len(),
            m == nul_len16(units@.take(n as int)),
            full == units@.take(n as int).take(m as int),
            decode_utf16(full) == chars@ + decode_utf16(full.skip(i as int)),
        ensures
            chars@ == decode_utf16(full),
        decreases m - i,
    {
        let ghost rest: Seq<u16> = full.skip(i as int);
        if i >= m {
            proof {
                assert(rest.len() == 0);
                assert(decode_utf16(rest) =~= Seq::<char>::empty());
                assert(chars@ + decode_utf16(rest) =~= chars@);
            }
            break;
        }
        let u0 = units[i];
        proof {
            assert(rest[0] == full[i as int]);
            assert(full[i as int] == units@[i as int]);
        }
        let mut step: usize = 1;
        let mut v: u32 = 0;
        if 0xD800 <= u0 && u0 < 0xDC00 {
            let mut paired = false;
            if i + 1 < m {
                let u1 = units[i + 1];
                proof {
                    assert(rest[1] == full[i + 1 as int]);
                    assert(full[i + 1 as int] == units@[i + 1 as int]);
                }
                if 0xDC00 <= u1 && u1 < 0xE000 {
                    paired = true;
                    step = 2;
                    v = 0x10000 + (u0 as u32 - 0xD800) * 0x400 + (u1 as u32 - 0xDC00);
                }
            }
            if !paired {
                v = REPLACEMENT as u32;
            }
        } else if 0xDC00 <= u0 && u0 < 0xE000 {
            v = REPLACEMENT as u32;
        } else {
            v = u0 as u32;
        }
        proof {
            assert(u16_step_len(rest) == step as int);
            assert(u16_step_scalar(rest) == v as int);
            lemma_u16_step_scalar_in_range(rest);
        }
        let c = crate::text::char_of_scalar(v);
        chars.push(c);
        proof {
            assert(c == u16_step_scalar(rest) as char);
            assert(rest.skip(step as int) =~= full.skip(i + step as int));
            assert(decode_utf16(rest) == seq![c] + decode_utf16(full.skip(i + step as int)));
            assert(chars@ + decode_utf16(full.skip(i + step as int)) =~= decode_utf16(full));
        }
        i = i + step;
    }
    chars
}

/// Number of leading characters of `s` whose UTF-8 encodings fit together in
/// `cap` bytes: encoding stops just before the first character that would
/// overflow the output, so a partial character is dropped, never emitted.
pub open spec fn fitting_len(s: Seq<char>, cap: int) -> int
    decreases s.len(),
{
    if s.len() == 0 {
        0
    } else if utf8_width(s[0] as int) <= cap {
        1 + fitting_len(s.skip(1), cap - utf8_width(s[0] as int))
    } else {
        0
    }
}

/// What fits in `cap` bytes indeed takes at most `cap` bytes once encoded,
/// so bounding the output can never overflow it.
pub proof fn lemma_fitting_len_fits(s: Seq<char>, cap: int)
    requires
        cap >= 0,
    ensures
        0 <= fitting_len(s, cap) <= s.len(),
        crate::text::utf8_len(s.take(fitting_len(s, cap))) <= cap,
    decreases s.len(),
{
    if s.len() == 0 || crate::text::utf8_width(s[0] as int) > cap {
        assert(s.take(0) =~= Seq::<char>::empty());
    } else {
        let w = crate::text::utf8_width(s[0] as int);
        lemma_fitting_len_fits(s.skip(1), cap - w);
        let f = fitting_len(s, cap);
        assert(s.take(f).skip(1) =~= s.skip(1).take(f - 1));
        assert(s.take(f)[0] == s[0]);
    }
}

/// Keeps the leading characters of `chars` whose UTF-8 encodings together
/// fit in `cap` bytes, dropping everything from the first overflowing
/// character on.
pub fn take_fitting(chars: &Vec<char>, cap: usize) -> (r: Vec<char>)
    ensures
        r@ == chars@.take(fitting_len(chars@, cap as int)),
{
    let ghost full: Seq<char> = chars@;
    let mut out: Vec<char> = Vec::new();
    let mut used: usize = 0;
    let mut i: usize = 0;
    proof {
        assert(full.skip(0) =~= full);
        assert(out@ =~= full.take(0));
    }
    loop
        invariant
            i <= full.len(),
            used <= cap,
            full == chars@,
            out@ == full.take(i as int),
            fitting_len(full, cap as int) == i + fitting_len(
                full.skip(i as int),
                cap as int - used as int,
            ),
        ensures
            fitting_len(full, cap as int) == i && out@ == full.take(i as int),
        decreases full.len() - i,
    {
        let ghost rest: Seq<char> = full.skip(i as int);
        if i >= chars.len() {
            proof {
                assert(rest.len() == 0);
            }
            break;
        }
        let c = chars[i];
        proof {
            assert(rest[0] == full[i as int]);
        }
        let w = crate::text::char_utf8_width(c);
        if w > cap - used {
            proof {
                assert(fitting_len(rest, cap as int - used as int) == 0);
            }
            break;
        }
        out.push(c);
        used = used + w;
        proof {
            assert(rest.skip(1) =~= full.skip(i + 1));
            assert(out@ =~= full.take(i + 1));
        }
        i = i + 1;
    }
    out
}

} // verus!
