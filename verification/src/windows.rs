//! Windows-shaped backend: the last-error slot and the `FormatMessageW`
//! message-formatting convention.
//!
//! The native formatting call writes UTF-16 units into a fixed wide buffer
//! and returns how many it wrote; the native last-error read reports why a
//! formatting call failed.  Both are native code of another platform, so they
//! are passed in as closures, and everything around them — the failure
//! decision, decoding, output bounding, and trimming the trailing line break
//! the facility conventionally appends — is verified here.

use vstd::prelude::*;

use crate::text::string_from_chars;
use crate::utf16::decode_utf16;
use crate::utf16::decode_wide;
use crate::utf16::fitting_len;
use crate::utf16::nul_len16;
use crate::utf16::take_fitting;
use crate::ErrorCode;

verus! {

/// Name of the native lookup facility this backend is shaped around.
pub const STRERROR_NAME: &'static str = "FormatMessageW";

/// Size in 16-bit units of the wide buffer a formatting call is asked to fill.
pub const WIDE_BUF_LEN: usize = 2048;

/// Size in bytes allowed for the UTF-8 encoding of the delivered text.
pub const OUT_BUF_LEN: usize = 2048;

/// True of the characters of a trailing carriage-return/line-feed sequence.
pub open spec fn is_line_break(c: char) -> bool {
    c == '\r' || c == '\n'
}

/// Length of `s` once trailing carriage-return and line-feed characters are
/// dropped.
pub open spec fn trimmed_len(s: Seq<char>) -> int
    decreases s.len(),
{
    if s.len() == 0 {
        0
    } else if is_line_break(s[s.len() - 1]) {
        trimmed_len(s.take(s.len() - 1))
    } else {
        s.len() as int
    }
}

/// Trimming only ever shortens.
pub proof fn lemma_trimmed_len_bounds(s: Seq<char>)
    ensures
        0 <= trimmed_len(s) <= s.len(),
    decreases s.len(),
{
    if s.len() > 0 && is_line_break(s[s.len() - 1]) {
        lemma_trimmed_len_bounds(s.take(s.len() - 1));
    }
}

/// Trimming leaves no carriage return or line feed at the end.
pub proof fn lemma_trimmed_no_trailing_break(s: Seq<char>)
    ensures
        trimmed_len(s) > 0 ==> !is_line_break(s[trimmed_len(s) - 1]),
    decreases s.len(),
{
    if s.len() > 0 && is_line_break(s[s.len() - 1]) {
        lemma_trimmed_no_trailing_break(s.take(s.len() - 1));
        lemma_trimmed_len_bounds(s.take(s.len() - 1));
        let t = trimmed_len(s);
        if t > 0 {
            assert(s.take(s.len() - 1)[t - 1] == s[t - 1]);
        }
    }
}

/// The delivered message always fits the output budget: its UTF-8 encoding
/// takes at most `OUT_BUF_LEN` bytes, however many units the native call
/// reported.
pub proof fn lemma_message_chars_fit(units: Seq<u16>, written: int)
    ensures
        0 <= crate::text::utf8_len(message_chars(units, written)) <= OUT_BUF_LEN as int,
{
    let avail = if written <= units.len() {
        written
    } else {
        units.len() as int
    };
    let decoded = decode_utf16(units.take(avail).take(nul_len16(units.take(avail))));
    let fitted = decoded.take(fitting_len(decoded, OUT_BUF_LEN as int));
    crate::utf16::lemma_fitting_len_fits(decoded, OUT_BUF_LEN as int);
    lemma_trimmed_len_bounds(fitted);
    crate::text::lemma_utf8_len_prefix(fitted, trimmed_len(fitted));
    crate::text::lemma_utf8_len_nonneg(message_chars(units, written));
}

/// A non-empty delivered message never ends in a carriage return or line
/// feed: the trailing sequence the native formatting call conventionally
/// appends has been stripped.
pub proof fn lemma_message_no_trailing_break(units: Seq<u16>, written: int)
    ensures
        message_chars(units, written).len() > 0 ==> !is_line_break(
            message_chars(units, written).last(),
        ),
{
    let avail = if written <= units.len() {
        written
    } else {
        units.len() as int
    };
    let decoded = decode_utf16(units.take(avail).take(nul_len16(units.take(avail))));
    let fitted = decoded.take(fitting_len(decoded, OUT_BUF_LEN as int));
    lemma_trimmed_len_bounds(fitted);
    lemma_trimmed_no_trailing_break(fitted);
    let t = trimmed_len(fitted);
    if t > 0 {
        assert(fitted.take(t)[t - 1] == fitted[t - 1]);
    }
}

/// Drops trailing carriage-return and line-feed characters.
pub fn trim_line_breaks(chars: Vec<char>) -> (r: Vec<char>)
    ensures
        r@ == chars@.take(trimmed_len(chars@)),
{
    let mut out = chars;
    let ghost full: Seq<char> = out@;
    let mut k: usize = out.len();
    proof {
        assert(full.take(k as int) =~= full);
    }
    loop
        invariant
            k <= full.len(),
            full == out@,
            trimmed_len(full) == trimmed_len(full.take(k as int)),
        ensures
            full == out@ && trimmed_len(full) == k,
        decreases k,
    {
        if k == 0 {
            break;
        }
        let c = out[k - 1];
        proof {
            assert(full.take(k as int)[k - 1] == full[k - 1]);
        }
        if c == '\r' || c == '\n' {
            proof {
                assert(full.take(k as int).take(k - 1 as int) =~= full.take(k - 1 as int));
            }
            k = k - 1;
        } else {
            proof {
                assert(trimmed_len(full.take(k as int)) == k);
            }
            break;
        }
    }
    out.truncate(k);
    proof {
        assert(out@ == full.subrange(0, trimmed_len(full)));
        assert(full.subrange(0, trimmed_len(full)) =~= full.take(trimmed_len(full)));
    }
    out
}

/// Decodes the first `n` units of `units` as UTF-16 — replacement character
/// for unpaired surrogates, stopping at the first NUL — and keeps the leading
/// characters whose UTF-8 encodings together fit in `cap` bytes, dropping
/// everything from the first overflowing character on.
pub fn from_utf16_lossy(units: &Vec<u16>, n: usize, cap: usize) -> (r: Vec<char>)
    requires
        n <= units@.len(),
    ensures
        ({
            let decoded = decode_utf16(
                units@.take(n as int).take(nul_len16(units@.take(n as int))),
            );
            r@ == decoded.take(fitting_len(decoded, cap as int))
        }),
{
    let decoded = decode_wide(units, n);
    take_fitting(&decoded, cap)
}

/// The text delivered for a formatting call that reported `written` units:
/// the units actually available are decoded as UTF-16 up to the first NUL,
/// bounded to the output budget, and stripped of the trailing line break.
pub open spec fn message_chars(units: Seq<u16>, written: int) -> Seq<char> {
    let avail = if written <= units.len() {
        written
    } else {
        units.len() as int
    };
    let decoded = decode_utf16(units.take(avail).take(nul_len16(units.take(avail))));
    let fitted = decoded.take(fitting_len(decoded, OUT_BUF_LEN as int));
    fitted.take(trimmed_len(fitted))
}

/// What a describe call hands its consumer, given the formatting call's unit
/// count `res` (zero reports failure), the last-error state `observed` read
/// right after a failing call, and the wide buffer contents `units`.
pub open spec fn formatted_outcome(
    res: u32,
    observed: ErrorCode,
    units: Seq<u16>,
    outcome: Result<String, ErrorCode>,
) -> bool {
    if res == 0 {
        outcome == Result::<String, ErrorCode>::Err(observed)
    } else {
        outcome matches Ok(s) && s@ == message_chars(units, res as int)
    }
}

/// Any text a describe call delivers fits the output budget and carries no
/// trailing line break, whatever the native call wrote.
pub proof fn lemma_formatted_text_sound(
    res: u32,
    observed: ErrorCode,
    units: Seq<u16>,
    outcome: Result<String, ErrorCode>,
)
    requires
        formatted_outcome(res, observed, units, outcome),
    ensures
        outcome matches Ok(s) ==> {
            &&& crate::text::utf8_len(s@) <= OUT_BUF_LEN as int
            &&& (s@.len() > 0 ==> !is_line_break(s@.last()))
        },
{
    if outcome is Ok && res != 0 {
        lemma_message_chars_fit(units, res as int);
        lemma_message_no_trailing_break(units, res as int);
    }
}

/// Looks up the description of `err` and hands it to `callback`, which is
/// invoked exactly once, synchronously, with either the decoded, bounded and
/// trimmed text or the error code observed when the formatting call itself
/// failed.
///
/// `format_message` stands for the native `FormatMessageW`-style call: it
/// gets the code (as the unsigned value the native slot holds) and the wide
/// buffer size to use, and returns the number of units written — zero
/// reporting failure — together with the buffer it filled.  `last_error`
/// stands for the native last-error read; it is consulted immediately after
/// a failing call, before anything else can overwrite the slot.
pub fn with_description<L, G, F, T>(
    err: ErrorCode,
    format_message: L,
    last_error: G,
    callback: F,
) -> (r: T) where
    L: FnOnce(u32, usize) -> (u32, Vec<u16>),
    G: FnOnce() -> ErrorCode,
    F: FnOnce(Result<String, ErrorCode>) -> T,

    requires
        call_requires(format_message, (err.0 as u32, WIDE_BUF_LEN)),
        call_requires(last_error, ()),
        forall|o: Result<String, ErrorCode>| call_requires(callback, (o,)),
    ensures
        exists|res: u32, units: Vec<u16>, observed: ErrorCode, o: Result<String, ErrorCode>|
            {
                &&& #[trigger] call_ensures(format_message, (err.0 as u32, WIDE_BUF_LEN), (res, units))
                &&& #[trigger] formatted_outcome(res, observed, units@, o)
                &&& #[trigger] call_ensures(callback, (o,), r)
            },
{
    let (res, units) = format_message(err.0 as u32, WIDE_BUF_LEN);
    if res == 0 {
        let observed = last_error();
        let outcome: Result<String, ErrorCode> = Err(observed);
        let ghost o = outcome;
        let r = callback(outcome);
        proof {
            assert(call_ensures(format_message, (err.0 as u32, WIDE_BUF_LEN), (res, units)));
            assert(formatted_outcome(res, observed, units@, o));
            assert(call_ensures(callback, (o,), r));
        }
        return r;
    }
    let n = if (res as usize) < units.len() {
        res as usize
    } else {
        units.len()
    };
    let fitted = from_utf16_lossy(&units, n, OUT_BUF_LEN);
    let trimmed = trim_line_breaks(fitted);
    let text = string_from_chars(&trimmed);
    let outcome: Result<String, ErrorCode> = Ok(text);
    let ghost o = outcome;
    let r = callback(outcome);
    proof {
        assert(call_ensures(format_message, (err.0 as u32, WIDE_BUF_LEN), (res, units)));
        assert(formatted_outcome(res, ErrorCode(0), units@, o));
        assert(call_ensures(callback, (o,), r));
    }
    r
}

} // verus!
