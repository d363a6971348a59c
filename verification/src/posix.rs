//! POSIX-like backend: the `errno` thread-local slot and the `strerror_r`
//! message-lookup convention.
//!
//! The lookup call itself is native code that fills a caller-owned byte
//! buffer; it is passed in as a closure so that everything around it — the
//! failure decision, the fresh `errno` capture, measuring and decoding the
//! buffer — is verified here.

use vstd::prelude::*;

use crate::text::string_from_chars;
use crate::utf8::decode_utf8;
use crate::utf8::from_utf8_lossy;
use crate::ErrorCode;

verus! {

/// Name of the native lookup facility this backend is shaped around.
pub const STRERROR_NAME: &'static str = "strerror_r";

/// Size in bytes of the scratch buffer a lookup is asked to fill.
pub const MSG_BUF_LEN: usize = 1024;

/// The `errno` value by which a lookup reports that the buffer was too small
/// for the whole message: POSIX `ERANGE`, 34 on Linux.
pub const ERANGE: i32 = 34;

/// Reads the calling thread's `errno` slot.
///
/// Relies on `nix::errno::Errno::last_raw`: returns the current raw `i32`
/// value of the thread-local `errno`.  The value depends on external
/// per-thread state, so nothing is promised of it.
#[verifier::external_body]
pub fn errno() -> ErrorCode {
    ErrorCode(nix::errno::Errno::last_raw())
}

/// Writes the calling thread's `errno` slot.
///
/// Relies on `nix::errno::Errno::set_raw`: sets the raw `i32` value of the
/// thread-local `errno`.  The effect is on external per-thread state, so
/// nothing is stated here.
#[verifier::external_body]
pub fn set_errno(code: ErrorCode) {
    nix::errno::Errno::set_raw(code.0)
}

/// Reads the platform's "result too large" code.
///
/// Relies on `libc::ERANGE`, which is 34 on Linux targets.
#[verifier::external_body]
fn erange() -> (r: i32)
    ensures
        r == ERANGE,
{
    libc::ERANGE
}

/// Length of the C string at the front of `s`: the index of the first NUL
/// byte, or `s.len()` when there is none.
pub open spec fn nul_len(s: Seq<u8>) -> int
    decreases s.len(),
{
    if s.len() == 0 {
        0
    } else if s[0] == 0 {
        0
    } else {
        1 + nul_len(s.skip(1))
    }
}

proof fn lemma_nul_len_at(s: Seq<u8>, i: int)
    requires
        0 <= i <= s.len(),
        forall|j: int| 0 <= j < i ==> s[j] != 0,
        i == s.len() || s[i] == 0,
    ensures
        nul_len(s) == i,
    decreases i,
{
    if s.len() == 0 || i == 0 {
    } else {
        assert forall|j: int| 0 <= j < i - 1 implies s.skip(1)[j] != 0 by {
            assert(s.skip(1)[j] == s[j + 1]);
        }
        if i < s.len() {
            assert(s.skip(1)[i - 1] == s[i]);
        }
        lemma_nul_len_at(s.skip(1), i - 1);
    }
}

/// Measures the filled part of a lookup buffer: the bytes before the first
/// NUL terminator, or all of it when no terminator was written.
pub fn c_str_len(buf: &Vec<u8>) -> (r: usize)
    ensures
        r == nul_len(buf@),
        r <= buf@.len(),
{
    let mut i: usize = 0;
    loop
        invariant
            i <= buf@.len(),
            forall|j: int| 0 <= j < i ==> buf@[j] != 0,
        ensures
            nul_len(buf@) == i,
        decreases buf@.len() - i,
    {
        if i >= buf.len() {
            proof {
                lemma_nul_len_at(buf@, i as int);
            }
            break;
        }
        if buf[i] == 0 {
            proof {
                lemma_nul_len_at(buf@, i as int);
            }
            break;
        }
        i = i + 1;
    }
    i
}

/// What a describe call hands its consumer, given the lookup's return value
/// `res`, the thread error state `observed` right after a failing lookup,
/// and the buffer contents `buf`: a failing lookup surfaces the freshly
/// observed code, except that "buffer too small" still delivers the
/// (truncated) text, measured up to the NUL terminator and decoded as UTF-8
/// up to the first invalid unit.
pub open spec fn described_outcome(
    res: i32,
    observed: ErrorCode,
    buf: Seq<u8>,
    outcome: Result<String, ErrorCode>,
) -> bool {
    if res < 0 && observed.0 != ERANGE {
        outcome == Result::<String, ErrorCode>::Err(observed)
    } else {
        outcome matches Ok(s) && s@ == decode_utf8(buf.take(nul_len(buf)))
    }
}

/// The front of a buffer never ends past the buffer.
pub proof fn lemma_nul_len_le(s: Seq<u8>)
    ensures
        0 <= nul_len(s) <= s.len(),
    decreases s.len(),
{
    if s.len() > 0 && s[0] != 0 {
        lemma_nul_len_le(s.skip(1));
    }
}

/// Any text a describe call delivers decodes a well-formed prefix of the
/// NUL-terminated front of the lookup buffer: it never holds an invalid or
/// incomplete encoding unit, and its own UTF-8 length never exceeds what the
/// native call wrote.
pub proof fn lemma_described_text_sound(
    res: i32,
    observed: ErrorCode,
    buf: Seq<u8>,
    outcome: Result<String, ErrorCode>,
)
    requires
        described_outcome(res, observed, buf, outcome),
    ensures
        outcome matches Ok(s) ==> exists|k: int|
            0 <= k <= nul_len(buf) && crate::utf8::valid_utf8(#[trigger] buf.take(k)) && s@
                == decode_utf8(buf.take(k)) && crate::text::utf8_len(s@) == k,
{
    if outcome is Ok {
        let front = buf.take(nul_len(buf));
        lemma_nul_len_le(buf);
        crate::utf8::lemma_decode_utf8_sound(front);
        let k = choose|k: int|
            0 <= k <= front.len() && crate::utf8::valid_utf8(#[trigger] front.take(k))
                && decode_utf8(front) == decode_utf8(front.take(k)) && crate::text::utf8_len(
                decode_utf8(front),
            ) == k;
        assert(front.take(k) =~= buf.take(k));
    }
}

/// Looks up the description of `err` and hands it to `callback`, which is
/// invoked exactly once, synchronously, with either the decoded text or the
/// error code observed when the lookup itself failed.
///
/// `lookup` stands for the native `strerror_r`-style call: it gets the raw
/// code and the buffer size to use, and returns its status (negative on
/// failure) together with the buffer it filled.  On failure the thread's
/// error state is read back immediately — before any other call can
/// overwrite it — and, unless it is the "buffer too small" code, surfaced to
/// the consumer; "buffer too small" is treated as a usable truncated result.
pub fn with_description<L, F, T>(err: ErrorCode, lookup: L, callback: F) -> (r: T) where
    L: FnOnce(i32, usize) -> (i32, Vec<u8>),
    F: FnOnce(Result<String, ErrorCode>) -> T,

    requires
        call_requires(lookup, (err.0, MSG_BUF_LEN)),
        forall|o: Result<String, ErrorCode>| call_requires(callback, (o,)),
    ensures
        exists|res: i32, buf: Vec<u8>, observed: ErrorCode, o: Result<String, ErrorCode>|
            {
                &&& #[trigger] call_ensures(lookup, (err.0, MSG_BUF_LEN), (res, buf))
                &&& #[trigger] described_outcome(res, observed, buf@, o)
                &&& #[trigger] call_ensures(callback, (o,), r)
            },
{
    let (res, buf) = lookup(err.0, MSG_BUF_LEN);
    let ghost mut wit_observed: ErrorCode = ErrorCode(ERANGE);
    if res < 0 {
        let observed = errno();
        proof {
            wit_observed = observed;
        }
        if observed.0 != erange() {
            let outcome: Result<String, ErrorCode> = Err(observed);
            let ghost o = outcome;
            let r = callback(outcome);
            proof {
                assert(call_ensures(lookup, (err.0, MSG_BUF_LEN), (res, buf)));
                assert(described_outcome(res, observed, buf@, o));
                assert(call_ensures(callback, (o,), r));
            }
            return r;
        }
    }
    let n = c_str_len(&buf);
    let chars = from_utf8_lossy(&buf, n);
    let text = string_from_chars(&chars);
    let outcome: Result<String, ErrorCode> = Ok(text);
    let ghost o = outcome;
    let r = callback(outcome);
    proof {
        assert(call_ensures(lookup, (err.0, MSG_BUF_LEN), (res, buf)));
        assert(described_outcome(res, wit_observed, buf@, o));
        assert(call_ensures(callback, (o,), r));
    }
    r
}

} // verus!
