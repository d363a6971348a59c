//! Reading and describing the operating system's per-thread last-error code.
//!
//! The OS keeps one mutable error slot per thread (POSIX `errno`, or the
//! Windows last-error value).  This library exposes that slot through a thin
//! value type, [`ErrorCode`], together with backends that turn a code into
//! human-readable text: a POSIX-like backend built on the `strerror_r`
//! convention and a Windows-shaped backend built on the `FormatMessageW`
//! convention.  All text handed out is decoded and bounds-checked here, so a
//! caller never sees a malformed or over-long message.

use vstd::prelude::*;

pub mod posix;
pub mod text;
pub mod utf16;
pub mod utf8;
pub mod windows;

// On this build the POSIX-like backend is the platform's own; the facade
// names its describe operation, leaving the native lookup call a parameter.
pub use crate::posix::with_description as describe;

verus! {

/// A native operating-system error code.
///
/// Wraps exactly one signed 32-bit integer with the platform's meaning
/// (POSIX `errno` value, or a Windows last-error value read as `i32`).
/// Zero conventionally means "no error", but no validity range is enforced:
/// equality and ordering are by the wrapped integer alone.
#[derive(Clone, Copy, PartialEq, Eq, Structural, Debug, Hash, PartialOrd, Ord)]
pub struct ErrorCode(pub i32);

/// Reads the calling thread's OS error slot.
///
/// Reading always succeeds; the value is whatever the last failing call on
/// this thread stored there, or an unspecified leftover value if nothing has
/// failed yet, so nothing can be promised of the result.  Any OS or library
/// call made in between can overwrite the slot, so read it before anything
/// else runs.
pub fn current() -> ErrorCode {
    crate::posix::errno()
}

/// Writes `code` into the calling thread's OS error slot.
///
/// A pure side effect on external per-thread state, used to prepare a known
/// state or to hand a code back to native-call conventions.
pub fn set(code: ErrorCode) {
    crate::posix::set_errno(code)
}

} // verus!
