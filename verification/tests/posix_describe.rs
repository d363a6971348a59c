use std::cell::Cell;

use errno::posix::with_description;
use errno::text::string_from_chars;
use errno::utf8::from_utf8_lossy;
use errno::ErrorCode;

fn msg_buffer(text: &[u8]) -> Vec<u8> {
    let mut v = text.to_vec();
    v.push(0);
    v
}

#[test]
fn describe_known_code_mentions_missing_file() {
    // ErrorCode(2) is POSIX ENOENT; the real message mentions the missing file.
    let text = with_description(
        ErrorCode(2),
        |code: i32, _cap: usize| (0i32, msg_buffer(nix::errno::Errno::from_raw(code).desc().as_bytes())),
        |r: Result<String, ErrorCode>| r.unwrap(),
    );
    assert!(text.contains("No such file"), "unexpected message: {text}");
}

#[test]
fn describe_out_of_range_code_yields_unknown_style_message() {
    // A code far outside any defined condition still describes cleanly.
    let text = with_description(
        ErrorCode(999_999),
        |code: i32, _cap: usize| (0i32, msg_buffer(nix::errno::Errno::from_raw(code).desc().as_bytes())),
        |r: Result<String, ErrorCode>| r.unwrap(),
    );
    assert!(text.contains("Unknown"), "unexpected message: {text}");
}

#[test]
fn describe_failure_reports_freshly_observed_code() {
    let out = with_description(
        ErrorCode(999_999),
        |_code: i32, _cap: usize| {
            // A failing lookup leaves its own reason in the thread's errno slot.
            errno::set(ErrorCode(22));
            (-1i32, Vec::new())
        },
        |r: Result<String, ErrorCode>| r,
    );
    assert_eq!(out, Err(ErrorCode(22)));
}

#[test]
fn describe_buffer_too_small_still_delivers_truncated_text() {
    assert_eq!(errno::posix::ERANGE, 34);
    let out = with_description(
        ErrorCode(7),
        |_code: i32, _cap: usize| {
            errno::set(ErrorCode(errno::posix::ERANGE));
            (-1i32, msg_buffer(b"Numerical result out of ra"))
        },
        |r: Result<String, ErrorCode>| r,
    );
    assert_eq!(out, Ok(String::from("Numerical result out of ra")));
}

#[test]
fn describe_truncates_at_first_invalid_unit() {
    // A dangling lead byte before the terminator is dropped, not delivered.
    let out = with_description(
        ErrorCode(1),
        |_code: i32, _cap: usize| (0i32, msg_buffer(b"ab\xC3")),
        |r: Result<String, ErrorCode>| r.unwrap(),
    );
    assert_eq!(out, "ab");

    let out = with_description(
        ErrorCode(1),
        |_code: i32, _cap: usize| (0i32, msg_buffer(b"\x80oops")),
        |r: Result<String, ErrorCode>| r.unwrap(),
    );
    assert_eq!(out, "");
}

#[test]
fn describe_keeps_multibyte_text() {
    let out = with_description(
        ErrorCode(1),
        |_code: i32, _cap: usize| (0i32, msg_buffer("opération interdite".as_bytes())),
        |r: Result<String, ErrorCode>| r.unwrap(),
    );
    assert_eq!(out, "opération interdite");
}

#[test]
fn describe_stops_at_first_nul() {
    let out = with_description(
        ErrorCode(1),
        |_code: i32, _cap: usize| (0i32, b"first\0second\0".to_vec()),
        |r: Result<String, ErrorCode>| r.unwrap(),
    );
    assert_eq!(out, "first");
}

#[test]
fn describe_handles_buffer_without_terminator() {
    let out = with_description(
        ErrorCode(1),
        |_code: i32, _cap: usize| (0i32, vec![b'x'; 1024]),
        |r: Result<String, ErrorCode>| r.unwrap(),
    );
    assert_eq!(out.len(), 1024);
    assert!(out.bytes().all(|b| b == b'x'));
}

#[test]
fn describe_invokes_consumer_exactly_once_on_success() {
    let calls = Cell::new(0u32);
    with_description(
        ErrorCode(2),
        |_code: i32, _cap: usize| (0i32, msg_buffer(b"fine")),
        |_r: Result<String, ErrorCode>| calls.set(calls.get() + 1),
    );
    assert_eq!(calls.get(), 1);
}

#[test]
fn describe_invokes_consumer_exactly_once_on_failure() {
    let calls = Cell::new(0u32);
    with_description(
        ErrorCode(2),
        |_code: i32, _cap: usize| {
            errno::set(ErrorCode(5));
            (-1i32, Vec::new())
        },
        |_r: Result<String, ErrorCode>| calls.set(calls.get() + 1),
    );
    assert_eq!(calls.get(), 1);
}

#[test]
fn utf8_prefix_survives_truncation_at_capacity_boundary() {
    // A message cut off by the buffer edge in the middle of a sequence loses
    // only the partial character.
    let mut buf = vec![b'a'; 1023];
    buf.push(0xC3);
    let chars = from_utf8_lossy(&buf, 1024);
    assert_eq!(chars.len(), 1023);
    assert!(chars.iter().all(|&c| c == 'a'));
}

#[test]
fn utf8_rejects_overlong_and_surrogate_forms() {
    // Overlong encoding of '/'.
    assert_eq!(from_utf8_lossy(&vec![0xC0, 0xAF], 2), Vec::<char>::new());
    // UTF-8-encoded surrogate.
    assert_eq!(from_utf8_lossy(&vec![0xED, 0xA0, 0x80], 3), Vec::<char>::new());
    // Largest scalar value is kept...
    let top = from_utf8_lossy(&vec![0xF4, 0x8F, 0xBF, 0xBF], 4);
    assert_eq!(string_from_chars(&top), "\u{10FFFF}");
    // ...anything past it is not.
    assert_eq!(from_utf8_lossy(&vec![0xF4, 0x90, 0x80, 0x80], 4), Vec::<char>::new());
}
