use std::cell::Cell;

use errno::text::string_from_chars;
use errno::windows::from_utf16_lossy;
use errno::windows::with_description;
use errno::ErrorCode;

fn wide(text: &str) -> Vec<u16> {
    let mut v: Vec<u16> = text.encode_utf16().collect();
    v.push(0);
    v
}

fn deliver(units: Vec<u16>, written: u32) -> Result<String, ErrorCode> {
    with_description(
        ErrorCode(5),
        move |_code: u32, _cap: usize| (written, units),
        || ErrorCode(0),
        |r: Result<String, ErrorCode>| r,
    )
}

#[test]
fn format_failure_reports_last_error() {
    let out = with_description(
        ErrorCode(5),
        |_code: u32, _cap: usize| (0u32, Vec::new()),
        || ErrorCode(317),
        |r: Result<String, ErrorCode>| r,
    );
    assert_eq!(out, Err(ErrorCode(317)));
}

#[test]
fn trims_trailing_crlf() {
    let units = wide("Access is denied.\r\n");
    let written = units.len() as u32 - 1;
    assert_eq!(deliver(units, written), Ok(String::from("Access is denied.")));
}

#[test]
fn multi_line_message_keeps_inner_breaks() {
    let units = wide("The system cannot find the file specified.\r\nMore data follows.\r\n\r\n");
    let written = units.len() as u32 - 1;
    assert_eq!(
        deliver(units, written),
        Ok(String::from(
            "The system cannot find the file specified.\r\nMore data follows."
        )),
    );
}

#[test]
fn surrogate_pair_is_decoded() {
    let units = wide("ok \u{1F600}");
    let written = units.len() as u32 - 1;
    assert_eq!(deliver(units, written), Ok(String::from("ok \u{1F600}")));
}

#[test]
fn unpaired_surrogate_becomes_replacement_character() {
    let units = vec![0xD800u16, b'A' as u16, 0];
    assert_eq!(deliver(units, 2), Ok(String::from("\u{FFFD}A")));
}

#[test]
fn only_reported_units_are_read() {
    let units = wide("ABCDEF");
    assert_eq!(deliver(units, 3), Ok(String::from("ABC")));
}

#[test]
fn reported_count_beyond_buffer_is_clamped() {
    let units: Vec<u16> = vec![b'h' as u16, b'i' as u16];
    assert_eq!(deliver(units, 50), Ok(String::from("hi")));
}

#[test]
fn format_consumer_invoked_exactly_once() {
    let calls = Cell::new(0u32);
    with_description(
        ErrorCode(5),
        |_code: u32, _cap: usize| (0u32, Vec::new()),
        || ErrorCode(87),
        |_r: Result<String, ErrorCode>| calls.set(calls.get() + 1),
    );
    assert_eq!(calls.get(), 1);
}

#[test]
fn output_is_bounded_without_splitting_a_character() {
    // Each 'é' takes two output bytes: with five bytes of room only two fit,
    // and the third is dropped whole.
    let units: Vec<u16> = "ééé".encode_utf16().collect();
    let fitted = from_utf16_lossy(&units, 3, 5);
    assert_eq!(string_from_chars(&fitted), "éé");
}
