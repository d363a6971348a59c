use errno::ErrorCode;

#[test]
fn error_code_equality_is_by_value() {
    assert_eq!(ErrorCode(2), ErrorCode(2));
    assert_ne!(ErrorCode(2), ErrorCode(3));
    assert!(ErrorCode(2) < ErrorCode(3));
}

#[test]
fn set_then_current_round_trip() {
    for code in [0, 2, 5, 7, 9999, i32::MAX] {
        errno::set(ErrorCode(code));
        assert_eq!(errno::current(), ErrorCode(code));
    }
}

#[test]
fn backend_facility_names() {
    assert_eq!(errno::posix::STRERROR_NAME, "strerror_r");
    assert_eq!(errno::windows::STRERROR_NAME, "FormatMessageW");
}

#[test]
fn facade_describe_is_the_platform_backend() {
    let out = errno::describe(
        ErrorCode(1),
        |_code: i32, _cap: usize| (0i32, b"Operation not permitted\0".to_vec()),
        |r: Result<String, ErrorCode>| r.unwrap(),
    );
    assert_eq!(out, "Operation not permitted");
}
