use godotserver::guid::is_valid_guid;

#[test]
fn plain_guid_is_valid() {
    assert!(is_valid_guid("12345678-1234-1234-1234-123456789abc"));
}

#[test]
fn uppercase_hex_guid_is_valid() {
    assert!(is_valid_guid("ABCDEF01-2345-6789-ABCD-EF0123456789"));
}

#[test]
fn mixed_case_guid_is_valid() {
    assert!(is_valid_guid("aBcDeF01-2345-6789-abcd-EF0123456789"));
}

#[test]
fn braced_guid_is_valid() {
    assert!(is_valid_guid("{12345678-1234-1234-1234-123456789abc}"));
}

#[test]
fn parenthesized_guid_is_valid() {
    assert!(is_valid_guid("(12345678-1234-1234-1234-123456789abc)"));
}

#[test]
fn mismatched_wrappers_are_valid() {
    // the two wrappers are independent of each other
    assert!(is_valid_guid("{12345678-1234-1234-1234-123456789abc)"));
    assert!(is_valid_guid("(12345678-1234-1234-1234-123456789abc}"));
}

#[test]
fn one_sided_wrappers_are_valid() {
    assert!(is_valid_guid("{12345678-1234-1234-1234-123456789abc"));
    assert!(is_valid_guid("12345678-1234-1234-1234-123456789abc)"));
}

#[test]
fn empty_string_is_invalid() {
    assert!(!is_valid_guid(""));
}

#[test]
fn short_segment_is_invalid() {
    assert!(!is_valid_guid("1234567-1234-1234-1234-123456789abc"));
    assert!(!is_valid_guid("12345678-1234-1234-1234-123456789ab"));
}

#[test]
fn long_segment_is_invalid() {
    assert!(!is_valid_guid("123456789-1234-1234-1234-123456789abc"));
}

#[test]
fn non_hex_character_is_invalid() {
    assert!(!is_valid_guid("1234567g-1234-1234-1234-123456789abc"));
    assert!(!is_valid_guid("12345678-1234-1234-1234-123456789abz"));
}

#[test]
fn missing_dashes_are_invalid() {
    assert!(!is_valid_guid("12345678 1234-1234-1234-123456789abc"));
    assert!(!is_valid_guid("12345678123412341234123456789abc"));
}

#[test]
fn double_wrappers_are_invalid() {
    assert!(!is_valid_guid("{{12345678-1234-1234-1234-123456789abc}}"));
}

#[test]
fn trailing_noise_is_invalid() {
    assert!(!is_valid_guid("12345678-1234-1234-1234-123456789abc "));
    assert!(!is_valid_guid("x12345678-1234-1234-1234-123456789abc"));
}
