use kenney_atlas::text::parse_u32;

#[test]
fn parses_zero() {
    assert_eq!(parse_u32("0"), Some(0));
}

#[test]
fn parses_plain_number() {
    assert_eq!(parse_u32("64"), Some(64));
}

#[test]
fn parses_u32_max() {
    assert_eq!(parse_u32("4294967295"), Some(u32::MAX));
}

#[test]
fn rejects_one_past_u32_max() {
    assert_eq!(parse_u32("4294967296"), None);
}

#[test]
fn rejects_much_too_large() {
    assert_eq!(parse_u32("99999999999999999999"), None);
}

#[test]
fn parses_leading_zeros() {
    assert_eq!(parse_u32("007"), Some(7));
}

#[test]
fn rejects_empty() {
    assert_eq!(parse_u32(""), None);
}

#[test]
fn rejects_letters() {
    assert_eq!(parse_u32("abc"), None);
}

#[test]
fn rejects_trailing_letter() {
    assert_eq!(parse_u32("12a"), None);
}

#[test]
fn rejects_negative() {
    assert_eq!(parse_u32("-1"), None);
}

#[test]
fn rejects_plus_sign() {
    assert_eq!(parse_u32("+1"), None);
}

#[test]
fn rejects_leading_space() {
    assert_eq!(parse_u32(" 1"), None);
}

#[test]
fn rejects_trailing_space() {
    assert_eq!(parse_u32("1 "), None);
}

#[test]
fn rejects_decimal_point() {
    assert_eq!(parse_u32("1.5"), None);
}
