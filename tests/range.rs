use script_extractor::attributes::{parse_number, read_attributes};
use script_extractor::layout::ParseError;
use script_extractor::range::{extract_range, parse_page_number};

#[test]
fn single_page() {
    assert_eq!(extract_range("42"), Some((42, 42)));
    assert_eq!(extract_range("+7"), Some((7, 7)));
}

#[test]
fn page_span() {
    assert_eq!(extract_range("3-15"), Some((3, 15)));
    assert_eq!(extract_range("0-4294967295"), Some((0, 4294967295)));
}

#[test]
fn not_a_range() {
    assert_eq!(extract_range("foo"), None);
    assert_eq!(extract_range(""), None);
    assert_eq!(extract_range("1-2-3"), None);
    assert_eq!(extract_range("-3"), None);
    assert_eq!(extract_range("3-"), None);
    assert_eq!(extract_range("+1-2"), None);
    assert_eq!(extract_range("4294967296"), None);
    assert_eq!(extract_range("1-4294967296"), None);
}

#[test]
fn page_numbers() {
    assert_eq!(parse_page_number("12"), Some(12));
    assert_eq!(parse_page_number("+12"), Some(12));
    assert_eq!(parse_page_number("007"), Some(7));
    assert_eq!(parse_page_number("-1"), None);
    assert_eq!(parse_page_number("+"), None);
    assert_eq!(parse_page_number("1 "), None);
}

#[test]
fn signed_numbers() {
    assert_eq!(parse_number("42"), Some(42));
    assert_eq!(parse_number("-17"), Some(-17));
    assert_eq!(parse_number("+3"), Some(3));
    assert_eq!(parse_number("2147483647"), Some(i32::MAX));
    assert_eq!(parse_number("-2147483648"), Some(i32::MIN));
    assert_eq!(parse_number("2147483648"), None);
    assert_eq!(parse_number("-2147483649"), None);
    assert_eq!(parse_number("-"), None);
    assert_eq!(parse_number("1.5"), None);
    assert_eq!(parse_number(""), None);
}

#[test]
fn line_attributes() {
    let pair = |n: &str, v: &str| (n.to_string(), v.to_string());
    let attrs = vec![pair("top", "120"), pair("left", "-4"), pair("width", "x"), pair("height", "12")];
    assert_eq!(read_attributes(&attrs), Ok((120, -4, 12)));
    let later_wins = vec![pair("top", "1"), pair("left", "2"), pair("height", "3"), pair("top", "9")];
    assert_eq!(read_attributes(&later_wins), Ok((9, 2, 3)));
    let missing = vec![pair("top", "1"), pair("left", "2")];
    assert_eq!(read_attributes(&missing), Err(ParseError::MalformedInput));
    let garbled = vec![pair("top", "1"), pair("left", "two"), pair("height", "3")];
    assert_eq!(read_attributes(&garbled), Err(ParseError::MalformedInput));
}
