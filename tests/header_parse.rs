use hurl_lite::header::{ArbitraryHeader, ArbitraryHeaderError};

fn field(name: &str, value: &str) -> ArbitraryHeader {
    ArbitraryHeader { name: name.to_string(), value: value.to_string() }
}

#[test]
fn test_basic_header_parse() {
    assert_eq!(ArbitraryHeader::from_str("test: value").unwrap(), field("test", "value"));
}

#[test]
fn splits_at_last_colon() {
    // The separator is the last colon, so the earlier ones stay in the name
    // segment, which a colon makes invalid.
    assert_eq!(
        ArbitraryHeader::from_str("X-Date: Mon, 01 Jan 2024 00:00:00 GMT"),
        Err(ArbitraryHeaderError::InvalidName("X-Date: Mon, 01 Jan 2024 00:00".to_string()))
    );
}

#[test]
fn colon_in_name_segment_stays_there() {
    assert_eq!(
        ArbitraryHeader::from_str("a:b: c"),
        Err(ArbitraryHeaderError::InvalidName("a:b".to_string()))
    );
}

#[test]
fn no_colon_is_missing_separator() {
    assert_eq!(
        ArbitraryHeader::from_str("bad-header-no-colon"),
        Err(ArbitraryHeaderError::MissingSeparator)
    );
    assert_eq!(ArbitraryHeader::from_str(""), Err(ArbitraryHeaderError::MissingSeparator));
}

#[test]
fn space_in_name_is_invalid_name() {
    assert_eq!(
        ArbitraryHeader::from_str("bad name: v"),
        Err(ArbitraryHeaderError::InvalidName("bad name".to_string()))
    );
}

#[test]
fn control_char_in_name_is_invalid_name() {
    assert_eq!(
        ArbitraryHeader::from_str("a\u{1}b: v"),
        Err(ArbitraryHeaderError::InvalidName("a\u{1}b".to_string()))
    );
}

#[test]
fn empty_name_is_invalid_name() {
    assert_eq!(
        ArbitraryHeader::from_str("  : v"),
        Err(ArbitraryHeaderError::InvalidName(String::new()))
    );
}

#[test]
fn name_length_limit() {
    let ok = format!("{}: v", "a".repeat(65535));
    assert_eq!(ArbitraryHeader::from_str(&ok).unwrap().name.len(), 65535);
    let long = "a".repeat(65536);
    assert_eq!(
        ArbitraryHeader::from_str(&format!("{}: v", long)),
        Err(ArbitraryHeaderError::InvalidName(long))
    );
}

#[test]
fn invalid_name_reported_before_invalid_value() {
    assert_eq!(
        ArbitraryHeader::from_str("a b: x\ny"),
        Err(ArbitraryHeaderError::InvalidName("a b".to_string()))
    );
}

#[test]
fn newline_in_value_is_invalid_value() {
    assert_eq!(
        ArbitraryHeader::from_str("a: b\nc"),
        Err(ArbitraryHeaderError::InvalidValue("b\nc".to_string()))
    );
}

#[test]
fn del_in_value_is_invalid_value() {
    assert_eq!(
        ArbitraryHeader::from_str("a: b\u{7f}"),
        Err(ArbitraryHeaderError::InvalidValue("b\u{7f}".to_string()))
    );
}

#[test]
fn tab_and_non_ascii_in_value_are_kept() {
    assert_eq!(ArbitraryHeader::from_str("a: b\tc").unwrap(), field("a", "b\tc"));
    assert_eq!(ArbitraryHeader::from_str("a: caf\u{e9}").unwrap(), field("a", "caf\u{e9}"));
}

#[test]
fn whitespace_is_trimmed() {
    assert_eq!(
        ArbitraryHeader::from_str(" test : value "),
        ArbitraryHeader::from_str("test: value")
    );
    assert_eq!(ArbitraryHeader::from_str(" test : value ").unwrap(), field("test", "value"));
}

#[test]
fn unicode_whitespace_is_trimmed() {
    assert_eq!(
        ArbitraryHeader::from_str("\u{3000}a:\u{a0}v\u{2003}").unwrap(),
        field("a", "v")
    );
}

#[test]
fn trailing_newline_is_trimmed_away() {
    assert_eq!(ArbitraryHeader::from_str("a: v\n").unwrap(), field("a", "v"));
}

#[test]
fn empty_value_is_valid() {
    assert_eq!(ArbitraryHeader::from_str("a:").unwrap(), field("a", ""));
    assert_eq!(ArbitraryHeader::from_str("a:   ").unwrap(), field("a", ""));
}

#[test]
fn name_is_lowered() {
    assert_eq!(
        ArbitraryHeader::from_str("Content-Type: Text/Plain").unwrap(),
        field("content-type", "Text/Plain")
    );
    assert_eq!(ArbitraryHeader::from_str("X-Custom-Thing!: 1").unwrap(), field("x-custom-thing!", "1"));
}
