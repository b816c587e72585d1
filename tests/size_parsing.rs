use workload_gen::{parse_bandwidth_string, parse_size_string, ParseError};

#[test]
fn test_parse_size_string() {
    assert_eq!(parse_size_string("1GB").unwrap(), 1024 * 1024 * 1024);
    assert_eq!(parse_size_string("100MB").unwrap(), 100 * 1024 * 1024);
    assert_eq!(parse_size_string("4KB").unwrap(), 4 * 1024);
    assert_eq!(parse_size_string("1024").unwrap(), 1024);
}

#[test]
fn test_parse_bandwidth_string() {
    assert_eq!(parse_bandwidth_string("unlimited").unwrap(), None);
    assert_eq!(parse_bandwidth_string("100MB/s").unwrap(), Some(100 * 1024 * 1024));
}

#[test]
fn size_suffixes_ignore_case_and_whitespace() {
    assert_eq!(parse_size_string("  2gb \t"), Ok(2 * 1024 * 1024 * 1024));
    assert_eq!(parse_size_string("3Kb"), Ok(3 * 1024));
    assert_eq!(parse_size_string("512B"), Ok(512));
    assert_eq!(parse_size_string("512b"), Ok(512));
}

#[test]
fn size_fractions_round_down() {
    assert_eq!(parse_size_string("1.5GB"), Ok(1610612736));
    assert_eq!(parse_size_string("0.1KB"), Ok(102));
    assert_eq!(parse_size_string(".5MB"), Ok(524288));
    assert_eq!(parse_size_string("2.KB"), Ok(2048));
}

#[test]
fn size_rejects_malformed_text() {
    assert_eq!(parse_size_string(""), Err(ParseError::Invalid));
    assert_eq!(parse_size_string("GB"), Err(ParseError::Invalid));
    assert_eq!(parse_size_string("1.5B"), Err(ParseError::Invalid));
    assert_eq!(parse_size_string("1.2.3MB"), Err(ParseError::Invalid));
    assert_eq!(parse_size_string("12x"), Err(ParseError::Invalid));
    assert_eq!(parse_size_string("-4KB"), Err(ParseError::Invalid));
    assert_eq!(parse_size_string("."), Err(ParseError::Invalid));
    assert_eq!(parse_size_string("1.0000000000000000001KB"), Err(ParseError::Invalid));
}

#[test]
fn size_reports_values_beyond_u64() {
    assert_eq!(parse_size_string("18446744073709551615"), Ok(u64::MAX));
    assert_eq!(parse_size_string("18446744073709551616"), Err(ParseError::TooLarge));
    assert_eq!(parse_size_string("17179869184GB"), Err(ParseError::TooLarge));
    assert_eq!(parse_size_string("17179869183GB"), Ok(17179869183 * 1024 * 1024 * 1024));
}

#[test]
fn bandwidth_forms() {
    assert_eq!(parse_bandwidth_string("  UNLIMITED "), Ok(None));
    assert_eq!(parse_bandwidth_string("1gb/S"), Ok(Some(1024 * 1024 * 1024)));
    assert_eq!(parse_bandwidth_string("4096"), Ok(Some(4096)));
    assert_eq!(parse_bandwidth_string("10/sKB"), Ok(Some(10 * 1024)));
    assert_eq!(parse_bandwidth_string("fast"), Err(ParseError::Invalid));
    assert_eq!(parse_bandwidth_string("unlimited/s"), Err(ParseError::Invalid));
}

#[test]
fn unicode_white_space_is_trimmed() {
    assert_eq!(parse_size_string("\u{a0}5"), Ok(5));
    assert_eq!(parse_size_string("\u{3000}2KB\u{2003}\u{85}"), Ok(2048));
    assert_eq!(parse_bandwidth_string("\u{a0}5"), Ok(Some(5)));
    assert_eq!(parse_bandwidth_string("\u{2028}unlimited\u{202f}"), Ok(None));
    assert_eq!(parse_size_string("\u{a0}"), Err(ParseError::Invalid));
}

#[test]
fn long_s_counts_as_per_second() {
    assert_eq!(parse_bandwidth_string("100MB/\u{17f}"), Ok(Some(100 * 1024 * 1024)));
}

#[test]
fn leading_plus_is_accepted() {
    assert_eq!(parse_size_string("+512B"), Ok(512));
    assert_eq!(parse_size_string("+1.5KB"), Ok(1536));
    assert_eq!(parse_size_string("+"), Err(ParseError::Invalid));
    assert_eq!(parse_size_string("++1"), Err(ParseError::Invalid));
}
