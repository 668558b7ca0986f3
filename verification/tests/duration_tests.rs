use chat_core::duration::parse_duration_secs;

#[test]
fn parses_minutes() {
    assert_eq!(parse_duration_secs("10m"), Some(600));
}

#[test]
fn parses_hours() {
    assert_eq!(parse_duration_secs("2h"), Some(7200));
}

#[test]
fn parses_seconds_days_weeks() {
    assert_eq!(parse_duration_secs("1s"), Some(1));
    assert_eq!(parse_duration_secs("45s"), Some(45));
    assert_eq!(parse_duration_secs("1d"), Some(86400));
    assert_eq!(parse_duration_secs("2w"), Some(1209600));
}

#[test]
fn rejects_words() {
    assert_eq!(parse_duration_secs("abc"), None);
}

#[test]
fn rejects_unknown_unit() {
    assert_eq!(parse_duration_secs("10x"), None);
}

#[test]
fn rejects_missing_unit() {
    assert_eq!(parse_duration_secs("5"), None);
}

#[test]
fn rejects_missing_digits() {
    assert_eq!(parse_duration_secs("m"), None);
    assert_eq!(parse_duration_secs(""), None);
}

#[test]
fn rejects_digits_inside_unit() {
    assert_eq!(parse_duration_secs("1m0"), None);
    assert_eq!(parse_duration_secs("m10"), None);
}

#[test]
fn rejects_value_too_large_for_u64() {
    assert_eq!(parse_duration_secs("99999999999999999999s"), None);
}

#[test]
fn rejects_product_too_large_for_u64() {
    assert_eq!(parse_duration_secs("10000000000000000000w"), None);
}

#[test]
fn accepts_leading_zeros() {
    assert_eq!(parse_duration_secs("007m"), Some(420));
}
