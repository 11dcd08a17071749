use grain::interval::format_interval;
use grain::interval::parse_interval;
use grain::interval::IntervalError;

#[test]
fn parses_plain_seconds() {
    assert_eq!(parse_interval("1s"), Ok(1000));
    assert_eq!(parse_interval("2s"), Ok(2000));
    assert_eq!(parse_interval("1"), Ok(1000));
    assert_eq!(parse_interval("10"), Ok(10_000));
}

#[test]
fn parses_milliseconds() {
    assert_eq!(parse_interval("100ms"), Ok(100));
    assert_eq!(parse_interval("250ms"), Ok(250));
    assert_eq!(parse_interval("999.9ms"), Ok(999));
}

#[test]
fn parses_fractional_seconds_to_whole_milliseconds() {
    assert_eq!(parse_interval("1.5s"), Ok(1500));
    assert_eq!(parse_interval("0.1s"), Ok(100));
    assert_eq!(parse_interval(".5s"), Ok(500));
    assert_eq!(parse_interval("5."), Ok(5000));
    assert_eq!(parse_interval("0.1234s"), Ok(123));
}

#[test]
fn trims_whitespace_and_ignores_suffix_case() {
    assert_eq!(parse_interval("  1s  "), Ok(1000));
    assert_eq!(parse_interval("\t2S\n"), Ok(2000));
    assert_eq!(parse_interval("500MS"), Ok(500));
    assert_eq!(parse_interval("500Ms"), Ok(500));
}

#[test]
fn trims_unicode_whitespace() {
    assert_eq!(parse_interval("1s\u{a0}"), Ok(1000));
    assert_eq!(parse_interval("\u{3000}2s\u{85}"), Ok(2000));
    assert_eq!(parse_interval("\u{2009}150ms\u{b}"), Ok(150));
}

#[test]
fn refuses_malformed_values() {
    assert_eq!(parse_interval(""), Err(IntervalError::Invalid));
    assert_eq!(parse_interval("abc"), Err(IntervalError::Invalid));
    assert_eq!(parse_interval("ms"), Err(IntervalError::Invalid));
    assert_eq!(parse_interval("s"), Err(IntervalError::Invalid));
    assert_eq!(parse_interval("."), Err(IntervalError::Invalid));
    assert_eq!(parse_interval(".s"), Err(IntervalError::Invalid));
    assert_eq!(parse_interval("1.2.3s"), Err(IntervalError::Invalid));
    assert_eq!(parse_interval("1 0s"), Err(IntervalError::Invalid));
    assert_eq!(parse_interval("-1s"), Err(IntervalError::Invalid));
    assert_eq!(parse_interval("1e3"), Err(IntervalError::Invalid));
}

#[test]
fn refuses_intervals_under_the_minimum() {
    assert_eq!(parse_interval("99ms"), Err(IntervalError::TooSmall));
    assert_eq!(parse_interval("0.05s"), Err(IntervalError::TooSmall));
    assert_eq!(parse_interval("0"), Err(IntervalError::TooSmall));
    assert_eq!(parse_interval("1.9ms"), Err(IntervalError::TooSmall));
}

#[test]
fn refuses_intervals_too_large_to_hold() {
    assert_eq!(parse_interval("18446744073709551615ms"), Ok(u64::MAX));
    assert_eq!(
        parse_interval("18446744073709551616ms"),
        Err(IntervalError::TooLarge)
    );
    assert_eq!(
        parse_interval("99999999999999999999999s"),
        Err(IntervalError::TooLarge)
    );
}

#[test]
fn error_messages_describe_each_case() {
    assert_eq!(IntervalError::Invalid.message(), "无效的时间值");
    assert_eq!(IntervalError::TooSmall.message(), "间隔不能小于100毫秒");
    assert_eq!(IntervalError::TooLarge.message(), "间隔过大");
}

#[test]
fn formats_whole_seconds_as_seconds() {
    assert_eq!(format_interval(1000), "1s");
    assert_eq!(format_interval(60_000), "60s");
    assert_eq!(format_interval(0), "0s");
}

#[test]
fn formats_other_intervals_as_milliseconds() {
    assert_eq!(format_interval(1500), "1500ms");
    assert_eq!(format_interval(100), "100ms");
    assert_eq!(format_interval(12345), "12345ms");
}
