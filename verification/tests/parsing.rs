//! Argument validation: the integer parser and the error diagnostics.

use randgen::parse::parse_i32;
use randgen::parse::parse_count;
use randgen::parse::parse_int_bounds;
use randgen::GenError;

#[test]
fn parses_plain_integers() {
    assert_eq!(parse_i32(b"0"), Some(0));
    assert_eq!(parse_i32(b"123"), Some(123));
    assert_eq!(parse_i32(b"-123"), Some(-123));
    assert_eq!(parse_i32(b"+42"), Some(42));
    assert_eq!(parse_i32(b"-0"), Some(0));
    assert_eq!(parse_i32(b"007"), Some(7));
}

#[test]
fn parses_the_limits() {
    assert_eq!(parse_i32(b"2147483647"), Some(i32::MAX));
    assert_eq!(parse_i32(b"-2147483648"), Some(i32::MIN));
    assert_eq!(parse_i32(b"2147483648"), None);
    assert_eq!(parse_i32(b"-2147483649"), None);
    assert_eq!(parse_i32(b"99999999999999999999999"), None);
}

#[test]
fn rejects_non_numeric_text() {
    assert_eq!(parse_i32(b"abc"), None);
    assert_eq!(parse_i32(b""), None);
    assert_eq!(parse_i32(b"-"), None);
    assert_eq!(parse_i32(b"+"), None);
    assert_eq!(parse_i32(b"12a"), None);
    assert_eq!(parse_i32(b" 12"), None);
    assert_eq!(parse_i32(b"12 "), None);
    assert_eq!(parse_i32(b"1.5"), None);
    assert_eq!(parse_i32(b"--5"), None);
}

#[test]
fn count_must_be_an_integer() {
    assert_eq!(parse_count(b"abc"), Err(GenError::InvalidCount));
    assert_eq!(parse_count(b"2.5"), Err(GenError::InvalidCount));
    assert_eq!(parse_count(b"5"), Ok(5));
    assert_eq!(parse_count(b"-3"), Ok(-3));
}

#[test]
fn bounds_must_be_integers() {
    assert_eq!(parse_int_bounds(b"1", b"x"), Err(GenError::InvalidRange));
    assert_eq!(parse_int_bounds(b"x", b"5"), Err(GenError::InvalidRange));
    assert_eq!(parse_int_bounds(b"1.0", b"5"), Err(GenError::InvalidRange));
    assert_eq!(parse_int_bounds(b"-4", b"5"), Ok((-4, 5)));
}

#[test]
fn diagnostics_match_the_reported_lines() {
    assert_eq!(
        GenError::InvalidCount.diagnostic(false),
        "Count must be an integer!"
    );
    assert_eq!(
        GenError::InvalidRange.diagnostic(false),
        "Both ranges must be integers!"
    );
    assert_eq!(
        GenError::InvalidRange.diagnostic(true),
        "Both ranges must be numbers!"
    );
    assert_eq!(
        GenError::UnsatisfiableUniqueness.diagnostic(false),
        "Count must not be over the total possible values!"
    );
}
