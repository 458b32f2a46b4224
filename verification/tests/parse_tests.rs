//! Mode-argument parsing.

use wlout::model::HeadModeInput;
use wlout::parse::{parse_i32, DisplayModeParser};

fn parse(s: &str) -> Option<HeadModeInput> {
    DisplayModeParser {}.parse_ref(s)
}

#[test]
fn well_formed_mode_argument() {
    let m = parse("1920x1080@60").unwrap();
    assert_eq!((m.width, m.height, m.rate), (1920, 1080, 60));
}

#[test]
fn missing_rate_separator_is_rejected() {
    assert!(parse("1920x1080").is_none());
}

#[test]
fn repeated_separators_are_rejected() {
    assert!(parse("1x2x3@60").is_none());
    assert!(parse("1x2@3@4").is_none());
}

#[test]
fn non_numeric_parts_are_rejected() {
    assert!(parse("ax b@c").is_none());
    assert!(parse("1920x@60").is_none());
    assert!(parse("x1080@60").is_none());
    assert!(parse("1920x1080@").is_none());
    assert!(parse("@").is_none());
    assert!(parse("").is_none());
}

#[test]
fn signs_are_accepted_as_the_integer_parser_does() {
    let m = parse("+1920x1080@-60").unwrap();
    assert_eq!((m.width, m.height, m.rate), (1920, 1080, -60));
}

#[test]
fn integer_parser_matches_std() {
    for s in ["0", "42", "-7", "+15", "2147483647", "-2147483648", "007"] {
        assert_eq!(parse_i32(s), s.parse::<i32>().ok(), "on {:?}", s);
    }
    for s in ["", "-", "+", "2147483648", "-2147483649", "1.5", " 1", "1 ", "--3", "+-3"] {
        assert_eq!(parse_i32(s), None, "on {:?}", s);
        assert!(s.parse::<i32>().is_err(), "std should also reject {:?}", s);
    }
}

#[test]
fn mode_values_at_the_i32_boundary() {
    let m = parse("2147483647x1@1").unwrap();
    assert_eq!(m.width, i32::MAX);
    assert!(parse("2147483648x1@1").is_none());
}

#[test]
fn rate_part_may_not_contain_the_size_separator() {
    // The `x` separator is only split inside the size part; a stray `x` in
    // the rate part simply fails the integer parse.
    assert!(parse("12x34@5x6").is_none());
}
