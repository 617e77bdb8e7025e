use caesar::cipher::Direction;
use caesar::input::{direction_or_default, parse_u8, phrase_or_default, shift_or_default};

#[test]
fn blank_phrase_takes_default() {
    assert_eq!(phrase_or_default(""), "Hello, world!");
}

#[test]
fn nonblank_phrase_is_kept() {
    assert_eq!(phrase_or_default("attack at dawn"), "attack at dawn");
}

#[test]
fn blank_shift_takes_default() {
    assert_eq!(shift_or_default(""), Some(13));
}

#[test]
fn shift_in_range_is_accepted() {
    assert_eq!(shift_or_default("0"), Some(0));
    assert_eq!(shift_or_default("7"), Some(7));
    assert_eq!(shift_or_default("26"), Some(26));
}

#[test]
fn shift_above_twenty_six_is_refused() {
    assert_eq!(shift_or_default("27"), None);
    assert_eq!(shift_or_default("255"), None);
}

#[test]
fn shift_that_is_no_numeral_is_refused() {
    assert_eq!(shift_or_default("thirteen"), None);
    assert_eq!(shift_or_default("1a"), None);
    assert_eq!(shift_or_default("-3"), None);
    assert_eq!(shift_or_default("2 6"), None);
}

#[test]
fn parse_u8_reads_decimal() {
    assert_eq!(parse_u8("0"), Some(0));
    assert_eq!(parse_u8("13"), Some(13));
    assert_eq!(parse_u8("255"), Some(255));
    assert_eq!(parse_u8("007"), Some(7));
    assert_eq!(parse_u8("+26"), Some(26));
}

#[test]
fn parse_u8_refuses_overflow_and_junk() {
    assert_eq!(parse_u8("256"), None);
    assert_eq!(parse_u8("1000"), None);
    assert_eq!(parse_u8(""), None);
    assert_eq!(parse_u8("+"), None);
    assert_eq!(parse_u8("12.5"), None);
    assert_eq!(parse_u8("\u{ff11}"), None);
}

#[test]
fn blank_direction_takes_default() {
    assert_eq!(direction_or_default(""), Some(Direction::Encrypt));
}

#[test]
fn direction_first_letter_decides_case_insensitively() {
    assert_eq!(direction_or_default("e"), Some(Direction::Encrypt));
    assert_eq!(direction_or_default("E"), Some(Direction::Encrypt));
    assert_eq!(direction_or_default("encrypt"), Some(Direction::Encrypt));
    assert_eq!(direction_or_default("d"), Some(Direction::Decrypt));
    assert_eq!(direction_or_default("Decrypt"), Some(Direction::Decrypt));
}

#[test]
fn unrecognised_direction_is_refused() {
    assert_eq!(direction_or_default("x"), None);
    assert_eq!(direction_or_default("?"), None);
}
