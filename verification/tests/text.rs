use xaoc::text::{parse_u32, same_text};

#[test]
fn parse_u32_reads_plain_numbers() {
    assert_eq!(parse_u32("0"), Some(0));
    assert_eq!(parse_u32("7"), Some(7));
    assert_eq!(parse_u32("2021"), Some(2021));
    assert_eq!(parse_u32("12"), Some(12));
}

#[test]
fn parse_u32_takes_a_plus_sign_and_leading_zeros() {
    assert_eq!(parse_u32("+5"), Some(5));
    assert_eq!(parse_u32("007"), Some(7));
    assert_eq!(parse_u32("+0012"), Some(12));
    assert_eq!(parse_u32("00000000000000000001"), Some(1));
}

#[test]
fn parse_u32_reaches_the_largest_value() {
    assert_eq!(parse_u32("4294967295"), Some(u32::MAX));
    assert_eq!(parse_u32("4294967294"), Some(u32::MAX - 1));
    assert_eq!(parse_u32("4294967290"), Some(4294967290));
}

#[test]
fn parse_u32_refuses_what_does_not_fit() {
    assert_eq!(parse_u32("4294967296"), None);
    assert_eq!(parse_u32("4294967300"), None);
    assert_eq!(parse_u32("42949672950"), None);
    assert_eq!(parse_u32("99999999999999999999"), None);
}

#[test]
fn parse_u32_refuses_what_is_no_number() {
    assert_eq!(parse_u32(""), None);
    assert_eq!(parse_u32("+"), None);
    assert_eq!(parse_u32("-1"), None);
    assert_eq!(parse_u32("++1"), None);
    assert_eq!(parse_u32("1+"), None);
    assert_eq!(parse_u32("12a"), None);
    assert_eq!(parse_u32(" 12"), None);
    assert_eq!(parse_u32("12 "), None);
    assert_eq!(parse_u32("1_000"), None);
    assert_eq!(parse_u32("0x10"), None);
    assert_eq!(parse_u32("١٢"), None);
    assert_eq!(parse_u32("1é"), None);
}

#[test]
fn parse_u32_agrees_with_the_standard_parser() {
    let samples = [
        "0", "1", "9", "10", "+10", "0010", "4294967295", "4294967296", "429496729", "4294967289",
        "", "+", "-", "-0", "a", "1a", "1 ", "٣", "3000000000", "5000000000",
    ];
    for s in samples {
        assert_eq!(parse_u32(s), s.parse::<u32>().ok(), "on {:?}", s);
    }
}

#[test]
fn same_text_compares_characters() {
    assert!(same_text("", ""));
    assert!(same_text("year", "year"));
    assert!(!same_text("year", "Year"));
    assert!(!same_text("year", "years"));
    assert!(!same_text("day", ""));
    assert!(same_text("é", "é"));
}
