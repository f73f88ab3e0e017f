use std::num::IntErrorKind;
use version_number::decimal::{parse_u32, push_u32, u32_to_string};
use version_number::NumberError;

fn std_outcome(s: &str) -> Result<u32, NumberError> {
    match s.parse::<u32>() {
        Ok(n) => Ok(n),
        Err(e) => match e.kind() {
            IntErrorKind::Empty => Err(NumberError::Empty),
            IntErrorKind::InvalidDigit => Err(NumberError::InvalidDigit),
            IntErrorKind::PosOverflow => Err(NumberError::PosOverflow),
            other => panic!("unexpected kind {:?}", other),
        },
    }
}

#[test]
fn parse_u32_reads_plain_numbers() {
    assert_eq!(parse_u32("0"), Ok(0));
    assert_eq!(parse_u32("7"), Ok(7));
    assert_eq!(parse_u32("42"), Ok(42));
    assert_eq!(parse_u32("1234567890"), Ok(1234567890));
}

#[test]
fn parse_u32_reads_the_largest_number() {
    assert_eq!(parse_u32("4294967295"), Ok(u32::MAX));
}

#[test]
fn parse_u32_accepts_leading_zeros() {
    assert_eq!(parse_u32("007"), Ok(7));
    assert_eq!(parse_u32("000000000000000000001"), Ok(1));
    assert_eq!(parse_u32("00000000004294967295"), Ok(u32::MAX));
}

#[test]
fn parse_u32_accepts_one_plus_sign() {
    assert_eq!(parse_u32("+5"), Ok(5));
    assert_eq!(parse_u32("+0"), Ok(0));
    assert_eq!(parse_u32("++5"), Err(NumberError::InvalidDigit));
}

#[test]
fn parse_u32_rejects_empty_text() {
    assert_eq!(parse_u32(""), Err(NumberError::Empty));
}

#[test]
fn parse_u32_rejects_a_lone_sign() {
    assert_eq!(parse_u32("+"), Err(NumberError::InvalidDigit));
    assert_eq!(parse_u32("-"), Err(NumberError::InvalidDigit));
}

#[test]
fn parse_u32_rejects_foreign_characters() {
    assert_eq!(parse_u32("x"), Err(NumberError::InvalidDigit));
    assert_eq!(parse_u32("12a"), Err(NumberError::InvalidDigit));
    assert_eq!(parse_u32("-1"), Err(NumberError::InvalidDigit));
    assert_eq!(parse_u32(" 1"), Err(NumberError::InvalidDigit));
    assert_eq!(parse_u32("1 "), Err(NumberError::InvalidDigit));
    assert_eq!(parse_u32("1_000"), Err(NumberError::InvalidDigit));
    assert_eq!(parse_u32("\u{663}"), Err(NumberError::InvalidDigit));
}

#[test]
fn parse_u32_rejects_numbers_that_do_not_fit() {
    assert_eq!(parse_u32("4294967296"), Err(NumberError::PosOverflow));
    assert_eq!(parse_u32("99999999999"), Err(NumberError::PosOverflow));
    assert_eq!(parse_u32("00000000004294967296"), Err(NumberError::PosOverflow));
}

#[test]
fn parse_u32_reports_the_failure_met_first() {
    assert_eq!(parse_u32("99999999999x"), Err(NumberError::PosOverflow));
    assert_eq!(parse_u32("x99999999999"), Err(NumberError::InvalidDigit));
    assert_eq!(parse_u32("4294967295x"), Err(NumberError::InvalidDigit));
    assert_eq!(parse_u32("429496729x6"), Err(NumberError::InvalidDigit));
}

#[test]
fn parse_u32_agrees_with_the_standard_parser() {
    let inputs = [
        "", "0", "1", "9", "10", "+", "-", "+1", "-1", "++1", "+-1", "1+", "01", "0000", "4294967295",
        "4294967296", "4294967300", "42949672950", "99999999999999999999", "99999999999x",
        "x99999999999", "4294967295x", "12 ", " 12", "1.2", ".", "1_0", "0x10", "١٢", "１２", "a",
        "+a", "+4294967295", "+4294967296", "000000000000000000000000000000",
    ];
    for input in inputs {
        assert_eq!(parse_u32(input), std_outcome(input), "input {:?}", input);
    }
}

#[test]
fn u32_to_string_writes_decimal_notation() {
    assert_eq!(u32_to_string(0), "0");
    assert_eq!(u32_to_string(7), "7");
    assert_eq!(u32_to_string(10), "10");
    assert_eq!(u32_to_string(1234), "1234");
    assert_eq!(u32_to_string(4294967295), "4294967295");
}

#[test]
fn u32_to_string_agrees_with_the_standard_formatter() {
    let mut n: u32 = 1;
    for _ in 0..40 {
        assert_eq!(u32_to_string(n), format!("{}", n));
        assert_eq!(u32_to_string(n - 1), format!("{}", n - 1));
        n = n.wrapping_mul(7).wrapping_add(3);
    }
}

#[test]
fn push_u32_appends_to_what_is_there() {
    let mut out = String::from("v");
    push_u32(&mut out, 120);
    assert_eq!(out, "v120");
    push_u32(&mut out, 0);
    assert_eq!(out, "v1200");
}

#[test]
fn written_numbers_are_read_back() {
    for n in [0u32, 1, 9, 10, 99, 100, 65535, 65536, 999999999, 1000000000, u32::MAX - 1, u32::MAX] {
        assert_eq!(parse_u32(&u32_to_string(n)), Ok(n));
    }
}

#[test]
fn number_error_words_are_those_of_the_standard_library() {
    assert_eq!(NumberError::Empty.as_str(), "".parse::<u32>().unwrap_err().to_string());
    assert_eq!(NumberError::InvalidDigit.as_str(), "x".parse::<u32>().unwrap_err().to_string());
    assert_eq!(
        NumberError::PosOverflow.as_str(),
        "4294967296".parse::<u32>().unwrap_err().to_string()
    );
}
