use std::cmp::Ordering;
use version_number::{NumberError, Tokens, VersionTriple, VersionTripleError};

#[test]
fn triple_new_keeps_its_numbers() {
    let t = VersionTriple::new(1, 2, 3);
    assert_eq!(t.major, 1);
    assert_eq!(t.minor, 2);
    assert_eq!(t.patch, 3);
}

#[test]
fn triple_from_three_numbers() {
    assert_eq!(VersionTriple::from_str("1.2.3"), Ok(VersionTriple::new(1, 2, 3)));
    assert_eq!(
        VersionTriple::from_str("4294967295.0.10"),
        Ok(VersionTriple::new(u32::MAX, 0, 10))
    );
}

#[test]
fn triple_numbers_left_out_are_zero() {
    assert_eq!(VersionTriple::from_str("1"), Ok(VersionTriple::new(1, 0, 0)));
    assert_eq!(VersionTriple::from_str("1.2"), Ok(VersionTriple::new(1, 2, 0)));
}

#[test]
fn triple_of_more_than_three_tokens_is_refused() {
    assert_eq!(
        VersionTriple::from_str("1.2.3.4"),
        Err(VersionTripleError::VersionStringInvalid { version: "1.2.3.4".to_owned() })
    );
    assert_eq!(
        VersionTriple::from_str("a.b.c.d"),
        Err(VersionTripleError::VersionStringInvalid { version: "a.b.c.d".to_owned() })
    );
}

#[test]
fn triple_of_the_empty_text_has_no_major_number() {
    assert_eq!(
        VersionTriple::from_str(""),
        Err(VersionTripleError::MajorInvalid { version: "".to_owned(), source: NumberError::Empty })
    );
}

#[test]
fn triple_reports_the_part_that_is_no_number() {
    assert_eq!(
        VersionTriple::from_str("x.2.3"),
        Err(VersionTripleError::MajorInvalid {
            version: "x.2.3".to_owned(),
            source: NumberError::InvalidDigit
        })
    );
    assert_eq!(
        VersionTriple::from_str("1.x.3"),
        Err(VersionTripleError::MinorInvalid {
            version: "1.x.3".to_owned(),
            source: NumberError::InvalidDigit
        })
    );
    assert_eq!(
        VersionTriple::from_str("1.2.4294967296"),
        Err(VersionTripleError::PatchInvalid {
            version: "1.2.4294967296".to_owned(),
            source: NumberError::PosOverflow
        })
    );
    assert_eq!(
        VersionTriple::from_str("1."),
        Err(VersionTripleError::MinorInvalid { version: "1.".to_owned(), source: NumberError::Empty })
    );
}

#[test]
fn triple_reports_the_first_part_that_fails() {
    assert_eq!(
        VersionTriple::from_str("x.y.z"),
        Err(VersionTripleError::MajorInvalid {
            version: "x.y.z".to_owned(),
            source: NumberError::InvalidDigit
        })
    );
    assert_eq!(
        VersionTriple::from_str("1.y.z"),
        Err(VersionTripleError::MinorInvalid {
            version: "1.y.z".to_owned(),
            source: NumberError::InvalidDigit
        })
    );
}

#[test]
fn from_split_takes_three_tokens_and_leaves_the_rest() {
    let mut tokens = Tokens::split("1.2.3.4.5");
    assert_eq!(VersionTriple::from_split(&mut tokens, "1.2.3.4.5"), Ok(VersionTriple::new(1, 2, 3)));
    assert_eq!(tokens.next(), Some("4"));
    assert_eq!(tokens.next(), Some("5"));
    assert_eq!(tokens.next(), None);
}

#[test]
fn from_split_takes_what_there_is() {
    let mut tokens = Tokens::split("8.9");
    assert_eq!(VersionTriple::from_split(&mut tokens, "8.9"), Ok(VersionTriple::new(8, 9, 0)));
    assert_eq!(tokens.count(), 0);
}

#[test]
fn from_split_stops_at_the_token_that_fails() {
    let mut tokens = Tokens::split("1.x.3.4");
    assert_eq!(
        VersionTriple::from_split(&mut tokens, "shown"),
        Err(VersionTripleError::MinorInvalid {
            version: "shown".to_owned(),
            source: NumberError::InvalidDigit
        })
    );
    assert_eq!(tokens.next(), Some("3"));
}

#[test]
fn from_split_needs_a_major_number() {
    let mut tokens = Tokens::split("1");
    tokens.next();
    assert_eq!(
        VersionTriple::from_split(&mut tokens, "1"),
        Err(VersionTripleError::MajorInvalid { version: "1".to_owned(), source: NumberError::Empty })
    );
}

#[test]
fn triple_text_always_has_three_numbers() {
    assert_eq!(VersionTriple::new(1, 2, 3).to_string(), "1.2.3");
    assert_eq!(VersionTriple::new(1, 0, 0).to_string(), "1.0.0");
    assert_eq!(VersionTriple::new(0, 0, 0).to_string(), "0.0.0");
    assert_eq!(VersionTriple::new(u32::MAX, 10, 100).to_string(), "4294967295.10.100");
}

#[test]
fn triple_text_is_read_back() {
    for t in [
        VersionTriple::new(0, 0, 0),
        VersionTriple::new(1, 2, 3),
        VersionTriple::new(10, 0, 7),
        VersionTriple::new(u32::MAX, u32::MAX, u32::MAX),
    ] {
        assert_eq!(VersionTriple::from_str(&t.to_string()), Ok(t));
    }
}

#[test]
fn triples_are_ordered_by_major_then_minor_then_patch() {
    assert!(VersionTriple::new(1, 9, 9) < VersionTriple::new(2, 0, 0));
    assert!(VersionTriple::new(1, 2, 9) < VersionTriple::new(1, 3, 0));
    assert!(VersionTriple::new(1, 2, 3) < VersionTriple::new(1, 2, 4));
    assert!(VersionTriple::new(1, 2, 3) <= VersionTriple::new(1, 2, 3));
    assert!(VersionTriple::new(10, 0, 0) > VersionTriple::new(9, 99, 99));
    assert_eq!(
        VersionTriple::new(1, 2, 3).partial_cmp(&VersionTriple::new(1, 2, 3)),
        Some(Ordering::Equal)
    );
}

#[test]
fn triple_order_is_the_same_through_cmp() {
    let triples = [
        VersionTriple::new(0, 0, 0),
        VersionTriple::new(0, 0, 1),
        VersionTriple::new(0, 1, 0),
        VersionTriple::new(1, 0, 0),
        VersionTriple::new(1, 2, 3),
        VersionTriple::new(3, 2, 1),
    ];
    for a in triples {
        for b in triples {
            assert_eq!(a.partial_cmp(&b), Some(a.cmp(&b)));
            assert_eq!(a.cmp(&b), (a.major, a.minor, a.patch).cmp(&(b.major, b.minor, b.patch)));
        }
    }
}

#[test]
fn triple_error_messages() {
    assert_eq!(
        VersionTriple::from_str("x.2").unwrap_err().to_string(),
        "Failed to parse major version from \"x.2\": invalid digit found in string"
    );
    assert_eq!(
        VersionTriple::from_str("1..2").unwrap_err().to_string(),
        "Failed to parse minor version from \"1..2\": cannot parse integer from empty string"
    );
    assert_eq!(
        VersionTriple::from_str("1.2.99999999999").unwrap_err().to_string(),
        "Failed to parse patch version from \"1.2.99999999999\": number too large to fit in target type"
    );
    assert_eq!(
        VersionTriple::from_str("1.2.3.4").unwrap_err().to_string(),
        "Failed to parse version string \"1.2.3.4\": string must be in format <major>[.minor][.patch]"
    );
}

#[test]
fn triple_error_message_escapes_the_text() {
    assert_eq!(
        VersionTriple::from_str("a\"b\n").unwrap_err().to_string(),
        "Failed to parse major version from \"a\\\"b\\n\": invalid digit found in string"
    );
}
