use std::str::FromStr;

use dice_bot::dice::RollSettings;
use dice_bot::parser::{decimal, parse_roll, single_decimal, ParseRollError};

#[test]
fn single_decimal_parses_correctly() {
    let cases = [("1", '1'), (" 1", '1'), ("1  ", '1'), ("   1   ", '1')];
    for (input, expected) in cases {
        let (remaining, actual) = single_decimal(input).unwrap();
        assert_eq!(actual, expected);
        assert!(remaining.is_empty());
    }
}

#[test]
fn decimal_parses_correctly() {
    let cases = [
        ("123456", 123456),
        (" 123456", 123456),
        ("123456 ", 123456),
        ("1 234 56", 123456),
    ];
    for (input, expected) in cases {
        let (remaining, actual): (_, u64) = decimal(input, 1, 10).unwrap();
        assert_eq!(actual, expected);
        assert!(remaining.is_empty());
    }
}

#[test]
fn parser_parses_correctly() {
    let cases = [
        (
            "1d20",
            Ok(RollSettings {
                number: 1,
                sides: 20,
                modifier: None,
                label: None,
            }),
        ),
        (
            "1d20+3",
            Ok(RollSettings {
                number: 1,
                sides: 20,
                modifier: Some(3),
                label: None,
            }),
        ),
        (
            "1d20-2",
            Ok(RollSettings {
                number: 1,
                sides: 20,
                modifier: Some(-2),
                label: None,
            }),
        ),
        (
            "1 d 20",
            Ok(RollSettings {
                number: 1,
                sides: 20,
                modifier: None,
                label: None,
            }),
        ),
        (
            "1d20 - 2",
            Ok(RollSettings {
                number: 1,
                sides: 20,
                modifier: Some(-2),
                label: None,
            }),
        ),
        (
            "1d20 Wisdom saving throw",
            Ok(RollSettings {
                number: 1,
                sides: 20,
                modifier: None,
                label: Some("Wisdom saving throw".to_string()),
            }),
        ),
        (
            "1d20Wisdom saving throw",
            Ok(RollSettings {
                number: 1,
                sides: 20,
                modifier: None,
                label: Some("Wisdom saving throw".to_string()),
            }),
        ),
        (
            "1d20+1 Wisdom saving throw",
            Ok(RollSettings {
                number: 1,
                sides: 20,
                modifier: Some(1),
                label: Some("Wisdom saving throw".to_string()),
            }),
        ),
        (
            "1d20+1Wisdom saving throw",
            Ok(RollSettings {
                number: 1,
                sides: 20,
                modifier: Some(1),
                label: Some("Wisdom saving throw".to_string()),
            }),
        ),
        (
            "9999d9999+3",
            Ok(RollSettings {
                number: 9999,
                sides: 9999,
                modifier: Some(3),
                label: None,
            }),
        ),
        // too many dices
        (
            "100000d20",
            Err(ParseRollError::ParseError(
                "error OneOf at: 00d20".to_string(),
            )),
        ),
        // too many sides
        ("1d100000", Err(ParseRollError::TooBig)),
        // modifier too big
        ("1d20+10000000", Err(ParseRollError::TooBig)),
        // zero dice
        (
            "0d20+2",
            Err(ParseRollError::CannotBeZero("0d20+2".to_string())),
        ),
        // zero sided dice
        (
            "1d0+2",
            Err(ParseRollError::CannotBeZero("1d0+2".to_string())),
        ),
        (
            "rubbish",
            Err(ParseRollError::ParseError(
                "error OneOf at: rubbish".to_string(),
            )),
        ),
    ];

    for (input, expected) in cases {
        let actual = parse_roll(input);
        match expected {
            Ok(expected) => {
                assert_eq!(expected, actual.unwrap());
            }
            Err(e) => {
                assert_eq!(e, actual.unwrap_err());
            }
        }
    }
}

#[test]
fn zero_counts_are_rejected() {
    assert_eq!(
        parse_roll("0d20"),
        Err(ParseRollError::CannotBeZero("0d20".to_string()))
    );
    assert_eq!(
        parse_roll("1d0"),
        Err(ParseRollError::CannotBeZero("1d0".to_string()))
    );
}

#[test]
fn whitespace_placement_is_ignored() {
    let plain = parse_roll("1d20").unwrap();
    let spaced = parse_roll("1 d 20").unwrap();
    assert_eq!(plain, spaced);
    let with_modifier = parse_roll("1d20 - 2").unwrap();
    assert_eq!(with_modifier.number, plain.number);
    assert_eq!(with_modifier.sides, plain.sides);
    assert_eq!(with_modifier.modifier, Some(-2));
    let scattered = parse_roll("9 9 9 9 d 2 0").unwrap();
    assert_eq!(scattered.number, 9999);
    assert_eq!(scattered.sides, 20);
}

#[test]
fn interior_whitespace_still_counts_digits() {
    // Five digits stay five digits no matter how they are spaced out.
    let r = parse_roll("1d1 0 0 0 0");
    assert_eq!(r, Err(ParseRollError::TooBig));
}

#[test]
fn dangling_grammar_fails_as_parse_error() {
    assert_eq!(
        parse_roll("20"),
        Err(ParseRollError::ParseError("error OneOf at: ".to_string()))
    );
    assert_eq!(
        parse_roll("1d"),
        Err(ParseRollError::ParseError("error OneOf at: ".to_string()))
    );
    assert_eq!(
        parse_roll("d20"),
        Err(ParseRollError::ParseError("error OneOf at: d20".to_string()))
    );
    assert_eq!(
        parse_roll("1x20"),
        Err(ParseRollError::ParseError("error OneOf at: x20".to_string()))
    );
}

#[test]
fn uppercase_separator_is_accepted() {
    let r = parse_roll("1D20").unwrap();
    assert_eq!((r.number, r.sides), (1, 20));
    let r = RollSettings::from_str("3D8+2").unwrap();
    assert_eq!((r.number, r.sides, r.modifier), (3, 8, Some(2)));
}

#[test]
fn label_keeps_inner_spacing_only() {
    let r = parse_roll("2d6   Fire damage  ").unwrap();
    assert_eq!(r.label, Some("Fire damage".to_string()));
    let r = parse_roll("2d6").unwrap();
    assert_eq!(r.label, None);
}
