use dice_bot::dice::RollSettings;
use dice_bot::parser::parse_roll;
use dice_bot::utils::strip_whitespace;

fn settings(number: u32, sides: u32, modifier: Option<i32>) -> RollSettings {
    RollSettings {
        number,
        sides,
        modifier,
        label: None,
    }
}

#[test]
fn parse_recovers_formatted_counts() {
    for (number, sides) in [(1, 1), (1, 20), (42, 6), (9999, 9999), (10, 100)] {
        let original = settings(number, sides, None);
        let parsed = parse_roll(&original.format_parameters()).unwrap();
        assert_eq!(parsed, original);
    }
}

#[test]
fn parse_recovers_formatted_modifiers_with_sign() {
    for modifier in [1, -1, 3, -2, 9999, -9999, 500] {
        let original = settings(2, 6, Some(modifier));
        let parsed = parse_roll(&original.format_parameters()).unwrap();
        assert_eq!(parsed, original);
    }
}

#[test]
fn strip_whitespace_removes_every_kind() {
    assert_eq!(strip_whitespace("1 d 20"), "1d20");
    assert_eq!(strip_whitespace(" a\tb\nc\u{a0}d "), "abcd");
    assert_eq!(strip_whitespace("untouched"), "untouched");
    assert_eq!(strip_whitespace(""), "");
}
