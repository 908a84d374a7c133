use std::str::FromStr;

use dice_bot::dice::{ParseRollError, Roll, RollResults, RollSettings, RollType};

#[test]
fn dice_parses_correctly() {
    let cases = [
        (
            "rubbish",
            Err(ParseRollError::InvalidFormat("rubbish".to_string())),
        ),
        (
            "1d20",
            Ok(RollSettings {
                number: 1,
                sides: 20,
                modifier: None,
                label: None,
            }),
        ),
        (
            "1d20+3",
            Ok(RollSettings {
                number: 1,
                sides: 20,
                modifier: Some(3),
                label: None,
            }),
        ),
        (
            "1d20-2",
            Ok(RollSettings {
                number: 1,
                sides: 20,
                modifier: Some(-2),
                label: None,
            }),
        ),
        (
            "1 d 20",
            Ok(RollSettings {
                number: 1,
                sides: 20,
                modifier: None,
                label: None,
            }),
        ),
        (
            "1d20 - 2",
            Ok(RollSettings {
                number: 1,
                sides: 20,
                modifier: Some(-2),
                label: None,
            }),
        ),
        (
            "9999d9999+3",
            Ok(RollSettings {
                number: 9999,
                sides: 9999,
                modifier: Some(3),
                label: None,
            }),
        ),
        // too many dices
        (
            "100000d20",
            Err(ParseRollError::InvalidFormat("100000d20".to_string())),
        ),
        // too many sides
        (
            "1d100000",
            Err(ParseRollError::InvalidFormat("1d100000".to_string())),
        ),
        // modifier too big
        (
            "1d20+10000000",
            Err(ParseRollError::InvalidFormat("1d20+10000000".to_string())),
        ),
        // zero dice
        (
            "0d20+2",
            Err(ParseRollError::CannotBeZero("0d20+2".to_string())),
        ),
        // zero sided dice
        (
            "1d0+2",
            Err(ParseRollError::CannotBeZero("1d0+2".to_string())),
        ),
    ];

    for (input, expected) in cases {
        let actual = RollSettings::from_str(input);
        match expected {
            Ok(expected) => {
                assert!(actual.is_ok());
                assert_eq!(expected, actual.unwrap());
            }
            Err(e) => {
                assert!(actual.is_err());
                assert_eq!(e, actual.unwrap_err());
            }
        }
    }
}

fn settings(number: u32, sides: u32, modifier: Option<i32>) -> RollSettings {
    RollSettings {
        number,
        sides,
        modifier,
        label: None,
    }
}

#[test]
fn simulation_is_within_bounds() {
    let s = settings(100, 6, Some(3));
    let results = RollResults::new(&s, &RollType::Straight);
    assert!(results.try_two.is_none());
    let roll = &results.try_one;
    assert_eq!(roll.rolls.len(), 100);
    for v in &roll.rolls {
        assert!((1..=6).contains(v));
    }
    let sum: i64 = roll.rolls.iter().map(|v| *v as i64).sum();
    assert_eq!(roll.total, sum + 3);
    assert_eq!(roll.settings, s);
}

#[test]
fn simulation_one_sided_die_is_deterministic() {
    let s = settings(5, 1, None);
    let results = RollResults::new(&s, &RollType::Straight);
    assert_eq!(results.try_one.rolls, vec![1, 1, 1, 1, 1]);
    assert_eq!(results.try_one.total, 5);
}

#[test]
fn advantage_rolls_two_attempts() {
    let s = settings(2, 20, None);
    let adv = RollResults::new(&s, &RollType::Advantage);
    assert!(adv.try_two.is_some());
    let dis = RollResults::new(&s, &RollType::Disadvantage);
    assert!(dis.try_two.is_some());
}

fn fixed_roll(rolls: Vec<u32>, s: &RollSettings) -> Roll {
    let sum: i64 = rolls.iter().map(|v| *v as i64).sum();
    let modifier = s.modifier.unwrap_or(0) as i64;
    Roll {
        rolls,
        total: sum + modifier,
        settings: s.clone(),
    }
}

fn fixed_results(mode: RollType, one: Vec<u32>, two: Vec<u32>, s: &RollSettings) -> RollResults {
    RollResults {
        roll_type: mode,
        try_one: fixed_roll(one, s),
        try_two: Some(fixed_roll(two, s)),
        settings: s.clone(),
    }
}

#[test]
fn advantage_selects_greater_total() {
    let s = settings(2, 20, None);
    let r = fixed_results(RollType::Advantage, vec![5, 5], vec![7, 8], &s);
    assert_eq!(r.result().total, 15);
    assert_eq!(r.results_index(), 2);
    let r = fixed_results(RollType::Advantage, vec![7, 8], vec![5, 5], &s);
    assert_eq!(r.result().total, 15);
    assert_eq!(r.results_index(), 1);
}

#[test]
fn disadvantage_selects_lesser_total() {
    let s = settings(2, 20, None);
    let r = fixed_results(RollType::Disadvantage, vec![5, 5], vec![7, 8], &s);
    assert_eq!(r.result().total, 10);
    assert_eq!(r.results_index(), 1);
    let r = fixed_results(RollType::Disadvantage, vec![7, 8], vec![5, 5], &s);
    assert_eq!(r.result().total, 10);
    assert_eq!(r.results_index(), 2);
}

#[test]
fn ties_select_attempt_one() {
    let s = settings(2, 20, None);
    let adv = fixed_results(RollType::Advantage, vec![5, 5], vec![6, 4], &s);
    assert_eq!(adv.results_index(), 1);
    assert_eq!(adv.result(), &adv.try_one);
    let dis = fixed_results(RollType::Disadvantage, vec![5, 5], vec![6, 4], &s);
    assert_eq!(dis.results_index(), 1);
    assert_eq!(dis.result(), &dis.try_one);
}

#[test]
fn straight_selects_attempt_one() {
    let s = settings(2, 20, None);
    let r = RollResults {
        roll_type: RollType::Straight,
        try_one: fixed_roll(vec![5, 5], &s),
        try_two: None,
        settings: s.clone(),
    };
    assert_eq!(r.results_index(), 1);
    assert_eq!(r.result().total, 10);
}

#[test]
fn format_modifier_pads_the_sign() {
    assert_eq!(settings(1, 20, Some(3)).format_modifier(), " + 3");
    assert_eq!(settings(1, 20, Some(-2)).format_modifier(), " - 2");
    assert_eq!(settings(1, 20, Some(9999)).format_modifier(), " + 9999");
    assert_eq!(settings(1, 20, Some(-9999)).format_modifier(), " - 9999");
    assert_eq!(settings(1, 20, None).format_modifier(), "");
}

#[test]
fn format_parameters_renders_the_request() {
    assert_eq!(settings(1, 20, None).format_parameters(), "1d20");
    assert_eq!(settings(2, 6, Some(3)).format_parameters(), "2d6 + 3");
    assert_eq!(settings(9999, 9999, Some(-42)).format_parameters(), "9999d9999 - 42");
}

#[test]
fn roll_type_names() {
    assert_eq!(RollType::Straight.name(), "Straight");
    assert_eq!(RollType::Advantage.name(), "Advantage");
    assert_eq!(RollType::Disadvantage.name(), "Disadvantage");
}
