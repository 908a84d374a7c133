use dice_bot::dice::{Roll, RollResults, RollSettings, RollType};

fn settings(number: u32, sides: u32, modifier: Option<i32>) -> RollSettings {
    RollSettings {
        number,
        sides,
        modifier,
        label: None,
    }
}

fn fixed_roll(rolls: Vec<u32>, s: &RollSettings) -> Roll {
    let sum: i64 = rolls.iter().map(|v| *v as i64).sum();
    let modifier = s.modifier.unwrap_or(0) as i64;
    Roll {
        rolls,
        total: sum + modifier,
        settings: s.clone(),
    }
}

#[test]
fn format_results_joins_with_plus() {
    let s = settings(3, 6, None);
    let roll = fixed_roll(vec![1, 2, 3], &s);
    assert_eq!(roll.format_results(), "1 + 2 + 3");
    let s = settings(1, 6, None);
    let roll = fixed_roll(vec![4], &s);
    assert_eq!(roll.format_results(), "4");
}

#[test]
fn format_roll_keeps_short_lists() {
    let s = settings(3, 6, Some(2));
    let roll = fixed_roll(vec![1, 2, 3], &s);
    assert_eq!(roll.format_roll(None), "(1 + 2 + 3) + 2");
    assert_eq!(roll.format_roll(Some(100)), "(1 + 2 + 3) + 2");
    let s = settings(3, 6, Some(-4));
    let roll = fixed_roll(vec![1, 2, 3], &s);
    assert_eq!(roll.format_roll(Some(9)), "(1 + 2 + 3) - 4");
}

#[test]
fn format_roll_truncates_to_the_budget() {
    // 2000 single-digit rolls joined by " + " take 2000 + 1999 * 3 = 7997
    // characters, past both budgets.
    let s = settings(2000, 6, Some(3));
    let rolls: Vec<u32> = vec![5; 2000];
    let roll = fixed_roll(rolls, &s);
    let full = roll.format_results();
    assert_eq!(full.chars().count(), 7997);

    for budget in [4000usize, 2000] {
        let formatted = roll.format_roll(Some(budget));
        let chars: Vec<char> = formatted.chars().collect();
        // "(" + exactly `budget` characters + "..." + ")" + " + 3"
        assert_eq!(chars.len(), 1 + budget + 3 + 1 + 4);
        assert_eq!(chars[0], '(');
        let body: String = chars[1..1 + budget].iter().collect();
        let expected: String = full.chars().take(budget).collect();
        assert_eq!(body, expected);
        let tail: String = chars[1 + budget..].iter().collect();
        assert_eq!(tail, "...) + 3");
    }
}

#[test]
fn straight_message_shows_one_attempt() {
    let s = settings(2, 6, Some(1));
    let roll = fixed_roll(vec![3, 4], &s);
    assert_eq!(
        roll.format_message(),
        "Parameters: 2d6 + 1\nRoll: (3 + 4) + 1\nYour final roll is: \u{1f3b2} <b>8</b> \u{1f3b2}"
    );
    let results = RollResults {
        roll_type: RollType::Straight,
        try_one: fixed_roll(vec![3, 4], &s),
        try_two: None,
        settings: s.clone(),
    };
    assert_eq!(results.format_message(), roll.format_message());
}

#[test]
fn negative_totals_render_with_a_sign() {
    let s = settings(1, 4, Some(-10));
    let roll = fixed_roll(vec![2], &s);
    assert_eq!(
        roll.format_message(),
        "Parameters: 1d4 - 10\nRoll: (2) - 10\nYour final roll is: \u{1f3b2} <b>-8</b> \u{1f3b2}"
    );
}

#[test]
fn advantage_message_strikes_the_loser() {
    let s = settings(2, 20, None);
    let results = RollResults {
        roll_type: RollType::Advantage,
        try_one: fixed_roll(vec![5, 5], &s),
        try_two: Some(fixed_roll(vec![7, 8], &s)),
        settings: s.clone(),
    };
    assert_eq!(
        results.format_message(),
        "Parameters: 2d20 with <u>Advantage</u>\n\
         <s>Attempt one: (5 + 5)</s>\n\
         Attempt two: (7 + 8)\n\
         Your final roll is: \u{1f3b2} <b>15</b> \u{1f3b2}"
    );
}

#[test]
fn disadvantage_message_strikes_the_loser() {
    let s = settings(2, 20, None);
    let results = RollResults {
        roll_type: RollType::Disadvantage,
        try_one: fixed_roll(vec![5, 5], &s),
        try_two: Some(fixed_roll(vec![7, 8], &s)),
        settings: s.clone(),
    };
    assert_eq!(
        results.format_message(),
        "Parameters: 2d20 with <u>Disadvantage</u>\n\
         Attempt one: (5 + 5)\n\
         <s>Attempt two: (7 + 8)</s>\n\
         Your final roll is: \u{1f3b2} <b>10</b> \u{1f3b2}"
    );
}

#[test]
fn dual_attempt_messages_use_the_smaller_budget() {
    let s = settings(2000, 6, None);
    let results = RollResults {
        roll_type: RollType::Advantage,
        try_one: fixed_roll(vec![5; 2000], &s),
        try_two: Some(fixed_roll(vec![6; 2000], &s)),
        settings: s.clone(),
    };
    let message = results.format_message();
    let line = results.try_one.format_roll(Some(2000));
    assert!(message.contains(&line));
    assert_eq!(line.chars().count(), 1 + 2000 + 3 + 1);
}
