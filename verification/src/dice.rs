//! Roll specification, simulation and presentation: the compact `NdM(+/-K)`
//! request parser, the die simulator, advantage/disadvantage resolution, and
//! the bounded-length display rendering.

use rand::distributions::{Distribution, Uniform};
use vstd::prelude::*;
use vstd::string::StringExecFns;

use crate::digits::{
    dec_str, digit_value, digits_val, i64_string, int_str, is_digit, is_digit_char,
    lemma_digits_val_acc_push, lemma_pow10_small, pow10, u64_string,
};
use crate::utils::{strip_whitespace, strip_ws, to_chars};

verus! {

/// Parse failure for the compact whitespace-stripped request format.
#[derive(Debug, Clone, PartialEq)]
pub enum ParseRollError {
    InvalidFormat(String),
    CannotBeZero(String),
}

/// A parsed, validated dice request: `number` dice of `sides` sides, an
/// optional additive modifier and an optional free-text label.
#[derive(Debug, PartialEq)]
pub struct RollSettings {
    pub number: u32,
    pub sides: u32,
    pub modifier: Option<i32>,
    pub label: Option<String>,
}

impl Clone for RollSettings {
    /// Clones every field; the copy equals the original.
    fn clone(&self) -> (r: Self)
        ensures
            r == *self,
    {
        RollSettings {
            number: self.number,
            sides: self.sides,
            modifier: self.modifier,
            label: match &self.label {
                Some(l) => Some(l.clone()),
                None => None,
            },
        }
    }
}

/// The bound the grammar puts on a parsed modifier: at most four digits.
pub open spec fn modifier_wf(modifier: Option<i32>) -> bool {
    match modifier {
        None => true,
        Some(m) => -9999 <= m <= 9999,
    }
}

impl RollSettings {
    /// The invariant every parsed specification satisfies: both numeric
    /// fields are four digits at most and never zero, and the modifier
    /// magnitude is four digits at most.
    pub open spec fn wf(self) -> bool {
        &&& 1 <= self.number <= 9999
        &&& 1 <= self.sides <= 9999
        &&& modifier_wf(self.modifier)
    }
}

/// The rendering of a modifier: nothing, or the sign and magnitude padded
/// with single spaces (`" + 3"`, `" - 2"`).
pub open spec fn spec_format_modifier(modifier: Option<i32>) -> Seq<char> {
    match modifier {
        None => Seq::<char>::empty(),
        Some(m) => if m > 0 {
            seq![' ', '+', ' '] + dec_str(m as nat)
        } else {
            seq![' ', '-', ' '] + dec_str((-m) as nat)
        },
    }
}

/// The canonical rendering of a specification: `"NdM"` followed by the
/// modifier rendering; the label is not shown.
pub open spec fn spec_format_parameters(s: RollSettings) -> Seq<char> {
    dec_str(s.number as nat) + seq!['d'] + dec_str(s.sides as nat) + spec_format_modifier(
        s.modifier,
    )
}

impl RollSettings {
    /// Renders the modifier as the display suffix `" + N"` / `" - N"`.
    pub fn format_modifier(&self) -> (s: String)
        requires
            modifier_wf(self.modifier),
        ensures
            s@ == spec_format_modifier(self.modifier),
    {
        match self.modifier {
            None => String::new(),
            Some(number) => {
                if number > 0 {
                    let mut s = String::from_str(" + ");
                    let digits = u64_string(number as u64);
                    s.append(digits.as_str());
                    proof {
                        reveal_strlit(" + ");
                        assert(" + "@ =~= seq![' ', '+', ' ']);
                    }
                    s
                } else {
                    let mut s = String::from_str(" - ");
                    let digits = u64_string((-number) as u64);
                    s.append(digits.as_str());
                    proof {
                        reveal_strlit(" - ");
                        assert(" - "@ =~= seq![' ', '-', ' ']);
                    }
                    s
                }
            },
        }
    }

    /// Renders the numeric parameters, e.g. `"2d6 + 3"`.
    pub fn format_parameters(&self) -> (s: String)
        requires
            modifier_wf(self.modifier),
        ensures
            s@ == spec_format_parameters(*self),
    {
        let mut s = u64_string(self.number as u64);
        s.append("d");
        let sides = u64_string(self.sides as u64);
        s.append(sides.as_str());
        let modifier = self.format_modifier();
        s.append(modifier.as_str());
        proof {
            reveal_strlit("d");
            assert("d"@ =~= seq!['d']);
        }
        s
    }
}

/// First position at or after `i` where a run of decimal digits ends.
pub open spec fn digit_run_end(s: Seq<char>, i: int) -> int
    decreases s.len() - i,
{
    if i < s.len() && is_digit_char(s[i]) {
        digit_run_end(s, i + 1)
    } else {
        i
    }
}

proof fn lemma_digit_run_end(s: Seq<char>, i: int)
    requires
        0 <= i <= s.len(),
    ensures
        i <= digit_run_end(s, i) <= s.len(),
        forall|k: int| i <= k < digit_run_end(s, i) ==> is_digit_char(#[trigger] s[k]),
        digit_run_end(s, i) < s.len() ==> !is_digit_char(s[digit_run_end(s, i)]),
    decreases s.len() - i,
{
    if i < s.len() && is_digit_char(s[i]) {
        lemma_digit_run_end(s, i + 1);
    }
}

/// The compact grammar on whitespace-stripped text: one to four digits, a
/// `d` or `D`, one to four digits, optionally a sign and one to four digits,
/// and nothing else. Yields the two counts and the signed modifier.
pub open spec fn compact_match(s: Seq<char>) -> Option<(nat, nat, Option<int>)> {
    let e1 = digit_run_end(s, 0);
    if !(1 <= e1 <= 4) {
        None
    } else if !(e1 < s.len() && (s[e1] == 'd' || s[e1] == 'D')) {
        None
    } else {
        let e2 = digit_run_end(s, e1 + 1);
        if !(1 <= e2 - (e1 + 1) <= 4) {
            None
        } else {
            let number = digits_val(s.subrange(0, e1));
            let sides = digits_val(s.subrange(e1 + 1, e2));
            if e2 == s.len() {
                Some((number, sides, None))
            } else if s[e2] == '+' || s[e2] == '-' {
                let e3 = digit_run_end(s, e2 + 1);
                if 1 <= e3 - (e2 + 1) <= 4 && e3 == s.len() {
                    let mag = digits_val(s.subrange(e2 + 1, e3));
                    Some(
                        (
                            number,
                            sides,
                            Some(
                                if s[e2] == '+' {
                                    mag as int
                                } else {
                                    -(mag as int)
                                },
                            ),
                        ),
                    )
                } else {
                    None
                }
            } else {
                None
            }
        }
    }
}

/// Whether an executable modifier equals its mathematical model.
pub open spec fn modifier_matches(m: Option<i32>, model: Option<int>) -> bool {
    match (m, model) {
        (None, None) => true,
        (Some(a), Some(b)) => a as int == b,
        _ => false,
    }
}

/// Scans to the end of the digit run starting at `i`.
fn digit_run_end_exec(v: &Vec<char>, i: usize) -> (e: usize)
    requires
        i <= v.len(),
    ensures
        e as int == digit_run_end(v@, i as int),
        i <= e <= v.len(),
{
    let n = v.len();
    let mut j = i;
    while j < n && is_digit(v[j])
        invariant
            i <= j <= n,
            n == v.len(),
            digit_run_end(v@, i as int) == digit_run_end(v@, j as int),
        decreases n - j,
    {
        j = j + 1;
    }
    proof {
        lemma_digit_run_end(v@, j as int);
    }
    j
}

/// Evaluates the digit run `v[a..b]` (at most four digits).
fn run_value(v: &Vec<char>, a: usize, b: usize) -> (x: u32)
    requires
        a <= b <= v.len(),
        b - a <= 4,
        forall|k: int| a <= k < b ==> is_digit_char(#[trigger] v@[k]),
    ensures
        x as nat == digits_val(v@.subrange(a as int, b as int)),
        x <= 9999,
{
    proof {
        lemma_pow10_small();
        assert(v@.subrange(a as int, a as int) =~= Seq::<char>::empty());
    }
    let mut x: u32 = 0;
    let mut j = a;
    while j < b
        invariant
            a <= j <= b <= v.len(),
            b - a <= 4,
            forall|k: int| a <= k < b ==> is_digit_char(#[trigger] v@[k]),
            x as nat == digits_val(v@.subrange(a as int, j as int)),
            (x as nat) < pow10((j - a) as nat),
        decreases b - j,
    {
        let d = digit_value(v[j]);
        proof {
            lemma_pow10_small();
            lemma_digits_val_acc_push(v@.subrange(a as int, j as int), v@[j as int], 0);
            assert(v@.subrange(a as int, j + 1) =~= v@.subrange(a as int, j as int).push(
                v@[j as int],
            ));
            assert(pow10((j - a) as nat) <= 1000);
        }
        x = x * 10 + d;
        j = j + 1;
    }
    proof {
        lemma_pow10_small();
        assert(pow10((b - a) as nat) <= 10000);
    }
    x
}

/// Parses the compact request format after stripping every whitespace
/// character: `"NdM"` with an optional signed four-digit modifier. Returns
/// the dice count, the side count and the modifier, or the error the text
/// earns: `InvalidFormat` when the shape does not match, `CannotBeZero` when
/// either count is zero.
pub fn parse_roll(input: &str) -> (r: Result<(u32, u32, Option<i32>), ParseRollError>)
    ensures
        ({
            let t = strip_ws(input@);
            match compact_match(t) {
                None => r matches Err(ParseRollError::InvalidFormat(m)) && m@ == t,
                Some((number, sides, modifier)) => if number == 0 || sides == 0 {
                    r matches Err(ParseRollError::CannotBeZero(m)) && m@ == t
                } else {
                    r matches Ok(v) && v.0 == number && v.1 == sides && modifier_matches(
                        v.2,
                        modifier,
                    )
                },
            }
        }),
        r matches Ok(v) ==> 1 <= v.0 <= 9999 && 1 <= v.1 <= 9999 && modifier_wf(v.2),
{
    let stripped = strip_whitespace(input);
    let v = to_chars(stripped.as_str());
    let n = v.len();
    let e1 = digit_run_end_exec(&v, 0);
    proof {
        lemma_digit_run_end(v@, 0);
    }
    if e1 < 1 || e1 > 4 {
        return Err(ParseRollError::InvalidFormat(stripped));
    }
    if e1 >= n {
        return Err(ParseRollError::InvalidFormat(stripped));
    }
    let sep = v[e1];
    if !(sep == 'd' || sep == 'D') {
        return Err(ParseRollError::InvalidFormat(stripped));
    }
    let e2 = digit_run_end_exec(&v, e1 + 1);
    proof {
        lemma_digit_run_end(v@, e1 + 1);
    }
    if e2 - (e1 + 1) < 1 || e2 - (e1 + 1) > 4 {
        return Err(ParseRollError::InvalidFormat(stripped));
    }
    let number = run_value(&v, 0, e1);
    let sides = run_value(&v, e1 + 1, e2);
    let modifier: Option<i32> = if e2 == n {
        None
    } else {
        let sign = v[e2];
        if sign == '+' || sign == '-' {
            let e3 = digit_run_end_exec(&v, e2 + 1);
            proof {
                lemma_digit_run_end(v@, e2 + 1);
            }
            if e3 - (e2 + 1) < 1 || e3 - (e2 + 1) > 4 || e3 != n {
                return Err(ParseRollError::InvalidFormat(stripped));
            }
            let mag = run_value(&v, e2 + 1, e3);
            if sign == '+' {
                Some(mag as i32)
            } else {
                Some(-(mag as i32))
            }
        } else {
            return Err(ParseRollError::InvalidFormat(stripped));
        }
    };
    if number == 0 || sides == 0 {
        return Err(ParseRollError::CannotBeZero(stripped));
    }
    Ok((number, sides, modifier))
}

/// The selection mode of one request.
#[derive(Debug, Clone, Copy, PartialEq, Eq, Structural)]
pub enum RollType {
    Straight,
    Advantage,
    Disadvantage,
}

/// The display name of a mode.
pub open spec fn spec_roll_type_name(t: RollType) -> Seq<char> {
    match t {
        RollType::Straight => "Straight"@,
        RollType::Advantage => "Advantage"@,
        RollType::Disadvantage => "Disadvantage"@,
    }
}

impl RollType {
    /// Names the mode for display.
    pub fn name(&self) -> (s: &'static str)
        ensures
            s@ == spec_roll_type_name(*self),
    {
        match self {
            RollType::Straight => "Straight",
            RollType::Advantage => "Advantage",
            RollType::Disadvantage => "Disadvantage",
        }
    }
}

/// The sum of the rolled values.
pub open spec fn sum_rolls(s: Seq<u32>) -> int
    decreases s.len(),
{
    if s.len() == 0 {
        0
    } else {
        sum_rolls(s.drop_last()) + s.last()
    }
}

/// The modifier's numeric contribution to a total.
pub open spec fn modifier_value(m: Option<i32>) -> int {
    match m {
        None => 0,
        Some(x) => x as int,
    }
}

/// One simulated outcome: the individual die values in draw order, their
/// modified total, and the settings that produced them.
#[derive(Debug, PartialEq)]
pub struct Roll {
    pub rolls: Vec<u32>,
    pub total: i64,
    pub settings: RollSettings,
}

impl Roll {
    /// What simulation guarantees: one value per die, each within the die's
    /// faces, and a total equal to their sum plus the modifier.
    pub open spec fn wf(self) -> bool {
        &&& self.settings.wf()
        &&& self.rolls@.len() == self.settings.number
        &&& (forall|i: int|
            0 <= i < self.rolls@.len() ==> 1 <= #[trigger] self.rolls@[i] <= self.settings.sides)
        &&& self.total == sum_rolls(self.rolls@) + modifier_value(self.settings.modifier)
    }
}

/// Relies on rand: `Uniform::from(1..=sides)` builds the inclusive uniform
/// integer distribution, defined whenever `sides >= 1`, and `sample` on
/// `thread_rng` draws one of its values, so the result lies in `[1, sides]`.
#[verifier::external_body]
fn roll_die(sides: u32) -> (r: u32)
    requires
        1 <= sides,
    ensures
        1 <= r <= sides,
{
    let mut rng = rand::thread_rng();
    let die = Uniform::from(1..=sides);
    die.sample(&mut rng)
}

impl Roll {
    /// Simulates one outcome: draws `number` independent values uniformly
    /// from `[1, sides]` and totals them with the modifier.
    pub fn new(settings: &RollSettings) -> (r: Roll)
        requires
            settings.wf(),
        ensures
            r.wf(),
            r.settings == *settings,
    {
        let mut rolls: Vec<u32> = Vec::new();
        let mut sum: i64 = 0;
        let mut i: u32 = 0;
        while i < settings.number
            invariant
                i <= settings.number,
                settings.wf(),
                rolls@.len() == i,
                forall|k: int| 0 <= k < rolls@.len() ==> 1 <= #[trigger] rolls@[k] <= settings.sides,
                sum == sum_rolls(rolls@),
                0 <= sum <= (i as int) * 9999,
            decreases settings.number - i,
        {
            let v = roll_die(settings.sides);
            proof {
                assert(rolls@.push(v).drop_last() =~= rolls@);
            }
            rolls.push(v);
            sum = sum + (v as i64);
            i = i + 1;
        }
        let total = match settings.modifier {
            Some(m) => sum + (m as i64),
            None => sum,
        };
        Roll { rolls, total, settings: settings.clone() }
    }
}

/// One request's full result: the mode, one or two freshly simulated
/// outcomes, and the settings.
#[derive(Debug, PartialEq)]
pub struct RollResults {
    pub roll_type: RollType,
    pub try_one: Roll,
    pub try_two: Option<Roll>,
    pub settings: RollSettings,
}

impl RollResults {
    /// A second attempt exists exactly for the advantage and disadvantage
    /// modes, and every outcome belongs to the same settings.
    pub open spec fn wf(self) -> bool {
        &&& self.settings.wf()
        &&& self.try_one.wf()
        &&& self.try_one.settings == self.settings
        &&& match self.roll_type {
            RollType::Straight => self.try_two is None,
            RollType::Advantage | RollType::Disadvantage => self.try_two matches Some(t) && t.wf()
                && t.settings == self.settings,
        }
    }

    /// The outcome the mode selects: the greater total under advantage, the
    /// lesser under disadvantage, the first attempt on a tie.
    pub open spec fn spec_result(self) -> Roll
        recommends
            self.wf(),
    {
        match self.roll_type {
            RollType::Straight => self.try_one,
            RollType::Advantage => if (self.try_two->0).total > self.try_one.total {
                self.try_two->0
            } else {
                self.try_one
            },
            RollType::Disadvantage => if (self.try_two->0).total < self.try_one.total {
                self.try_two->0
            } else {
                self.try_one
            },
        }
    }

    /// The 1-based index of the attempt the mode selects.
    pub open spec fn spec_results_index(self) -> int
        recommends
            self.wf(),
    {
        match self.roll_type {
            RollType::Straight => 1,
            RollType::Advantage => if (self.try_two->0).total > self.try_one.total {
                2
            } else {
                1
            },
            RollType::Disadvantage => if (self.try_two->0).total < self.try_one.total {
                2
            } else {
                1
            },
        }
    }

    /// Simulates one request: one outcome, and a second one for the
    /// advantage and disadvantage modes.
    pub fn new(settings: &RollSettings, roll_type: &RollType) -> (r: RollResults)
        requires
            settings.wf(),
        ensures
            r.wf(),
            r.settings == *settings,
            r.roll_type == *roll_type,
    {
        let try_one = Roll::new(settings);
        let try_two = match roll_type {
            RollType::Straight => None,
            RollType::Advantage | RollType::Disadvantage => Some(Roll::new(settings)),
        };
        RollResults { roll_type: *roll_type, try_one, try_two, settings: settings.clone() }
    }

    /// The winning outcome: under advantage no attempt has a greater total,
    /// under disadvantage none has a lesser one; ties keep the first attempt.
    pub fn result(&self) -> (r: &Roll)
        requires
            self.wf(),
        ensures
            *r == self.spec_result(),
            r.wf(),
            self.roll_type != RollType::Straight ==> (*r == self.try_one || *r == self.try_two->0),
            self.roll_type == RollType::Advantage ==> r.total >= self.try_one.total && r.total >= (
            self.try_two->0).total,
            self.roll_type == RollType::Disadvantage ==> r.total <= self.try_one.total && r.total
                <= (self.try_two->0).total,
    {
        match self.roll_type {
            RollType::Straight => &self.try_one,
            RollType::Advantage => {
                let two = self.try_two.as_ref().unwrap();
                if two.total > self.try_one.total {
                    two
                } else {
                    &self.try_one
                }
            },
            RollType::Disadvantage => {
                let two = self.try_two.as_ref().unwrap();
                if two.total < self.try_one.total {
                    two
                } else {
                    &self.try_one
                }
            },
        }
    }

    /// The 1-based index of the winning attempt: 1 or 2, naming the attempt
    /// `result` selects; ties yield 1.
    pub fn results_index(&self) -> (idx: usize)
        requires
            self.wf(),
        ensures
            idx as int == self.spec_results_index(),
            1 <= idx <= 2,
            idx == 1 ==> self.spec_result() == self.try_one,
            idx == 2 ==> self.spec_result() == self.try_two->0,
    {
        match self.roll_type {
            RollType::Straight => 1,
            RollType::Advantage => {
                let two = self.try_two.as_ref().unwrap();
                if two.total > self.try_one.total {
                    2
                } else {
                    1
                }
            },
            RollType::Disadvantage => {
                let two = self.try_two.as_ref().unwrap();
                if two.total < self.try_one.total {
                    2
                } else {
                    1
                }
            },
        }
    }
}

/// The sum of the rolled values is never negative.
proof fn lemma_sum_rolls_nonneg(s: Seq<u32>)
    ensures
        sum_rolls(s) >= 0,
    decreases s.len(),
{
    if s.len() > 0 {
        lemma_sum_rolls_nonneg(s.drop_last());
    }
}

/// The roll list joined with `" + "`.
pub open spec fn spec_format_results(rolls: Seq<u32>) -> Seq<char>
    decreases rolls.len(),
{
    if rolls.len() == 0 {
        Seq::<char>::empty()
    } else if rolls.len() == 1 {
        dec_str(rolls[0] as nat)
    } else {
        spec_format_results(rolls.drop_last()) + seq![' ', '+', ' '] + dec_str(rolls.last() as nat)
    }
}

/// The rendering of one attempt: the joined rolls in parentheses, cut to
/// `truncate` characters with a three-dot marker where they run over, then
/// the modifier suffix.
pub open spec fn spec_format_roll(roll: Roll, truncate: Option<usize>) -> Seq<char> {
    let results = spec_format_results(roll.rolls@);
    let shown = match truncate {
        Some(t) => if results.len() > t {
            results.subrange(0, t as int) + seq!['.', '.', '.']
        } else {
            results
        },
        None => results,
    };
    seq!['('] + shown + seq![')'] + spec_format_modifier(roll.settings.modifier)
}

/// Truncation law: where the joined roll list runs past the budget `t`, the
/// rendering keeps exactly the first `t` characters of the list and appends
/// the three-character marker, inside the parentheses and before the
/// modifier suffix; its length is the budget plus the marker, the
/// parentheses and the suffix.
pub proof fn lemma_format_roll_truncation(roll: Roll, t: usize)
    requires
        spec_format_results(roll.rolls@).len() > t,
    ensures
        spec_format_roll(roll, Some(t)) == seq!['('] + spec_format_results(
            roll.rolls@,
        ).subrange(0, t as int) + seq!['.', '.', '.'] + seq![')'] + spec_format_modifier(
            roll.settings.modifier,
        ),
        spec_format_roll(roll, Some(t)).len() == t + 5 + spec_format_modifier(
            roll.settings.modifier,
        ).len(),
{
    let results = spec_format_results(roll.rolls@);
    let shown = results.subrange(0, t as int) + seq!['.', '.', '.'];
    assert(seq!['('] + shown + seq![')'] + spec_format_modifier(roll.settings.modifier)
        =~= seq!['('] + results.subrange(0, t as int) + seq!['.', '.', '.'] + seq![')']
        + spec_format_modifier(roll.settings.modifier));
}

/// The display text of a straight outcome: the parameters line, the roll
/// line cut to the single-attempt budget, and the emphasised total.
pub open spec fn spec_roll_message(roll: Roll) -> Seq<char> {
    "Parameters: "@ + spec_format_parameters(roll.settings) + "\nRoll: "@ + spec_format_roll(
        roll,
        Some(4000),
    ) + "\nYour final roll is: \u{1f3b2} <b>"@ + int_str(roll.total as int) + "</b> \u{1f3b2}"@
}

impl Roll {
    /// Joins the individual die values with `" + "`.
    pub fn format_results(&self) -> (s: String)
        requires
            self.rolls@.len() > 0,
        ensures
            s@ == spec_format_results(self.rolls@),
    {
        let mut s = u64_string(self.rolls[0] as u64);
        proof {
            assert(self.rolls@.take(1) =~= seq![self.rolls@[0]]);
        }
        let mut i: usize = 1;
        while i < self.rolls.len()
            invariant
                1 <= i <= self.rolls@.len(),
                s@ == spec_format_results(self.rolls@.take(i as int)),
            decreases self.rolls@.len() - i,
        {
            s.append(" + ");
            let d = u64_string(self.rolls[i] as u64);
            s.append(d.as_str());
            proof {
                reveal_strlit(" + ");
                assert(" + "@ =~= seq![' ', '+', ' ']);
                let t = self.rolls@.take(i + 1);
                assert(t.drop_last() =~= self.rolls@.take(i as int));
                assert(t.last() == self.rolls@[i as int]);
            }
            i = i + 1;
        }
        proof {
            assert(self.rolls@.take(self.rolls@.len() as int) =~= self.rolls@);
        }
        s
    }

    /// Renders the attempt, cutting the joined rolls to the given character
    /// budget.
    pub fn format_roll(&self, truncate: Option<usize>) -> (s: String)
        requires
            self.rolls@.len() > 0,
            modifier_wf(self.settings.modifier),
        ensures
            s@ == spec_format_roll(*self, truncate),
    {
        let results = self.format_results();
        let mut s = String::from_str("(");
        proof {
            reveal_strlit("(");
            reveal_strlit(")");
            reveal_strlit("...");
            assert("("@ =~= seq!['(']);
            assert(")"@ =~= seq![')']);
            assert("..."@ =~= seq!['.', '.', '.']);
        }
        match truncate {
            Some(t) => {
                let len = results.as_str().unicode_len();
                if len > t {
                    let prefix = results.as_str().substring_char(0, t);
                    s.append(prefix);
                    s.append("...");
                } else {
                    s.append(results.as_str());
                }
            },
            None => {
                s.append(results.as_str());
            },
        }
        s.append(")");
        let m = self.settings.format_modifier();
        s.append(m.as_str());
        s
    }

    /// Renders the outcome for display, the single-attempt form.
    pub fn format_message(&self) -> (s: String)
        requires
            self.wf(),
        ensures
            s@ == spec_roll_message(*self),
    {
        proof {
            lemma_sum_rolls_nonneg(self.rolls@);
        }
        let mut s = String::from_str("Parameters: ");
        let params = self.settings.format_parameters();
        s.append(params.as_str());
        s.append("\nRoll: ");
        let roll = self.format_roll(Some(4000));
        s.append(roll.as_str());
        s.append("\nYour final roll is: \u{1f3b2} <b>");
        let total = i64_string(self.total);
        s.append(total.as_str());
        s.append("</b> \u{1f3b2}");
        s
    }
}

/// The display text of a full session: straight sessions show the single
/// outcome; the others name the mode, show both attempts cut to the
/// dual-attempt budget with the losing one struck through, and end with the
/// winning total.
pub open spec fn spec_results_message(rr: RollResults) -> Seq<char>
    recommends
        rr.wf(),
{
    if rr.roll_type == RollType::Straight {
        spec_roll_message(rr.try_one)
    } else {
        let idx = rr.spec_results_index();
        let attempt_one = "Attempt one: "@ + spec_format_roll(rr.try_one, Some(2000));
        let attempt_two = "Attempt two: "@ + spec_format_roll(rr.try_two->0, Some(2000));
        let line_one = if idx == 2 {
            "<s>"@ + attempt_one + "</s>\n"@
        } else {
            attempt_one + "\n"@
        };
        let line_two = if idx == 1 {
            "<s>"@ + attempt_two + "</s>\n"@
        } else {
            attempt_two + "\n"@
        };
        "Parameters: "@ + spec_format_parameters(rr.settings) + " with <u>"@ + spec_roll_type_name(
            rr.roll_type,
        ) + "</u>\n"@ + line_one + line_two + "Your final roll is: \u{1f3b2} <b>"@ + int_str(
            rr.spec_result().total as int,
        ) + "</b> \u{1f3b2}"@
    }
}

impl RollResults {
    /// Renders the session for display.
    pub fn format_message(&self) -> (s: String)
        requires
            self.wf(),
        ensures
            s@ == spec_results_message(*self),
    {
        match self.roll_type {
            RollType::Straight => self.try_one.format_message(),
            RollType::Advantage | RollType::Disadvantage => {
                let index = self.results_index();
                let two = self.try_two.as_ref().unwrap();
                let mut s = String::from_str("Parameters: ");
                let params = self.settings.format_parameters();
                s.append(params.as_str());
                s.append(" with <u>");
                s.append(self.roll_type.name());
                s.append("</u>\n");
                let mut attempt_one = String::from_str("Attempt one: ");
                let roll_one = self.try_one.format_roll(Some(2000));
                attempt_one.append(roll_one.as_str());
                if index == 2 {
                    s.append("<s>");
                    s.append(attempt_one.as_str());
                    s.append("</s>\n");
                } else {
                    s.append(attempt_one.as_str());
                    s.append("\n");
                }
                let mut attempt_two = String::from_str("Attempt two: ");
                let roll_two = two.format_roll(Some(2000));
                attempt_two.append(roll_two.as_str());
                if index == 1 {
                    s.append("<s>");
                    s.append(attempt_two.as_str());
                    s.append("</s>\n");
                } else {
                    s.append(attempt_two.as_str());
                    s.append("\n");
                }
                s.append("Your final roll is: \u{1f3b2} <b>");
                let winner = self.result();
                proof {
                    lemma_sum_rolls_nonneg(winner.rolls@);
                }
                let total = i64_string(winner.total);
                s.append(total.as_str());
                s.append("</b> \u{1f3b2}");
                s
            },
        }
    }
}

impl core::str::FromStr for RollSettings {
    type Err = ParseRollError;

    /// Parses the compact request format, as `parse_roll` does; the label is
    /// never set.
    fn from_str(input: &str) -> Result<RollSettings, ParseRollError> {
        match parse_roll(input) {
            Ok((number, sides, modifier)) => Ok(
                RollSettings { number, sides, modifier, label: None },
            ),
            Err(e) => Err(e),
        }
    }
}

} // verus!
