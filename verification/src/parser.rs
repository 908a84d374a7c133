//! The free-form grammar parser: one to four digits, a `d` or `D` separator,
//! one to four digits, an optional signed modifier, and an optional trailing
//! free-text label. Whitespace may appear between any two tokens, digits of
//! one numeric field included.

use vstd::prelude::*;
use vstd::string::StrSliceExecFns;
use vstd::string::StringExecFns;

use crate::dice::{
    modifier_matches, spec_format_modifier, spec_format_parameters, RollSettings,
};
use crate::digits::{
    dec_str, digit_val, digit_value, digits_val_acc, is_digit, is_digit_char, lemma_dec_str_digits,
    lemma_dec_str_len, lemma_digits_val_dec_str, lemma_pow10_mono, lemma_pow10_pos,
    lemma_pow10_small, lemma_pow10_u64, pow10,
};
use crate::utils::{is_unicode_ws, is_whitespace_char, to_chars};

verus! {

/// Parse failure for the free-form grammar. `ParseError` carries the message
/// naming the text at the failing position; `CannotBeZero` carries the whole
/// input; `TooBig` flags a numeric field running past four digits.
#[derive(Debug, Clone, PartialEq)]
pub enum ParseRollError {
    ParseError(String),
    CannotBeZero(String),
    TooBig,
}

/// The whitespace the grammar skips between tokens: space, tab, carriage
/// return and line feed.
pub open spec fn is_sep_ws(c: char) -> bool {
    c == ' ' || c == '\t' || c == '\r' || c == '\n'
}

/// Tests for separator whitespace.
fn is_sep_ws_char(c: char) -> (b: bool)
    ensures
        b == is_sep_ws(c),
{
    c == ' ' || c == '\t' || c == '\r' || c == '\n'
}

/// First position at or after `i` that does not hold separator whitespace.
pub open spec fn skip_ws(s: Seq<char>, i: int) -> int
    decreases s.len() - i,
{
    if i < s.len() && is_sep_ws(s[i]) {
        skip_ws(s, i + 1)
    } else {
        i
    }
}

proof fn lemma_skip_ws(s: Seq<char>, i: int)
    requires
        0 <= i <= s.len(),
    ensures
        i <= skip_ws(s, i) <= s.len(),
        skip_ws(s, i) < s.len() ==> !is_sep_ws(s[skip_ws(s, i)]),
    decreases s.len() - i,
{
    if i < s.len() && is_sep_ws(s[i]) {
        lemma_skip_ws(s, i + 1);
    }
}

/// Scans past separator whitespace.
fn skip_ws_exec(v: &Vec<char>, i: usize) -> (j: usize)
    requires
        i <= v.len(),
    ensures
        j as int == skip_ws(v@, i as int),
        i <= j <= v.len(),
{
    let n = v.len();
    let mut j = i;
    while j < n && is_sep_ws_char(v[j])
        invariant
            i <= j <= n,
            n == v.len(),
            skip_ws(v@, i as int) == skip_ws(v@, j as int),
        decreases n - j,
    {
        j = j + 1;
    }
    j
}

/// Greedily reads up to `rem` more whitespace-separated digits onto `acc`.
/// Returns the value and the position after the last digit's trailing
/// whitespace; on a failed attempt the position stays where that attempt
/// began.
pub open spec fn read_digits(s: Seq<char>, i: int, acc: nat, rem: nat) -> (nat, int)
    decreases rem,
{
    if rem == 0 {
        (acc, i)
    } else {
        let j = skip_ws(s, i);
        if j < s.len() && is_digit_char(s[j]) {
            read_digits(s, skip_ws(s, j + 1), acc * 10 + digit_val(s[j]), (rem - 1) as nat)
        } else {
            (acc, i)
        }
    }
}

proof fn lemma_read_digits(s: Seq<char>, i: int, acc: nat, rem: nat)
    requires
        0 <= i <= s.len(),
    ensures
        i <= read_digits(s, i, acc, rem).1 <= s.len(),
        read_digits(s, i, acc, rem).0 < (acc + 1) * pow10(rem),
    decreases rem,
{
    lemma_pow10_pos(rem);
    vstd::arithmetic::mul::lemma_mul_inequality(1, pow10(rem) as int, (acc + 1) as int);
    if rem > 0 {
        let j = skip_ws(s, i);
        lemma_skip_ws(s, i);
        if j < s.len() && is_digit_char(s[j]) {
            lemma_skip_ws(s, j + 1);
            let acc2 = acc * 10 + digit_val(s[j]);
            lemma_read_digits(s, skip_ws(s, j + 1), acc2, (rem - 1) as nat);
            assert(acc2 + 1 <= (acc + 1) * 10);
            vstd::arithmetic::mul::lemma_mul_inequality(
                (acc2 + 1) as int,
                ((acc + 1) * 10) as int,
                pow10((rem - 1) as nat) as int,
            );
            assert((acc + 1) * 10 * pow10((rem - 1) as nat) == (acc + 1) * pow10(rem)) by {
                assert(pow10(rem) == 10 * pow10((rem - 1) as nat));
                vstd::arithmetic::mul::lemma_mul_is_associative(
                    (acc + 1) as int,
                    10,
                    pow10((rem - 1) as nat) as int,
                );
            }
        }
    }
}

/// Reads up to `rem` whitespace-separated digits, the 64-bit executable
/// reader.
fn read_digits_exec(v: &Vec<char>, i: usize, acc: u64, rem: usize) -> (r: (u64, usize))
    requires
        i <= v.len(),
        rem <= 19,
        (acc as nat) < pow10((19 - rem) as nat),
    ensures
        r.0 as nat == read_digits(v@, i as int, acc as nat, rem as nat).0,
        r.1 as int == read_digits(v@, i as int, acc as nat, rem as nat).1,
        r.1 <= v.len(),
    decreases rem,
{
    if rem == 0 {
        return (acc, i);
    }
    let j = skip_ws_exec(v, i);
    if j < v.len() {
        let c = v[j];
        if is_digit(c) {
            let d = digit_value(c);
            proof {
                lemma_pow10_u64();
                lemma_pow10_mono((19 - rem) as nat, 18);
                assert((acc as nat) < pow10(18));
                assert(pow10((19 - (rem - 1)) as nat) == 10 * pow10((19 - rem) as nat));
            }
            let acc2 = acc * 10 + (d as u64);
            let k = skip_ws_exec(v, j + 1);
            return read_digits_exec(v, k, acc2, rem - 1);
        }
    }
    (acc, i)
}

/// One numeric field: at least one digit (after optional whitespace), then
/// up to three more. `None` where no digit starts the field.
pub open spec fn parse_field(s: Seq<char>, i: int) -> Option<(nat, int)> {
    let j = skip_ws(s, i);
    if j < s.len() && is_digit_char(s[j]) {
        Some(read_digits(s, i, 0, 4))
    } else {
        None
    }
}

/// Reads one numeric field of one to four digits.
fn parse_field_exec(v: &Vec<char>, i: usize) -> (r: Option<(u32, usize)>)
    requires
        i <= v.len(),
    ensures
        (r is Some) == (parse_field(v@, i as int) is Some),
        r matches Some(a) ==> parse_field(v@, i as int) matches Some(b) && a.0 as nat == b.0
            && a.1 as int == b.1 && a.0 <= 9999 && a.1 <= v.len(),
{
    let j = skip_ws_exec(v, i);
    if j < v.len() && is_digit(v[j]) {
        proof {
            lemma_pow10_small();
            lemma_pow10_pos(15);
            lemma_read_digits(v@, i as int, 0, 4);
        }
        let (val, pos) = read_digits_exec(v, i, 0, 4);
        Some((val as u32, pos))
    } else {
        None
    }
}

/// The outcome of the numeric grammar alone: the failing position, or the
/// two counts, the modifier, and the position where the grammar stopped.
pub enum GrammarResult {
    Fail { at: int },
    Parsed { number: nat, sides: nat, modifier: Option<int>, rest: int },
}

/// Runs the numeric grammar: count field, `d`/`D` separator, sides field,
/// then an optional sign-and-field modifier whose failure consumes nothing.
pub open spec fn parse_grammar(s: Seq<char>) -> GrammarResult {
    match parse_field(s, 0) {
        None => GrammarResult::Fail { at: skip_ws(s, 0) },
        Some((number, p1)) => {
            let j = skip_ws(s, p1);
            if !(j < s.len() && (s[j] == 'd' || s[j] == 'D')) {
                GrammarResult::Fail { at: j }
            } else {
                let p2 = skip_ws(s, j + 1);
                match parse_field(s, p2) {
                    None => GrammarResult::Fail { at: skip_ws(s, p2) },
                    Some((sides, p3)) => {
                        let k = skip_ws(s, p3);
                        if k < s.len() && (s[k] == '+' || s[k] == '-') {
                            let p4 = skip_ws(s, k + 1);
                            match parse_field(s, p4) {
                                Some((mag, p5)) => GrammarResult::Parsed {
                                    number,
                                    sides,
                                    modifier: Some(
                                        if s[k] == '+' {
                                            mag as int
                                        } else {
                                            -(mag as int)
                                        },
                                    ),
                                    rest: p5,
                                },
                                None => GrammarResult::Parsed {
                                    number,
                                    sides,
                                    modifier: None,
                                    rest: p3,
                                },
                            }
                        } else {
                            GrammarResult::Parsed { number, sides, modifier: None, rest: p3 }
                        }
                    },
                }
            }
        },
    }
}

/// The text with leading Unicode whitespace removed.
pub open spec fn trim_start(s: Seq<char>) -> Seq<char>
    decreases s.len(),
{
    if s.len() > 0 && is_unicode_ws(s[0]) {
        trim_start(s.drop_first())
    } else {
        s
    }
}

/// The text with trailing Unicode whitespace removed.
pub open spec fn trim_end(s: Seq<char>) -> Seq<char>
    decreases s.len(),
{
    if s.len() > 0 && is_unicode_ws(s.last()) {
        trim_end(s.drop_last())
    } else {
        s
    }
}

/// The text with leading and trailing Unicode whitespace removed, as
/// `str::trim` leaves it.
pub open spec fn trim(s: Seq<char>) -> Seq<char> {
    trim_end(trim_start(s))
}

proof fn lemma_trim_start_range(s: Seq<char>, a: int)
    requires
        0 <= a <= s.len(),
        forall|k: int| 0 <= k < a ==> is_unicode_ws(#[trigger] s[k]),
        a < s.len() ==> !is_unicode_ws(s[a]),
    ensures
        trim_start(s) == s.subrange(a, s.len() as int),
    decreases a,
{
    if a == 0 {
        if s.len() > 0 {
            assert(trim_start(s) == s);
        }
        assert(s.subrange(0, s.len() as int) =~= s);
    } else {
        let t = s.drop_first();
        assert(forall|k: int| 0 <= k < a - 1 ==> is_unicode_ws(#[trigger] t[k]));
        lemma_trim_start_range(t, a - 1);
        assert(t.subrange(a - 1, t.len() as int) =~= s.subrange(a, s.len() as int));
    }
}

proof fn lemma_trim_end_range(s: Seq<char>, b: int)
    requires
        0 <= b <= s.len(),
        forall|k: int| b <= k < s.len() ==> is_unicode_ws(#[trigger] s[k]),
        b > 0 ==> !is_unicode_ws(s[b - 1]),
    ensures
        trim_end(s) == s.subrange(0, b),
    decreases s.len(),
{
    if b == s.len() {
        if b > 0 {
            assert(trim_end(s) == s);
        }
        assert(s.subrange(0, s.len() as int) =~= s);
    } else {
        let t = s.drop_last();
        assert(forall|k: int| b <= k < t.len() ==> is_unicode_ws(#[trigger] t[k]));
        lemma_trim_end_range(t, b);
        assert(t.subrange(0, b) =~= s.subrange(0, b));
    }
}

proof fn lemma_trim_range(s: Seq<char>, a: int, b: int)
    requires
        0 <= a <= b <= s.len(),
        forall|k: int| 0 <= k < a ==> is_unicode_ws(#[trigger] s[k]),
        forall|k: int| b <= k < s.len() ==> is_unicode_ws(#[trigger] s[k]),
        a < b ==> !is_unicode_ws(s[a]) && !is_unicode_ws(s[b - 1]),
        a == b ==> b == s.len(),
    ensures
        trim(s) == s.subrange(a, b),
{
    lemma_trim_start_range(s, a);
    let t = s.subrange(a, s.len() as int);
    assert(forall|k: int| b - a <= k < t.len() ==> is_unicode_ws(#[trigger] t[k]));
    lemma_trim_end_range(t, b - a);
    assert(t.subrange(0, b - a) =~= s.subrange(a, b));
}

/// The outcome of a full parse: the model of `parse_roll`.
pub enum ParseOutcome {
    Fail { at: int },
    Zero,
    TooBig,
    Accepted { number: nat, sides: nat, modifier: Option<int>, label: Seq<char> },
}

/// What a parse of `s` yields: the grammar's outcome, then the zero check on
/// both counts, then the rejection of leftover digits (a field that ran past
/// four digits), then the leftover text trimmed into the label.
pub open spec fn spec_parse_roll(s: Seq<char>) -> ParseOutcome {
    match parse_grammar(s) {
        GrammarResult::Fail { at } => ParseOutcome::Fail { at },
        GrammarResult::Parsed { number, sides, modifier, rest } => {
            if number == 0 || sides == 0 {
                ParseOutcome::Zero
            } else {
                let q = skip_ws(s, rest);
                if q < s.len() && is_digit_char(s[q]) {
                    ParseOutcome::TooBig
                } else {
                    ParseOutcome::Accepted {
                        number,
                        sides,
                        modifier,
                        label: trim(s.subrange(rest, s.len() as int)),
                    }
                }
            }
        },
    }
}

/// Builds the message a grammar failure carries: the text from the failing
/// position.
fn one_of_error(input: &str, at: usize) -> (e: ParseRollError)
    requires
        at <= input@.len(),
    ensures
        e matches ParseRollError::ParseError(m) && m@ == "error OneOf at: "@ + input@.subrange(
            at as int,
            input@.len() as int,
        ),
{
    let mut m = String::from_str("error OneOf at: ");
    let rest = input.substring_char(at, input.unicode_len());
    m.append(rest);
    ParseRollError::ParseError(m)
}

/// Parses a free-form dice request. On success the settings satisfy the
/// validity invariant and carry the trimmed leftover text as the label; each
/// rejected input earns the error `spec_parse_roll` assigns it.
pub fn parse_roll(input: &str) -> (r: Result<RollSettings, ParseRollError>)
    ensures
        ({
            match spec_parse_roll(input@) {
                ParseOutcome::Fail { at } => r matches Err(ParseRollError::ParseError(m)) && m@
                    == "error OneOf at: "@ + input@.subrange(at, input@.len() as int),
                ParseOutcome::Zero => r matches Err(ParseRollError::CannotBeZero(m)) && m@
                    == input@,
                ParseOutcome::TooBig => r matches Err(ParseRollError::TooBig),
                ParseOutcome::Accepted { number, sides, modifier, label } => r matches Ok(rs)
                    && rs.number as nat == number && rs.sides as nat == sides && modifier_matches(
                    rs.modifier,
                    modifier,
                ) && (if label.len() == 0 {
                    rs.label is None
                } else {
                    rs.label matches Some(l) && l@ == label
                }),
            }
        }),
        r matches Ok(rs) ==> rs.wf(),
{
    let v = to_chars(input);
    let n = v.len();
    let (number, p1) = match parse_field_exec(&v, 0) {
        Some(t) => t,
        None => {
            let at = skip_ws_exec(&v, 0);
            return Err(one_of_error(input, at));
        },
    };
    let j = skip_ws_exec(&v, p1);
    if !(j < n && (v[j] == 'd' || v[j] == 'D')) {
        return Err(one_of_error(input, j));
    }
    let p2 = skip_ws_exec(&v, j + 1);
    let (sides, p3) = match parse_field_exec(&v, p2) {
        Some(t) => t,
        None => {
            let at = skip_ws_exec(&v, p2);
            return Err(one_of_error(input, at));
        },
    };
    let k = skip_ws_exec(&v, p3);
    let (modifier, rest): (Option<i32>, usize) = if k < n && (v[k] == '+' || v[k] == '-') {
        let positive = v[k] == '+';
        let p4 = skip_ws_exec(&v, k + 1);
        match parse_field_exec(&v, p4) {
            Some((mag, p5)) => {
                let m = if positive {
                    mag as i32
                } else {
                    -(mag as i32)
                };
                (Some(m), p5)
            },
            None => (None, p3),
        }
    } else {
        (None, p3)
    };
    if number == 0 || sides == 0 {
        return Err(ParseRollError::CannotBeZero(input.to_owned()));
    }
    let q = skip_ws_exec(&v, rest);
    if q < n && is_digit(v[q]) {
        return Err(ParseRollError::TooBig);
    }
    let mut a = rest;
    while a < n && is_whitespace_char(v[a])
        invariant
            rest <= a <= n,
            n == v.len(),
            forall|t: int| rest <= t < a ==> is_unicode_ws(#[trigger] v@[t]),
        decreases n - a,
    {
        a = a + 1;
    }
    let label: Option<String> = if a == n {
        proof {
            let sub = v@.subrange(rest as int, n as int);
            assert(forall|t: int| 0 <= t < sub.len() ==> is_unicode_ws(#[trigger] sub[t]));
            lemma_trim_range(sub, sub.len() as int, sub.len() as int);
        }
        None
    } else {
        let mut b = n;
        while b > a && is_whitespace_char(v[b - 1])
            invariant
                a <= b <= n,
                a < n == v.len(),
                forall|t: int| b <= t < n ==> is_unicode_ws(#[trigger] v@[t]),
            decreases b,
        {
            b = b - 1;
        }
        proof {
            assert(b > a) by {
                assert(!is_unicode_ws(v@[a as int]));
            }
            let sub = v@.subrange(rest as int, n as int);
            assert(forall|t: int| 0 <= t < a - rest ==> is_unicode_ws(#[trigger] sub[t]));
            assert(forall|t: int| b - rest <= t < sub.len() ==> is_unicode_ws(#[trigger] sub[t]));
            lemma_trim_range(sub, a - rest, b - rest);
            assert(sub.subrange(a - rest, b - rest) =~= v@.subrange(a as int, b as int));
        }
        Some(input.substring_char(a, b).to_owned())
    };
    Ok(RollSettings { number, sides, modifier, label })
}

/// Reads one whitespace-padded decimal digit: the remaining text and the
/// digit character.
pub fn single_decimal(input: &str) -> (r: Option<(&str, char)>)
    ensures
        ({
            let j = skip_ws(input@, 0);
            if j < input@.len() && is_digit_char(input@[j]) {
                r matches Some((rest, c)) && c == input@[j] && rest@ == input@.subrange(
                    skip_ws(input@, j + 1),
                    input@.len() as int,
                )
            } else {
                r is None
            }
        }),
{
    let v = to_chars(input);
    let j = skip_ws_exec(&v, 0);
    if j < v.len() {
        let c = v[j];
        if is_digit(c) {
            let k = skip_ws_exec(&v, j + 1);
            let rest = input.substring_char(k, input.unicode_len());
            return Some((rest, c));
        }
    }
    None
}

/// A decimal digit is not grammar whitespace.
proof fn lemma_digit_not_ws(c: char)
    requires
        is_digit_char(c),
    ensures
        !is_sep_ws(c),
{
}

/// Reading digits at a position holding exactly the digit block `b`, with
/// enough fuel and nothing making the read continue past it, consumes the
/// block and its trailing whitespace and accumulates its value.
proof fn lemma_read_digits_exact(s: Seq<char>, i: int, acc: nat, rem: nat, b: Seq<char>)
    requires
        0 <= i,
        i + b.len() <= s.len(),
        1 <= b.len() <= rem,
        forall|k: int| 0 <= k < b.len() ==> s[i + k] == #[trigger] b[k],
        forall|k: int| 0 <= k < b.len() ==> is_digit_char(#[trigger] b[k]),
        ({
            let e = skip_ws(s, i + b.len());
            b.len() == rem || e == s.len() || !is_digit_char(s[e])
        }),
    ensures
        read_digits(s, i, acc, rem) == (digits_val_acc(b, acc), skip_ws(s, i + b.len())),
    decreases b.len(),
{
    assert(s[i + 0] == b[0]);
    assert(is_digit_char(b[0]));
    lemma_digit_not_ws(s[i]);
    assert(skip_ws(s, i) == i);
    let acc2 = acc * 10 + digit_val(s[i]);
    assert(read_digits(s, i, acc, rem) == read_digits(s, skip_ws(s, i + 1), acc2, (rem - 1) as nat));
    if b.len() == 1 {
        let e = skip_ws(s, i + 1);
        lemma_skip_ws(s, i + 1);
        assert(skip_ws(s, e) == e);
        assert(read_digits(s, e, acc2, (rem - 1) as nat) == (acc2, e));
        assert(digits_val_acc(b, acc) == digits_val_acc(b.drop_first(), acc2));
        assert(b.drop_first() =~= Seq::<char>::empty());
        assert(digits_val_acc(Seq::<char>::empty(), acc2) == acc2);
    } else {
        assert(s[i + 1] == b[1]);
        assert(is_digit_char(b[1]));
        lemma_digit_not_ws(s[i + 1]);
        assert(skip_ws(s, i + 1) == i + 1);
        let t = b.drop_first();
        assert(forall|k: int| 0 <= k < t.len() ==> s[i + 1 + k] == #[trigger] t[k]);
        assert(forall|k: int| 0 <= k < t.len() ==> is_digit_char(#[trigger] t[k]));
        assert(t[0] == b[1]);
        lemma_read_digits_exact(s, i + 1, acc2, (rem - 1) as nat, t);
        assert(digits_val_acc(b, acc) == digits_val_acc(t, acc2));
    }
}

/// Round trip of parsing and formatting: the canonical rendering of any
/// valid settings is accepted by the free-form grammar and gives back the
/// same number of dice, the same sides and the same modifier, sign
/// included, with no label.
pub proof fn lemma_parse_format_round_trip(s: RollSettings)
    requires
        s.wf(),
    ensures
        spec_parse_roll(spec_format_parameters(s)) matches ParseOutcome::Accepted {
            number,
            sides,
            modifier,
            label,
        } && number == s.number && sides == s.sides && modifier_matches(s.modifier, modifier)
            && label.len() == 0,
{
    let f = spec_format_parameters(s);
    let b1 = dec_str(s.number as nat);
    let b2 = dec_str(s.sides as nat);
    let mseq = spec_format_modifier(s.modifier);
    let l1 = b1.len() as int;
    let l2 = b2.len() as int;
    let ls = l1 + 1 + l2;

    lemma_pow10_small();
    lemma_dec_str_digits(s.number as nat);
    lemma_dec_str_digits(s.sides as nat);
    lemma_dec_str_len(s.number as nat, 4);
    lemma_dec_str_len(s.sides as nat, 4);
    lemma_digits_val_dec_str(s.number as nat);
    lemma_digits_val_dec_str(s.sides as nat);

    assert(f.len() == ls + mseq.len());
    assert(forall|k: int| 0 <= k < l1 ==> f[k] == #[trigger] b1[k]);
    assert(f[l1] == 'd');
    assert(forall|k: int| 0 <= k < l2 ==> f[l1 + 1 + k] == #[trigger] b2[k]);
    assert(forall|k: int| 0 <= k < mseq.len() ==> f[ls + k] == #[trigger] mseq[k]);

    // The count field: its digits start at 0 and `d` stops the read.
    lemma_digit_not_ws(f[0]);
    assert(skip_ws(f, 0) == 0);
    assert(skip_ws(f, l1) == l1);
    lemma_read_digits_exact(f, 0, 0, 4, b1);
    assert(parse_field(f, 0) == Some((s.number as nat, l1)));

    // The separator, then the sides field.
    lemma_digit_not_ws(f[l1 + 1]);
    assert(skip_ws(f, l1 + 1) == l1 + 1);

    match s.modifier {
        None => {
            assert(mseq.len() == 0);
            assert(ls == f.len());
            assert(skip_ws(f, ls) == ls);
            lemma_read_digits_exact(f, l1 + 1, 0, 4, b2);
            assert(parse_field(f, l1 + 1) == Some((s.sides as nat, ls)));
            assert(parse_grammar(f) == GrammarResult::Parsed {
                number: s.number as nat,
                sides: s.sides as nat,
                modifier: None::<int>,
                rest: ls,
            });
            assert(f.subrange(ls, f.len() as int) =~= Seq::<char>::empty());
            assert(trim(Seq::<char>::empty()) =~= Seq::<char>::empty());
        },
        Some(m) => {
            let mag: nat = if m > 0 {
                m as nat
            } else {
                (-m) as nat
            };
            let sign: char = if m > 0 {
                '+'
            } else {
                '-'
            };
            let b3 = dec_str(mag);
            let l3 = b3.len() as int;
            lemma_dec_str_digits(mag);
            lemma_dec_str_len(mag, 4);
            lemma_digits_val_dec_str(mag);
            assert(mseq =~= seq![' ', sign, ' '] + b3);
            assert(f[ls] == ' ');
            assert(f[ls + 1] == sign);
            assert(f[ls + 2] == ' ');
            assert(forall|k: int| 0 <= k < l3 ==> f[ls + 3 + k] == #[trigger] b3[k]);
            assert(f.len() == ls + 3 + l3);

            // The sides field stops at the sign after one space.
            assert(skip_ws(f, ls + 1) == ls + 1);
            assert(skip_ws(f, ls) == ls + 1);
            lemma_read_digits_exact(f, l1 + 1, 0, 4, b2);
            assert(parse_field(f, l1 + 1) == Some((s.sides as nat, ls + 1)));

            // The modifier field starts after the sign and its space.
            lemma_digit_not_ws(f[ls + 3]);
            assert(skip_ws(f, ls + 3) == ls + 3);
            assert(skip_ws(f, ls + 2) == ls + 3);
            assert(skip_ws(f, f.len() as int) == f.len());
            lemma_read_digits_exact(f, ls + 3, 0, 4, b3);
            assert(parse_field(f, ls + 3) == Some((mag, f.len() as int)));

            assert(parse_grammar(f) == GrammarResult::Parsed {
                number: s.number as nat,
                sides: s.sides as nat,
                modifier: Some(
                    if sign == '+' {
                        mag as int
                    } else {
                        -(mag as int)
                    },
                ),
                rest: f.len() as int,
            });
            assert(f.subrange(f.len() as int, f.len() as int) =~= Seq::<char>::empty());
            assert(trim(Seq::<char>::empty()) =~= Seq::<char>::empty());
        },
    }
}

/// Reads between `min` and `max` whitespace-separated digits greedily and
/// evaluates them: the remaining text and the value.
pub fn decimal(input: &str, min: usize, max: usize) -> (r: Option<(&str, u64)>)
    requires
        min == 1,
        1 <= max <= 19,
    ensures
        ({
            let j = skip_ws(input@, 0);
            if j < input@.len() && is_digit_char(input@[j]) {
                let (val, pos) = read_digits(input@, 0, 0, max as nat);
                r matches Some((rest, x)) && x as nat == val && rest@ == input@.subrange(
                    pos,
                    input@.len() as int,
                )
            } else {
                r is None
            }
        }),
{
    let v = to_chars(input);
    let j = skip_ws_exec(&v, 0);
    if j < v.len() && is_digit(v[j]) {
        proof {
            lemma_pow10_pos((19 - max) as nat);
            lemma_read_digits(v@, 0, 0, max as nat);
        }
        let (val, pos) = read_digits_exec(&v, 0, 0, max);
        let rest = input.substring_char(pos, input.unicode_len());
        Some((rest, val))
    } else {
        None
    }
}

} // verus!
