//! Rules as they are handed in, with durations as texts or as seconds.

use vstd::prelude::*;

use crate::rules::types::AlertRuleSpec;
use crate::rules::types::RecordingRuleSpec;
use crate::rules::types::RuleGroupSpec;
use crate::rules::types::RuleSpec;
use crate::rules::types::Texts;
use crate::stable;
use crate::text;

verus! {

/// How often the rules of a group are evaluated where nothing else was set, in seconds.
pub const DEFAULT_GROUP_INTERVAL_SECS: u64 = 60;

/// Up to this number, whole numbers are exact as floating-point numbers too.
pub const EXACT_WHOLE_NUMBERS: u64 = 9007199254740992;

/// Up to this number, a thousandth of a whole number is never rounded to a whole number.
pub const EXACT_THOUSANDTHS: u64 = 1099511627776;

/// A duration as it is handed in: a text, or seconds.
#[derive(Debug, PartialEq, Eq)]
pub enum DurationInput {
    String(String),
    Integer(u64),
}

/// A rule as it is handed in.
#[derive(Debug, PartialEq, Eq)]
pub enum RuleInput {
    Recording { record: String, expr: String, interval: Option<DurationInput>, labels: Texts },
    Alert {
        alert: String,
        expr: String,
        interval: Option<DurationInput>,
        for_duration: Option<DurationInput>,
        labels: Texts,
        annotations: Texts,
    },
}

/// A group of rules as it is handed in.
#[derive(Debug, PartialEq, Eq)]
pub struct RuleGroupInput {
    pub name: String,
    pub tenant_id: String,
    pub interval: Option<DurationInput>,
    pub labels: Texts,
    pub rules: Vec<RuleInput>,
}

/// All groups, as they are handed in to replace those that there are.
#[derive(Debug, PartialEq, Eq)]
pub struct RulesApplyRequest {
    pub groups: Vec<RuleGroupInput>,
}

/// The unit of a duration.
#[derive(Debug, Clone, Copy, PartialEq, Eq, Structural)]
pub enum DurationUnit {
    Milliseconds,
    Seconds,
    Minutes,
    Hours,
    Days,
    Weeks,
    Years,
    Unknown,
}

/// The unit that one character stands for.
pub open spec fn unit_of(c: char) -> DurationUnit {
    if c == 's' {
        DurationUnit::Seconds
    } else if c == 'm' {
        DurationUnit::Minutes
    } else if c == 'h' {
        DurationUnit::Hours
    } else if c == 'd' {
        DurationUnit::Days
    } else if c == 'w' {
        DurationUnit::Weeks
    } else if c == 'y' {
        DurationUnit::Years
    } else {
        DurationUnit::Unknown
    }
}

/// The seconds in a unit; a year is 365 days and a quarter.
pub open spec fn unit_secs(unit: DurationUnit) -> nat {
    match unit {
        DurationUnit::Seconds => 1,
        DurationUnit::Minutes => 60,
        DurationUnit::Hours => 3600,
        DurationUnit::Days => 86400,
        DurationUnit::Weeks => 604800,
        DurationUnit::Years => 31557600,
        _ => 0,
    }
}

/// What is known of a duration from its text: what it is or what is wrong with it, or the number
/// and the unit that floating-point arithmetic has to scale.
pub enum DurationText {
    Settled(Result<u64, Seq<char>>),
    Scaled(Seq<char>, DurationUnit),
}

/// A number with a unit: settled where it is a whole number that is exact in every arithmetic.
pub open spec fn number_with_unit(number: Seq<char>, unit: DurationUnit) -> DurationText {
    if number.len() > 0 && text::all_digits(number) {
        let n = text::digits_value(number);
        match unit {
            DurationUnit::Unknown => if n <= EXACT_WHOLE_NUMBERS {
                DurationText::Settled(Err("invalid rules duration unit"@))
            } else {
                DurationText::Scaled(number, unit)
            },
            DurationUnit::Milliseconds => if n == 0 {
                DurationText::Settled(Err("invalid rules duration"@))
            } else if n <= EXACT_THOUSANDTHS {
                DurationText::Settled(Ok(((n + 999) / 1000) as u64))
            } else {
                DurationText::Scaled(number, unit)
            },
            _ => if n == 0 {
                DurationText::Settled(Err("invalid rules duration"@))
            } else if n * unit_secs(unit) <= EXACT_WHOLE_NUMBERS {
                DurationText::Settled(Ok((n * unit_secs(unit)) as u64))
            } else {
                DurationText::Scaled(number, unit)
            },
        }
    } else {
        DurationText::Scaled(number, unit)
    }
}

/// What is known of a duration from its text: seconds without a unit, or a number with one.
pub open spec fn duration_text(text: Seq<char>) -> DurationText {
    let value = text::trimmed(text);
    if value.len() == 0 {
        DurationText::Settled(Err("empty duration value"@))
    } else if text::unsigned_value(value) is Some && text::unsigned_value(value)->0 <= u64::MAX {
        if text::unsigned_value(value)->0 == 0 {
            DurationText::Settled(Err("duration must be greater than zero"@))
        } else {
            DurationText::Settled(Ok(text::unsigned_value(value)->0 as u64))
        }
    } else if value.len() > 1 && value[value.len() - 2] == 'm' && value.last() == 's' {
        number_with_unit(value.take(value.len() - 2), DurationUnit::Milliseconds)
    } else if text::utf8_len(value) > 1 {
        number_with_unit(value.drop_last(), unit_of(value.last()))
    } else {
        DurationText::Settled(Err("invalid rules duration"@))
    }
}

/// Whether a duration may come out like this, by the floating-point arithmetic that scales it.
pub open spec fn text_may_be<F: Fn(&str, DurationUnit) -> Option<u64>>(
    scale: F,
    text: Seq<char>,
    outcome: Result<u64, Seq<char>>,
) -> bool {
    match duration_text(text) {
        DurationText::Settled(settled) => outcome == settled,
        DurationText::Scaled(number, unit) => exists|given: &str, scaled: Option<u64>|
            given@ == number && #[trigger] call_ensures(scale, (given, unit), scaled) && outcome
                == scaled_outcome(unit, scaled),
    }
}

/// How a duration comes out once its number was scaled.
pub open spec fn scaled_outcome(unit: DurationUnit, scaled: Option<u64>) -> Result<u64, Seq<char>> {
    match scaled {
        None => Err("invalid rules duration"@),
        Some(secs) => if unit is Unknown {
            Err("invalid rules duration unit"@)
        } else {
            Ok(secs)
        },
    }
}

/// Whether a duration may come out like this.
pub open spec fn duration_may_be<F: Fn(&str, DurationUnit) -> Option<u64>>(
    scale: F,
    input: DurationInput,
    outcome: Result<u64, Seq<char>>,
) -> bool {
    match input {
        DurationInput::String(text) => text_may_be(scale, text@, outcome),
        DurationInput::Integer(secs) => outcome == if secs == 0 {
            Err("duration must be greater than zero"@)
        } else {
            Ok(secs)
        },
    }
}

fn unit_from(c: char) -> (unit: DurationUnit)
    ensures
        unit == unit_of(c),
{
    if c == 's' {
        DurationUnit::Seconds
    } else if c == 'm' {
        DurationUnit::Minutes
    } else if c == 'h' {
        DurationUnit::Hours
    } else if c == 'd' {
        DurationUnit::Days
    } else if c == 'w' {
        DurationUnit::Weeks
    } else if c == 'y' {
        DurationUnit::Years
    } else {
        DurationUnit::Unknown
    }
}

fn secs_in(unit: DurationUnit) -> (secs: u64)
    ensures
        secs == unit_secs(unit),
{
    match unit {
        DurationUnit::Seconds => 1,
        DurationUnit::Minutes => 60,
        DurationUnit::Hours => 3600,
        DurationUnit::Days => 86400,
        DurationUnit::Weeks => 604800,
        DurationUnit::Years => 31557600,
        _ => 0,
    }
}

/// Whether a computation came out as stated, its text by view.
pub open spec fn came_out<T>(found: Result<T, String>, stated: Result<T, Seq<char>>) -> bool {
    match stated {
        Ok(value) => found == Ok::<T, String>(value),
        Err(message) => found matches Err(text) && text@ == message,
    }
}

fn whole_number(number: &str) -> (whole: Option<u64>)
    ensures
        match whole {
            Some(n) => number@.len() > 0 && text::all_digits(number@) && n == text::digits_value(
                number@,
            ),
            None => number@.len() == 0 || !text::all_digits(number@) || text::digits_value(number@)
                > u64::MAX,
        },
{
    if number.unicode_len() == 0 || number.get_char(0) == '+' {
        proof {
            if number@.len() > 0 {
                assert(!text::is_digit(number@[0]));
            }
        }
        return None;
    }
    text::parse_u64(number)
}

fn scale_number<F: Fn(&str, DurationUnit) -> Option<u64>>(
    number: &str,
    unit: DurationUnit,
    scale: &F,
) -> (secs: Result<u64, String>)
    requires
        forall|given: &str, unit: DurationUnit| call_requires(*scale, (given, unit)),
    ensures
        match number_with_unit(number@, unit) {
            DurationText::Settled(settled) => came_out(secs, settled),
            DurationText::Scaled(text, unit) => exists|given: &str, scaled: Option<u64>|
                given@ == text && #[trigger] call_ensures(*scale, (given, unit), scaled)
                    && came_out(secs, scaled_outcome(unit, scaled)),
        },
{
    if let Some(n) = whole_number(number) {
        match unit {
            DurationUnit::Unknown => {
                if n <= EXACT_WHOLE_NUMBERS {
                    return Err(text::owned("invalid rules duration unit"));
                }
            },
            DurationUnit::Milliseconds => {
                if n == 0 {
                    return Err(text::owned("invalid rules duration"));
                }
                if n <= EXACT_THOUSANDTHS {
                    return Ok((n + 999) / 1000);
                }
            },
            _ => {
                if n == 0 {
                    return Err(text::owned("invalid rules duration"));
                }
                if let Some(product) = n.checked_mul(secs_in(unit)) {
                    if product <= EXACT_WHOLE_NUMBERS {
                        return Ok(product);
                    }
                }
            },
        }
    }
    proof {
        if number@.len() > 0 && text::all_digits(number@) && text::digits_value(number@) > u64::MAX {
            let n = text::digits_value(number@);
            assert(unit_secs(unit) > 0 ==> n * unit_secs(unit) >= n) by (nonlinear_arith)
                requires
                    n >= 0,
            ;
        }
    }
    let scaled = scale(number, unit);
    proof {
        assert(call_ensures(*scale, (number, unit), scaled));
        assert(number_with_unit(number@, unit) == DurationText::Scaled(number@, unit));
    }
    match scaled {
        None => Err(text::owned("invalid rules duration")),
        Some(secs) => match unit {
            DurationUnit::Unknown => Err(text::owned("invalid rules duration unit")),
            _ => Ok(secs),
        },
    }
}

/// Whether a found outcome is one that the duration may have.
pub open spec fn found_duration<F: Fn(&str, DurationUnit) -> Option<u64>>(
    scale: F,
    input: DurationInput,
    found: Result<u64, String>,
) -> bool {
    match found {
        Ok(secs) => duration_may_be(scale, input, Ok::<u64, Seq<char>>(secs)),
        Err(message) => duration_may_be(scale, input, Err::<u64, Seq<char>>(message@)),
    }
}

/// Reads a duration in seconds, rounded up: `scale` multiplies by the unit a number that is not a
/// plain whole one, and gives nothing where it cannot be read or the product is no positive number.
pub fn parse_duration_secs<F: Fn(&str, DurationUnit) -> Option<u64>>(value: &str, scale: &F) -> (secs:
    Result<u64, String>)
    requires
        forall|given: &str, unit: DurationUnit| call_requires(*scale, (given, unit)),
    ensures
        match secs {
            Ok(n) => text_may_be(*scale, value@, Ok::<u64, Seq<char>>(n)),
            Err(message) => text_may_be(*scale, value@, Err::<u64, Seq<char>>(message@)),
        },
{
    let value = text::trim(value);
    let len = value.unicode_len();
    if len == 0 {
        return Err(text::owned("empty duration value"));
    }
    if let Some(secs) = text::parse_u64(value) {
        if secs == 0 {
            return Err(text::owned("duration must be greater than zero"));
        }
        return Ok(secs);
    }
    if len > 1 && value.get_char(len - 2) == 'm' && value.get_char(len - 1) == 's' {
        let number = value.substring_char(0, len - 2);
        proof {
            assert(number@ =~= value@.take(len - 2));
        }
        return scale_number(number, DurationUnit::Milliseconds, scale);
    }
    if text::byte_len(value) > 1 {
        let number = value.substring_char(0, len - 1);
        proof {
            assert(number@ =~= value@.drop_last());
        }
        return scale_number(number, unit_from(value.get_char(len - 1)), scale);
    }
    Err(text::owned("invalid rules duration"))
}

impl DurationInput {
    /// The duration in seconds.
    pub fn into_secs<F: Fn(&str, DurationUnit) -> Option<u64>>(&self, scale: &F) -> (secs: Result<
        u64,
        String,
    >)
        requires
            forall|given: &str, unit: DurationUnit| call_requires(*scale, (given, unit)),
        ensures
            found_duration(*scale, *self, secs),
    {
        match self {
            DurationInput::String(value) => parse_duration_secs(value.as_str(), scale),
            DurationInput::Integer(value) => {
                if *value == 0 {
                    return Err(text::owned("duration must be greater than zero"));
                }
                Ok(*value)
            },
        }
    }
}

/// Whether an optional duration may come out as these seconds.
pub open spec fn optional_may_be<F: Fn(&str, DurationUnit) -> Option<u64>>(
    scale: F,
    input: Option<DurationInput>,
    secs: Option<u64>,
) -> bool {
    match input {
        None => secs is None,
        Some(duration) => secs matches Some(n) && duration_may_be(
            scale,
            duration,
            Ok::<u64, Seq<char>>(n),
        ),
    }
}

/// Whether an optional duration may be wrong in this way.
pub open spec fn optional_may_fail<F: Fn(&str, DurationUnit) -> Option<u64>>(
    scale: F,
    input: Option<DurationInput>,
    message: Seq<char>,
) -> bool {
    input matches Some(duration) && duration_may_be(scale, duration, Err::<u64, Seq<char>>(message))
}

/// Whether an optional duration may come out well.
pub open spec fn optional_may_pass<F: Fn(&str, DurationUnit) -> Option<u64>>(
    scale: F,
    input: Option<DurationInput>,
) -> bool {
    exists|secs: Option<u64>| #[trigger] optional_may_be(scale, input, secs)
}

fn optional_secs<F: Fn(&str, DurationUnit) -> Option<u64>>(
    input: &Option<DurationInput>,
    scale: &F,
) -> (secs: Result<Option<u64>, String>)
    requires
        forall|given: &str, unit: DurationUnit| call_requires(*scale, (given, unit)),
    ensures
        match secs {
            Ok(found) => optional_may_be(*scale, *input, found),
            Err(message) => optional_may_fail(*scale, *input, message@),
        },
{
    match input {
        None => Ok(None),
        Some(duration) => match duration.into_secs(scale) {
            Ok(secs) => Ok(Some(secs)),
            Err(message) => Err(message),
        },
    }
}

/// Seconds, or a default where there are none.
pub open spec fn or_default(secs: Option<u64>, default: u64) -> u64 {
    match secs {
        Some(n) => n,
        None => default,
    }
}

/// Whether a rule that is handed in may come out as this rule.
pub open spec fn rule_may_be<F: Fn(&str, DurationUnit) -> Option<u64>>(
    scale: F,
    input: RuleInput,
    rule: RuleSpec,
) -> bool {
    match input {
        RuleInput::Recording { record, expr, interval, labels } => {
            rule matches RuleSpec::Recording(spec) && spec.record == record && spec.expr == expr
                && spec.labels == labels && optional_may_be(scale, interval, spec.interval_secs)
        },
        RuleInput::Alert { alert, expr, interval, for_duration, labels, annotations } => {
            rule matches RuleSpec::Alert(spec) && spec.alert == alert && spec.expr == expr
                && spec.labels == labels && spec.annotations == annotations && optional_may_be(
                scale,
                interval,
                spec.interval_secs,
            ) && exists|wait: Option<u64>| #[trigger]
                optional_may_be(scale, for_duration, wait) && spec.for_secs == or_default(wait, 0)
        },
    }
}

/// Whether a rule that is handed in may come out well.
pub open spec fn rule_may_pass<F: Fn(&str, DurationUnit) -> Option<u64>>(
    scale: F,
    input: RuleInput,
) -> bool {
    exists|rule: RuleSpec| #[trigger] rule_may_be(scale, input, rule)
}

/// Whether a rule that is handed in may be wrong in this way: its first duration that is wrong is.
pub open spec fn rule_may_fail<F: Fn(&str, DurationUnit) -> Option<u64>>(
    scale: F,
    input: RuleInput,
    message: Seq<char>,
) -> bool {
    match input {
        RuleInput::Recording { interval, .. } => optional_may_fail(scale, interval, message),
        RuleInput::Alert { interval, for_duration, .. } => optional_may_fail(
            scale,
            interval,
            message,
        ) || (optional_may_pass(scale, interval) && optional_may_fail(
            scale,
            for_duration,
            message,
        )),
    }
}

/// Whether the first rule that is wrong may be the one at a place, in this way.
pub open spec fn rules_may_fail_at<F: Fn(&str, DurationUnit) -> Option<u64>>(
    scale: F,
    rules: Seq<RuleInput>,
    at: int,
    message: Seq<char>,
) -> bool {
    &&& 0 <= at < rules.len()
    &&& rule_may_fail(scale, rules[at], message)
    &&& forall|i: int| 0 <= i < at ==> rule_may_pass(scale, #[trigger] rules[i])
}

/// Whether rules may be wrong in this way: the first that is wrong is.
pub open spec fn rules_may_fail<F: Fn(&str, DurationUnit) -> Option<u64>>(
    scale: F,
    rules: Seq<RuleInput>,
    message: Seq<char>,
) -> bool {
    exists|at: int| #[trigger] rules_may_fail_at(scale, rules, at, message)
}

impl RuleInput {
    /// The rule with its durations in seconds.
    pub fn into_rule_spec<F: Fn(&str, DurationUnit) -> Option<u64>>(self, scale: &F) -> (rule: Result<
        RuleSpec,
        String,
    >)
        requires
            forall|given: &str, unit: DurationUnit| call_requires(*scale, (given, unit)),
        ensures
            match rule {
                Ok(spec) => rule_may_be(*scale, self, spec),
                Err(message) => rule_may_fail(*scale, self, message@),
            },
    {
        match self {
            RuleInput::Recording { record, expr, interval, labels } => {
                match optional_secs(&interval, scale) {
                    Err(message) => Err(message),
                    Ok(interval_secs) => Ok(
                        RuleSpec::Recording(
                            RecordingRuleSpec { record, expr, interval_secs, labels },
                        ),
                    ),
                }
            },
            RuleInput::Alert { alert, expr, interval, for_duration, labels, annotations } => {
                let interval_secs = match optional_secs(&interval, scale) {
                    Err(message) => {
                        return Err(message);
                    },
                    Ok(secs) => secs,
                };
                proof {
                    assert(optional_may_be(*scale, interval, interval_secs));
                }
                let wait = match optional_secs(&for_duration, scale) {
                    Err(message) => {
                        return Err(message);
                    },
                    Ok(secs) => secs,
                };
                let for_secs = match wait {
                    Some(secs) => secs,
                    None => 0,
                };
                proof {
                    assert(optional_may_be(*scale, for_duration, wait));
                    assert(for_secs == or_default(wait, 0));
                }
                Ok(
                    RuleSpec::Alert(
                        AlertRuleSpec { alert, expr, interval_secs, for_secs, labels, annotations },
                    ),
                )
            },
        }
    }
}

/// Whether a group that is handed in may come out as this group.
pub open spec fn group_may_be<F: Fn(&str, DurationUnit) -> Option<u64>>(
    scale: F,
    input: RuleGroupInput,
    group: RuleGroupSpec,
) -> bool {
    &&& group.name == input.name
    &&& group.tenant_id == input.tenant_id
    &&& group.labels == input.labels
    &&& exists|interval: Option<u64>| #[trigger]
        optional_may_be(scale, input.interval, interval) && group.interval_secs == or_default(
            interval,
            DEFAULT_GROUP_INTERVAL_SECS,
        )
    &&& group.rules@.len() == input.rules@.len()
    &&& forall|i: int|
        0 <= i < input.rules@.len() ==> rule_may_be(
            scale,
            #[trigger] input.rules@[i],
            group.rules@[i],
        )
}

/// Whether a group that is handed in may come out well.
pub open spec fn group_may_pass<F: Fn(&str, DurationUnit) -> Option<u64>>(
    scale: F,
    input: RuleGroupInput,
) -> bool {
    exists|group: RuleGroupSpec| #[trigger] group_may_be(scale, input, group)
}

/// Whether a group that is handed in may be wrong in this way: its interval is, or the interval is
/// not and the first rule that is wrong is.
pub open spec fn group_may_fail<F: Fn(&str, DurationUnit) -> Option<u64>>(
    scale: F,
    input: RuleGroupInput,
    message: Seq<char>,
) -> bool {
    ||| optional_may_fail(scale, input.interval, message)
    ||| optional_may_pass(scale, input.interval) && rules_may_fail(scale, input.rules@, message)
}

/// Whether the first group that is wrong may be the one at a place, in this way.
pub open spec fn groups_may_fail_at<F: Fn(&str, DurationUnit) -> Option<u64>>(
    scale: F,
    groups: Seq<RuleGroupInput>,
    at: int,
    message: Seq<char>,
) -> bool {
    &&& 0 <= at < groups.len()
    &&& group_may_fail(scale, groups[at], message)
    &&& forall|i: int| 0 <= i < at ==> group_may_pass(scale, #[trigger] groups[i])
}

/// Whether groups may be wrong in this way: the first that is wrong is.
pub open spec fn groups_may_fail<F: Fn(&str, DurationUnit) -> Option<u64>>(
    scale: F,
    groups: Seq<RuleGroupInput>,
    message: Seq<char>,
) -> bool {
    exists|at: int| #[trigger] groups_may_fail_at(scale, groups, at, message)
}

fn into_rules<F: Fn(&str, DurationUnit) -> Option<u64>>(inputs: Vec<RuleInput>, scale: &F) -> (rules:
    Result<Vec<RuleSpec>, String>)
    requires
        forall|given: &str, unit: DurationUnit| call_requires(*scale, (given, unit)),
    ensures
        match rules {
            Ok(list) => list@.len() == inputs@.len() && forall|i: int|
                0 <= i < inputs@.len() ==> rule_may_be(
                    *scale,
                    #[trigger] inputs@[i],
                    list@[i],
                ),
            Err(message) => rules_may_fail(*scale, inputs@, message@),
        },
{
    let ghost all = inputs@;
    let mut left = stable::reversed(inputs);
    let mut list: Vec<RuleSpec> = Vec::new();
    while left.len() > 0
        invariant
            forall|given: &str, unit: DurationUnit| call_requires(*scale, (given, unit)),
            list@.len() + left@.len() == all.len(),
            all == inputs@,
            forall|i: int|
                0 <= i < left@.len() ==> #[trigger] left@[i] == all[all.len() - 1 - i],
            forall|i: int|
                0 <= i < list@.len() ==> rule_may_be(*scale, #[trigger] all[i], list@[i]),
        decreases left@.len(),
    {
        match left.pop() {
            None => {},
            Some(input) => {
                proof {
                    assert(input == all[list@.len() as int]);
                }
                match input.into_rule_spec(scale) {
                    Err(message) => {
                        proof {
                            let at = list@.len() as int;
                            assert forall|i: int| 0 <= i < at implies rule_may_pass(
                                *scale,
                                #[trigger] all[i],
                            ) by {
                                assert(rule_may_be(*scale, all[i], list@[i]));
                            }
                            assert(rules_may_fail_at(*scale, all, at, message@));
                            assert(rules_may_fail(*scale, inputs@, message@));
                        }
                        return Err(message);
                    },
                    Ok(rule) => {
                        list.push(rule);
                    },
                }
            },
        }
    }
    Ok(list)
}

impl RuleGroupInput {
    /// The group with its durations in seconds.
    pub fn into_group_spec<F: Fn(&str, DurationUnit) -> Option<u64>>(self, scale: &F) -> (group:
        Result<RuleGroupSpec, String>)
        requires
            forall|given: &str, unit: DurationUnit| call_requires(*scale, (given, unit)),
        ensures
            match group {
                Ok(spec) => group_may_be(*scale, self, spec),
                Err(message) => group_may_fail(*scale, self, message@),
            },
    {
        let interval = match optional_secs(&self.interval, scale) {
            Err(message) => {
                return Err(message);
            },
            Ok(secs) => secs,
        };
        let interval_secs = match interval {
            Some(secs) => secs,
            None => DEFAULT_GROUP_INTERVAL_SECS,
        };
        proof {
            assert(optional_may_be(*scale, self.interval, interval));
            assert(interval_secs == or_default(interval, DEFAULT_GROUP_INTERVAL_SECS));
        }
        let RuleGroupInput { name, tenant_id, interval: _, labels, rules } = self;
        match into_rules(rules, scale) {
            Err(message) => Err(message),
            Ok(rules) => Ok(RuleGroupSpec { name, tenant_id, interval_secs, labels, rules }),
        }
    }
}

impl RulesApplyRequest {
    /// The groups with their durations in seconds: `scale` multiplies by its unit a number that is
    /// not a plain whole one.
    pub fn into_groups<F: Fn(&str, DurationUnit) -> Option<u64>>(self, scale: &F) -> (groups: Result<
        Vec<RuleGroupSpec>,
        String,
    >)
        requires
            forall|given: &str, unit: DurationUnit| call_requires(*scale, (given, unit)),
        ensures
            match groups {
                Ok(list) => list@.len() == self.groups@.len() && forall|i: int|
                    0 <= i < list@.len() ==> group_may_be(
                        *scale,
                        #[trigger] self.groups@[i],
                        list@[i],
                    ),
                Err(message) => groups_may_fail(*scale, self.groups@, message@),
            },
    {
        let ghost all = self.groups@;
        let mut left = stable::reversed(self.groups);
        let mut list: Vec<RuleGroupSpec> = Vec::new();
        while left.len() > 0
            invariant
                forall|given: &str, unit: DurationUnit| call_requires(*scale, (given, unit)),
                list@.len() + left@.len() == all.len(),
                all == self.groups@,
                forall|i: int|
                    0 <= i < left@.len() ==> #[trigger] left@[i] == all[all.len() - 1 - i],
                forall|i: int|
                    0 <= i < list@.len() ==> group_may_be(*scale, #[trigger] all[i], list@[i]),
            decreases left@.len(),
        {
            match left.pop() {
                None => {},
                Some(input) => {
                    proof {
                        assert(input == all[list@.len() as int]);
                    }
                    match input.into_group_spec(scale) {
                        Err(message) => {
                            proof {
                                let at = list@.len() as int;
                                assert forall|i: int| 0 <= i < at implies group_may_pass(
                                    *scale,
                                    #[trigger] all[i],
                                ) by {
                                    assert(group_may_be(*scale, all[i], list@[i]));
                                }
                                assert(groups_may_fail_at(*scale, all, at, message@));
                                assert(groups_may_fail(*scale, self.groups@, message@));
                            }
                            return Err(message);
                        },
                        Ok(group) => {
                            list.push(group);
                        },
                    }
                },
            }
        }
        Ok(list)
    }
}

} // verus!
