//! What the durations of a rule definition come to, in seconds.

use vstd::prelude::*;

use crate::reading;
use crate::rules::input;
use crate::rules::input::DurationInput;
use crate::rules::input::DurationUnit;
use crate::rules::input::RuleGroupInput;
use crate::rules::input::RuleInput;
use crate::rules::types::RuleGroupSpec;
use crate::rules::types::RuleSpec;
use crate::text;

verus! {

/// How many seconds a letter behind a number stands for.
pub open spec fn seconds_for(letter: char) -> Option<int> {
    if letter == 's' {
        Some(1int)
    } else if letter == 'm' {
        Some(60int)
    } else if letter == 'h' {
        Some(60int * 60)
    } else if letter == 'd' {
        Some(24int * 60 * 60)
    } else if letter == 'w' {
        Some(7int * 24 * 60 * 60)
    } else if letter == 'y' {
        Some(31_557_600int)
    } else {
        None
    }
}

/// The numbers up to which a whole number of seconds is counted as it stands.
pub open spec fn counted_exactly(n: int) -> bool {
    0 <= n <= 9_007_199_254_740_992
}

proof fn lemma_trim_of_no_blank(given: Seq<char>)
    requires
        given.len() > 0 ==> !text::char_whitespace(given[0]) && !text::char_whitespace(given.last()),
    ensures
        text::trimmed(given) == given,
{
}

/// A duration of digits alone is that many seconds; zero is none.
pub proof fn lemma_plain_number_is_seconds(n: nat)
    requires
        n <= u64::MAX,
    ensures
        n == 0 ==> (input::duration_text(text::decimal(n)) matches input::DurationText::Settled(said)
            && said is Err),
        n > 0 ==> input::duration_text(text::decimal(n)) == input::DurationText::Settled(
            Ok::<u64, Seq<char>>(n as u64),
        ),
{
    let given = text::decimal(n);
    reading::lemma_decimal_says_number(n);
    reading::lemma_written_number_read_back(n);
    assert(48 <= given[0] as int <= 57);
    assert(48 <= given[given.len() - 1] as int <= 57);
    lemma_trim_of_no_blank(given);
}

proof fn lemma_with_unit(number: Seq<char>, unit: Seq<char>)
    requires
        reading::only_digits(number),
        unit.len() > 0,
        !(48 <= unit.last() as int <= 57),
        !text::char_whitespace(unit.last()),
    ensures
        text::trimmed(number + unit) == number + unit,
        text::unsigned_value(number + unit) is None,
        text::utf8_len(number + unit) > 1,
        text::all_digits(number),
        text::digits_value(number) == reading::number_said(number),
{
    let given = number + unit;
    assert(given[0] == number[0]);
    assert(given.last() == unit.last());
    lemma_trim_of_no_blank(given);
    reading::lemma_number_read(given);
    assert(reading::unsigned(given).len() > 0);
    assert(reading::unsigned(given)[reading::unsigned(given).len() - 1] == unit.last());
    text::lemma_utf8_len_joined(number, unit);
    text::lemma_utf8_len_positive(number);
    text::lemma_utf8_len_positive(unit);
    reading::lemma_number_read(number);
    assert(text::all_digits(number)) by {
        assert forall|i: int| 0 <= i < number.len() implies text::is_digit(#[trigger] number[i]) by {
            assert(48 <= number[i] as int <= 57);
        }
    }
    assert(number[0] != '+');
}

/// Digits behind which a letter stands for a unit are that many of the unit, in seconds, as far as
/// the seconds are counted exactly.
pub proof fn lemma_number_with_unit_is_seconds(number: Seq<char>, letter: char)
    requires
        reading::only_digits(number),
        seconds_for(letter) is Some,
        reading::number_said(number) > 0,
        counted_exactly(reading::number_said(number) * seconds_for(letter)->0),
    ensures
        input::duration_text(number + seq![letter]) == input::DurationText::Settled(
            Ok::<u64, Seq<char>>((reading::number_said(number) * seconds_for(letter)->0) as u64),
        ),
{
    let given = number + seq![letter];
    lemma_with_unit(number, seq![letter]);
    assert(given.drop_last() =~= number);
    assert(given.last() == letter);
    if given.len() > 1 {
        assert(given[given.len() - 2] == number[number.len() - 1]);
        assert(48 <= number[number.len() - 1] as int <= 57);
    }
}

/// Digits before `ms` are that many thousandths of a second, counted as whole seconds, a part of
/// one as one.
pub proof fn lemma_thousandths_are_rounded_up(number: Seq<char>)
    requires
        reading::only_digits(number),
        0 < reading::number_said(number) <= 1_099_511_627_776,
    ensures
        input::duration_text(number + seq!['m', 's']) matches input::DurationText::Settled(Ok(secs))
            && (secs - 1) * 1000 < reading::number_said(number) <= secs * 1000,
{
    let given = number + seq!['m', 's'];
    lemma_with_unit(number, seq!['m', 's']);
    assert(given.take(given.len() - 2) =~= number);
    assert(given[given.len() - 2] == 'm');
}

/// Blanks around a duration do not matter.
pub proof fn lemma_blanks_around_duration(given: Seq<char>, inner: Seq<char>)
    requires
        text::trimmed(given) == inner,
        text::trimmed(inner) == inner,
    ensures
        input::duration_text(given) == input::duration_text(inner),
{
}

/// A duration that is a number is that many seconds; zero is refused.
pub proof fn lemma_given_number_is_seconds<F: Fn(&str, DurationUnit) -> Option<u64>>(
    scale: F,
    secs: u64,
    outcome: Result<u64, Seq<char>>,
)
    requires
        input::duration_may_be(scale, DurationInput::Integer(secs), outcome),
    ensures
        outcome is Ok <==> secs > 0,
        outcome matches Ok(taken) ==> taken == secs,
{
}

/// Whether an optional duration is taken as one that it may come to, and as none where none is
/// given.
pub open spec fn taken_from<F: Fn(&str, DurationUnit) -> Option<u64>>(
    scale: F,
    given: Option<DurationInput>,
    secs: Option<u64>,
) -> bool {
    &&& given is None ==> secs is None
    &&& given is Some ==> secs is Some
    &&& given matches Some(duration) ==> input::duration_may_be(
        scale,
        duration,
        Ok::<u64, Seq<char>>(secs->0),
    )
}

/// A rule that is taken from its definition has the names, the expression, the labels and the
/// annotations of the definition, its interval where one is given and none else, and waits for as
/// long as the definition says, not at all where it says nothing.
pub proof fn lemma_rule_taken_as_defined<F: Fn(&str, DurationUnit) -> Option<u64>>(
    scale: F,
    given: RuleInput,
    rule: RuleSpec,
)
    requires
        input::rule_may_be(scale, given, rule),
    ensures
        match given {
            RuleInput::Recording { record, expr, interval, labels } => {
                rule matches RuleSpec::Recording(spec) && spec.record@ == record@ && spec.expr@
                    == expr@ && spec.labels@ == labels@ && taken_from(
                    scale,
                    interval,
                    spec.interval_secs,
                )
            },
            RuleInput::Alert { alert, expr, interval, for_duration, labels, annotations } => {
                rule matches RuleSpec::Alert(spec) && spec.alert@ == alert@ && spec.expr@ == expr@
                    && spec.labels@ == labels@ && spec.annotations@ == annotations@ && taken_from(
                    scale,
                    interval,
                    spec.interval_secs,
                ) && (for_duration is None ==> spec.for_secs == 0) && (for_duration is Some
                    ==> taken_from(scale, for_duration, Some(spec.for_secs)))
            },
        },
{
}

/// A group that is taken from its definition has the name, the tenant and the labels of the
/// definition, its interval where one is given and else one minute, and the rules of the definition
/// in their order.
pub proof fn lemma_group_taken_as_defined<F: Fn(&str, DurationUnit) -> Option<u64>>(
    scale: F,
    given: RuleGroupInput,
    group: RuleGroupSpec,
)
    requires
        input::group_may_be(scale, given, group),
    ensures
        group.name@ == given.name@,
        group.tenant_id == given.tenant_id,
        group.labels@ == given.labels@,
        given.interval is None ==> group.interval_secs == 60,
        given.interval is Some ==> taken_from(scale, given.interval, Some(group.interval_secs)),
        group.rules@.len() == given.rules@.len(),
        forall|i: int|
            0 <= i < given.rules@.len() ==> input::rule_may_be(
                scale,
                #[trigger] given.rules@[i],
                group.rules@[i],
            ),
{
}

} // verus!
