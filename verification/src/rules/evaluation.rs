//! What an evaluation makes of the samples of an expression.

use vstd::prelude::*;

use crate::ordered;
use crate::remote_read::results::PointValue;
use crate::rules::accounting::RulesStoreAccounting;
use crate::rules::alert;
use crate::rules::labels;
use crate::rules::limits::RulesRuntimeConfig;
use crate::rules::recording;
use crate::rules::recording::PromqlValue;
use crate::rules::recording::Row;
use crate::rules::recording::RowView;
use crate::rules::recording::Sample;
use crate::rules::time;
use crate::rules::time::TimestampPrecision;
use crate::rules::types::AlertInstanceState;
use crate::rules::types::AlertInstanceStatus;
use crate::rules::types::AlertInstanceView;
use crate::rules::types::AlertRuleSpec;
use crate::rules::types::PersistedRuleRuntimeState;
use crate::rules::types::RecordingRuleSpec;
use crate::rules::types::RuleEvaluationOutcome;
use crate::rules::types::RuleGroupSpec;
use crate::rules::types::TextsView;
use crate::series::Label;
use crate::series::LabelView;
use crate::stable;
use crate::stable::Ranked;
use crate::text;

verus! {

/// Whether a sample has a label of a name.
pub open spec fn names_label(sample: Seq<LabelView>, name: Seq<char>) -> bool {
    exists|i: int| 0 <= i < sample.len() && (#[trigger] sample[i]).name == name
}

/// Whether the last label of a name that a sample has is of a value.
pub open spec fn last_label_is(
    sample: Seq<LabelView>,
    name: Seq<char>,
    value: Seq<char>,
) -> bool {
    exists|i: int|
        0 <= i < sample.len() && (#[trigger] sample[i]).name == name && sample[i].value == value
            && forall|j: int| i < j < sample.len() ==> (#[trigger] sample[j]).name != name
}

/// Whether a label of a name has a value once those of a sample, of its group and of its rule are
/// put together: the rule's where it has one, else the group's, else the sample's.
#[verifier::opaque]
pub open spec fn label_wins(
    name: Seq<char>,
    value: Seq<char>,
    sample: Seq<LabelView>,
    group: TextsView,
    rule: TextsView,
) -> bool {
    if rule.contains_key(name) {
        value == rule[name]
    } else if group.contains_key(name) {
        value == group[name]
    } else {
        last_label_is(sample, name, value)
    }
}

/// Whether some of a list of labels is of a name.
#[verifier::opaque]
pub open spec fn labelled(labels: Seq<LabelView>, name: Seq<char>) -> bool {
    exists|i: int| 0 <= i < labels.len() && (#[trigger] labels[i]).name == name
}

/// Whether labels are those of a sample, of its group and of its rule put together: each name that
/// one of them has once, in order, with the value that wins.
pub open spec fn put_together(
    labels: Seq<LabelView>,
    sample: Seq<LabelView>,
    group: TextsView,
    rule: TextsView,
) -> bool {
    &&& forall|i: int|
        0 <= i < labels.len() ==> label_wins(
            (#[trigger] labels[i]).name,
            labels[i].value,
            sample,
            group,
            rule,
        )
    &&& forall|name: Seq<char>| #[trigger]
        labelled(labels, name) <==> rule.contains_key(name) || group.contains_key(name)
            || names_label(sample, name)
    &&& forall|i: int, j: int|
        0 <= i < j < labels.len() ==> text::text_less(
            (#[trigger] labels[i]).name,
            (#[trigger] labels[j]).name,
        )
}

proof fn lemma_by_name(sample: Seq<LabelView>)
    ensures
        ordered::listable::<String, Seq<char>>(labels::labels_by_name(sample)),
        forall|name: Seq<char>| #[trigger]
            labels::labels_by_name(sample).contains_key(name) <==> names_label(sample, name),
        forall|name: Seq<char>| #[trigger]
            labels::labels_by_name(sample).contains_key(name) ==> last_label_is(
                sample,
                name,
                labels::labels_by_name(sample)[name],
            ),
    decreases sample.len(),
{
    if sample.len() == 0 {
        let none = Seq::<(Seq<char>, Seq<char>)>::empty();
        assert(ordered::sorted_keys::<String, Seq<char>>(none));
        assert(ordered::keyed_map::<String, Seq<char>>(none) =~= Map::empty());
    } else {
        let rest = sample.drop_last();
        let n = sample.len() - 1;
        let all = labels::labels_by_name(sample);
        lemma_by_name(rest);
        ordered::lemma_listing_insert::<String, Seq<char>>(
            labels::labels_by_name(rest),
            sample.last().name,
            sample.last().value,
        );
        assert(sample.last() == sample[n]);
        assert forall|name: Seq<char>| #[trigger] all.contains_key(name) <==> names_label(
            sample,
            name,
        ) by {
            if names_label(sample, name) {
                let i = choose|i: int| 0 <= i < sample.len() && (#[trigger] sample[i]).name == name;
                if i < n {
                    assert(rest[i].name == name);
                    assert(labels::labels_by_name(rest).contains_key(name));
                }
            }
            if all.contains_key(name) && name != sample.last().name {
                assert(labels::labels_by_name(rest).contains_key(name));
                let i = choose|i: int| 0 <= i < rest.len() && (#[trigger] rest[i]).name == name;
                assert(sample[i].name == name);
            }
        }
        assert forall|name: Seq<char>| #[trigger] all.contains_key(name) implies last_label_is(
            sample,
            name,
            all[name],
        ) by {
            if name != sample.last().name {
                assert(labels::labels_by_name(rest).contains_key(name));
                let i = choose|i: int|
                    0 <= i < rest.len() && (#[trigger] rest[i]).name == name && rest[i].value
                        == all[name] && forall|j: int|
                        i < j < rest.len() ==> (#[trigger] rest[j]).name != name;
                assert(sample[i].name == name && sample[i].value == all[name]);
                assert forall|j: int| i < j < sample.len() implies (#[trigger] sample[j]).name
                    != name by {
                    if j < n {
                        assert(rest[j] == sample[j]);
                    }
                }
            }
        }
    }
}

proof fn lemma_last_label_once(
    sample: Seq<LabelView>,
    name: Seq<char>,
    a: Seq<char>,
    b: Seq<char>,
)
    requires
        last_label_is(sample, name, a),
        last_label_is(sample, name, b),
    ensures
        a == b,
{
}

/// Two maps that can be listed can be listed once one is laid over the other.
proof fn lemma_over_listable(
    base: TextsView,
    entries: Seq<(Seq<char>, Seq<char>)>,
)
    requires
        ordered::listable::<String, Seq<char>>(base),
        ordered::sorted_keys::<String, Seq<char>>(entries),
    ensures
        ordered::listable::<String, Seq<char>>(
            base.union_prefer_right(ordered::keyed_map::<String, Seq<char>>(entries)),
        ),
    decreases entries.len(),
{
    let over = ordered::keyed_map::<String, Seq<char>>(entries);
    if entries.len() == 0 {
        assert(base.union_prefer_right(over) =~= base);
    } else {
        let rest = entries.drop_last();
        let (key, value) = entries.last();
        assert(entries =~= rest.push((key, value)));
        ordered::lemma_keyed_map_push::<String, Seq<char>>(rest, key, value);
        lemma_over_listable(base, rest);
        let before = base.union_prefer_right(ordered::keyed_map::<String, Seq<char>>(rest));
        ordered::lemma_listing_insert::<String, Seq<char>>(before, key, value);
        assert(base.union_prefer_right(over) =~= before.insert(key, value));
    }
}

proof fn lemma_merged_wins(sample: Seq<LabelView>, group: TextsView, rule: TextsView)
    requires
        ordered::listable::<String, Seq<char>>(group),
        ordered::listable::<String, Seq<char>>(rule),
    ensures
        ordered::listable::<String, Seq<char>>(labels::merged(sample, group, rule)),
        forall|name: Seq<char>| #[trigger]
            labels::merged(sample, group, rule).contains_key(name) <==> rule.contains_key(name)
                || group.contains_key(name) || names_label(sample, name),
        forall|name: Seq<char>| #[trigger]
            labels::merged(sample, group, rule).contains_key(name) ==> label_wins(
                name,
                labels::merged(sample, group, rule)[name],
                sample,
                group,
                rule,
            ),
{
    reveal(label_wins);
    lemma_by_name(sample);
    ordered::lemma_listable::<String, Seq<char>>(group);
    ordered::lemma_listable::<String, Seq<char>>(rule);
    let named = labels::labels_by_name(sample);
    lemma_over_listable(named, ordered::listing::<String, Seq<char>>(group));
    lemma_over_listable(
        named.union_prefer_right(group),
        ordered::listing::<String, Seq<char>>(rule),
    );
    let all = labels::merged(sample, group, rule);
    assert forall|name: Seq<char>| #[trigger] all.contains_key(name) implies label_wins(
        name,
        all[name],
        sample,
        group,
        rule,
    ) by {
        if !rule.contains_key(name) && !group.contains_key(name) {
            assert(named.contains_key(name));
        }
    }
}

proof fn lemma_listed_together(sample: Seq<LabelView>, group: TextsView, rule: TextsView)
    requires
        ordered::listable::<String, Seq<char>>(group),
        ordered::listable::<String, Seq<char>>(rule),
    ensures
        put_together(
            labels::listed_labels(labels::merged(sample, group, rule)),
            sample,
            group,
            rule,
        ),
{
    let all = labels::merged(sample, group, rule);
    lemma_merged_wins(sample, group, rule);
    let pairs = ordered::listing::<String, Seq<char>>(all);
    let listed = labels::listed_labels(all);
    ordered::lemma_listable::<String, Seq<char>>(all);
    assert forall|i: int| 0 <= i < listed.len() implies label_wins(
        (#[trigger] listed[i]).name,
        listed[i].value,
        sample,
        group,
        rule,
    ) by {
        ordered::lemma_keyed_map_at::<String, Seq<char>>(pairs, i);
        assert(all.contains_key(listed[i].name));
    }
    assert forall|name: Seq<char>| #[trigger] labelled(listed, name) <==> rule.contains_key(name)
        || group.contains_key(name) || names_label(sample, name) by {
        reveal(labelled);
        if labelled(listed, name) {
            let i = choose|i: int| 0 <= i < listed.len() && (#[trigger] listed[i]).name == name;
            ordered::lemma_keyed_map_at::<String, Seq<char>>(pairs, i);
            assert(all.contains_key(name));
        }
        if all.contains_key(name) {
            let i = choose|i: int| ordered::key_stands::<String, Seq<char>>(pairs, name, i);
            assert(listed[i].name == name);
        }
    }
    assert forall|i: int, j: int| 0 <= i < j < listed.len() implies text::text_less(
        (#[trigger] listed[i]).name,
        (#[trigger] listed[j]).name,
    ) by {
        assert(pairs[i].0 == listed[i].name && pairs[j].0 == listed[j].name);
    }
}

/// Whether a label may stand on what a rule puts out: its name is not blank, is not that of the
/// tenant's label or of the metric and is not too long, and its value is not blank or too long.
pub open spec fn may_stand(
    name: Seq<char>,
    value: Seq<char>,
    tenant_label: Seq<char>,
) -> bool {
    &&& text::trimmed(name).len() > 0
    &&& name != tenant_label
    &&& name != "__name__"@
    &&& text::utf8_len(name) <= 256
    &&& text::trimmed(value).len() > 0
    &&& text::utf8_len(value) <= 16384
}

proof fn lemma_output_stands(pairs: Seq<(Seq<char>, Seq<char>)>, tenant_label: Seq<char>)
    ensures
        labels::output_problem(pairs, tenant_label) is None <==> forall|i: int|
            0 <= i < pairs.len() ==> may_stand((#[trigger] pairs[i]).0, pairs[i].1, tenant_label),
    decreases pairs.len(),
{
    if pairs.len() > 0 {
        let rest = pairs.drop_last();
        let n = pairs.len() - 1;
        lemma_output_stands(rest, tenant_label);
        assert(pairs.last() == pairs[n]);
        assert(forall|i: int| 0 <= i < n ==> #[trigger] rest[i] == pairs[i]);
        if labels::output_problem(pairs, tenant_label) is None {
            assert forall|i: int| 0 <= i < pairs.len() implies may_stand(
                (#[trigger] pairs[i]).0,
                pairs[i].1,
                tenant_label,
            ) by {
                if i < n {
                    assert(rest[i] == pairs[i]);
                }
            }
        } else if forall|i: int|
            0 <= i < pairs.len() ==> may_stand((#[trigger] pairs[i]).0, pairs[i].1, tenant_label) {
            assert forall|i: int| 0 <= i < rest.len() implies may_stand(
                (#[trigger] rest[i]).0,
                rest[i].1,
                tenant_label,
            ) by {
                assert(rest[i] == pairs[i]);
            }
            assert(may_stand(pairs[n].0, pairs[n].1, tenant_label));
        }
    }
}

/// The labels of what a rule puts out for a sample are taken exactly where each label that wins may
/// stand.
pub proof fn lemma_labels_taken(
    sample: Seq<LabelView>,
    group: TextsView,
    rule: TextsView,
    tenant_label: Seq<char>,
)
    requires
        ordered::listable::<String, Seq<char>>(group),
        ordered::listable::<String, Seq<char>>(rule),
    ensures
        labels::merged_problem(labels::merged(sample, group, rule), tenant_label) is None
            <==> forall|name: Seq<char>, value: Seq<char>| #[trigger]
            label_wins(name, value, sample, group, rule) ==> may_stand(name, value, tenant_label),
{
    let all = labels::merged(sample, group, rule);
    let pairs = ordered::listing::<String, Seq<char>>(all);
    lemma_merged_wins(sample, group, rule);
    ordered::lemma_listable::<String, Seq<char>>(all);
    lemma_output_stands(pairs, tenant_label);
    if labels::merged_problem(all, tenant_label) is None {
        assert forall|name: Seq<char>, value: Seq<char>| #[trigger]
            label_wins(name, value, sample, group, rule) implies may_stand(
            name,
            value,
            tenant_label,
        ) by {
            reveal(label_wins);
            assert(all.contains_key(name));
            if !rule.contains_key(name) && !group.contains_key(name) {
                lemma_last_label_once(sample, name, value, all[name]);
            }
            assert(value == all[name]);
            let i = choose|i: int| ordered::key_stands::<String, Seq<char>>(pairs, name, i);
            ordered::lemma_keyed_map_at::<String, Seq<char>>(pairs, i);
            assert(pairs[i] == (name, value));
            assert(may_stand(pairs[i].0, pairs[i].1, tenant_label));
        }
    } else if forall|name: Seq<char>, value: Seq<char>| #[trigger]
        label_wins(name, value, sample, group, rule) ==> may_stand(name, value, tenant_label) {
        assert forall|i: int| 0 <= i < pairs.len() implies may_stand(
            (#[trigger] pairs[i]).0,
            pairs[i].1,
            tenant_label,
        ) by {
            ordered::lemma_keyed_map_at::<String, Seq<char>>(pairs, i);
            assert(all.contains_key(pairs[i].0));
            assert(label_wins(pairs[i].0, pairs[i].1, sample, group, rule));
        }
    }
}

/// Whether a row records a value under the labels of its sample, of the group and of the rule.
pub open spec fn records(
    row: Row,
    group: RuleGroupSpec,
    spec: RecordingRuleSpec,
    timestamp: i64,
    sample_labels: Seq<LabelView>,
    value: PointValue,
) -> bool {
    &&& row.metric@ == spec.record@
    &&& row.point.timestamp == timestamp
    &&& row.point.value == value
    &&& put_together(stable::views(row.labels@), sample_labels, group.labels@, spec.labels@)
}

proof fn lemma_rows_of_samples(
    group: RuleGroupSpec,
    spec: RecordingRuleSpec,
    timestamp: i64,
    samples: Seq<Sample>,
    tenant_label: Seq<char>,
    i: int,
)
    requires
        0 <= i < samples.len(),
        recording::sample_rows(group@, spec@, timestamp, samples, tenant_label) is Ok,
    ensures
        ({
            let rows = recording::sample_rows(
                group@,
                spec@,
                timestamp,
                samples,
                tenant_label,
            )->Ok_0;
            &&& rows.len() == samples.len()
            &&& rows[i].metric == spec.record@
            &&& rows[i].timestamp == timestamp
            &&& rows[i].value == samples[i].value
            &&& rows[i].labels == labels::listed_labels(
                labels::merged(
                    stable::views(samples[i].labels@),
                    group.labels@,
                    spec.labels@,
                ),
            )
        }),
    decreases samples.len(),
{
    recording::lemma_one_row_per_sample(group@, spec@, timestamp, samples, tenant_label);
    recording::lemma_one_row_per_sample(
        group@,
        spec@,
        timestamp,
        samples.drop_last(),
        tenant_label,
    );
    if i < samples.len() - 1 {
        lemma_rows_of_samples(group, spec, timestamp, samples.drop_last(), tenant_label, i);
    }
}

/// A recording rule records every sample of its vector as one row, in order: under the recorded
/// metric, at the time of the evaluation, with the sample's own value, and with the sample's own
/// labels put together with those of the group and of the rule. A scalar is one row without labels
/// of a sample. Nothing else is recorded, and never more rows than may be.
pub proof fn lemma_rows_record_their_samples(
    max_rows: usize,
    group: RuleGroupSpec,
    spec: RecordingRuleSpec,
    timestamp: i64,
    value: PromqlValue,
    tenant_label: Seq<char>,
    rows: Vec<Row>,
)
    requires
        ordered::listable::<String, Seq<char>>(group.labels@),
        ordered::listable::<String, Seq<char>>(spec.labels@),
        recording::bounded_rows(max_rows, group@, spec@, timestamp, value, tenant_label) == Ok::<
            Seq<RowView>,
            Seq<char>,
        >(stable::views(rows@)),
    ensures
        rows@.len() <= max_rows,
        match value {
            PromqlValue::InstantVector(samples) => {
                &&& rows@.len() == samples@.len()
                &&& forall|i: int|
                    0 <= i < samples@.len() ==> records(
                        #[trigger] rows@[i],
                        group,
                        spec,
                        timestamp,
                        stable::views(samples@[i].labels@),
                        samples@[i].value,
                    )
            },
            PromqlValue::Scalar { value: number, .. } => {
                &&& rows@.len() == 1
                &&& records(rows@[0], group, spec, timestamp, Seq::empty(), number)
            },
            PromqlValue::RangeVector => false,
            PromqlValue::Text => false,
        },
{
    let stated = stable::views(rows@);
    match value {
        PromqlValue::InstantVector(samples) => {
            recording::lemma_one_row_per_sample(
                group@,
                spec@,
                timestamp,
                samples@,
                tenant_label,
            );
            assert forall|i: int| 0 <= i < samples@.len() implies records(
                #[trigger] rows@[i],
                group,
                spec,
                timestamp,
                stable::views(samples@[i].labels@),
                samples@[i].value,
            ) by {
                lemma_rows_of_samples(group, spec, timestamp, samples@, tenant_label, i);
                lemma_listed_together(
                    stable::views(samples@[i].labels@),
                    group.labels@,
                    spec.labels@,
                );
                assert(stated[i] == rows@[i]@);
            }
        },
        PromqlValue::Scalar { value: number, .. } => {
            lemma_listed_together(Seq::empty(), group.labels@, spec.labels@);
            assert(stated.len() == 1);
            assert(stated[0] == rows@[0]@);
        },
        _ => {},
    }
}

/// A recording rule records a vector exactly where it has no more samples than there may be rows and
/// every label that wins on one of them may stand.
pub proof fn lemma_vector_recorded(
    max_rows: usize,
    group: RuleGroupSpec,
    spec: RecordingRuleSpec,
    timestamp: i64,
    samples: Vec<Sample>,
    tenant_label: Seq<char>,
)
    requires
        ordered::listable::<String, Seq<char>>(group.labels@),
        ordered::listable::<String, Seq<char>>(spec.labels@),
    ensures
        recording::bounded_rows(
            max_rows,
            group@,
            spec@,
            timestamp,
            PromqlValue::InstantVector(samples),
            tenant_label,
        ) is Ok <==> samples@.len() <= max_rows && forall|i: int|
            0 <= i < samples@.len() ==> labels_stand(
                #[trigger] samples@[i],
                group.labels@,
                spec.labels@,
                tenant_label,
            ),
{
    lemma_samples_recorded(group, spec, timestamp, samples@, tenant_label);
}

/// Whether every label that wins on what is put out for a sample may stand.
pub open spec fn labels_stand(
    sample: Sample,
    group: TextsView,
    rule: TextsView,
    tenant_label: Seq<char>,
) -> bool {
    forall|name: Seq<char>, value: Seq<char>| #[trigger]
        label_wins(name, value, stable::views(sample.labels@), group, rule) ==> may_stand(
            name,
            value,
            tenant_label,
        )
}

proof fn lemma_samples_recorded(
    group: RuleGroupSpec,
    spec: RecordingRuleSpec,
    timestamp: i64,
    samples: Seq<Sample>,
    tenant_label: Seq<char>,
)
    requires
        ordered::listable::<String, Seq<char>>(group.labels@),
        ordered::listable::<String, Seq<char>>(spec.labels@),
    ensures
        recording::sample_rows(group@, spec@, timestamp, samples, tenant_label) is Ok <==> forall|
            i: int,
        |
            0 <= i < samples.len() ==> labels_stand(
                #[trigger] samples[i],
                group.labels@,
                spec.labels@,
                tenant_label,
            ),
    decreases samples.len(),
{
    if samples.len() > 0 {
        let rest = samples.drop_last();
        let n = samples.len() - 1;
        lemma_samples_recorded(group, spec, timestamp, rest, tenant_label);
        lemma_labels_taken(
            stable::views(samples.last().labels@),
            group.labels@,
            spec.labels@,
            tenant_label,
        );
        assert(samples.last() == samples[n]);
        assert(forall|i: int| 0 <= i < n ==> #[trigger] rest[i] == samples[i]);
        if recording::sample_rows(group@, spec@, timestamp, samples, tenant_label) is Ok {
            assert forall|i: int| 0 <= i < samples.len() implies labels_stand(
                #[trigger] samples[i],
                group.labels@,
                spec.labels@,
                tenant_label,
            ) by {
                if i < n {
                    assert(rest[i] == samples[i]);
                }
            }
        } else if forall|i: int|
            0 <= i < samples.len() ==> labels_stand(
                #[trigger] samples[i],
                group.labels@,
                spec.labels@,
                tenant_label,
            ) {
            assert forall|i: int| 0 <= i < rest.len() implies labels_stand(
                #[trigger] rest[i],
                group.labels@,
                spec.labels@,
                tenant_label,
            ) by {
                assert(rest[i] == samples[i]);
            }
            assert(labels_stand(samples[n], group.labels@, spec.labels@, tenant_label));
        }
    }
}

/// The timestamps of a second.
pub open spec fn ticks_per_second(precision: TimestampPrecision) -> int {
    match precision {
        TimestampPrecision::Seconds => 1,
        TimestampPrecision::Milliseconds => 1_000,
        TimestampPrecision::Microseconds => 1_000_000,
        TimestampPrecision::Nanoseconds => 1_000_000_000,
    }
}

/// The timestamps of a number of seconds, where they can be told as one, and otherwise a single one.
pub open spec fn ticks_in(secs: u64, precision: TimestampPrecision) -> int {
    if 0 < secs * ticks_per_second(precision) <= i64::MAX {
        secs * ticks_per_second(precision)
    } else {
        1
    }
}

/// A number of seconds is as many timestamps as the precision says.
pub proof fn lemma_seconds_in_timestamps(secs: u64, precision: TimestampPrecision)
    ensures
        time::units_in(secs, precision) == ticks_in(secs, precision),
        time::units_in(secs, precision) >= 1,
{
}

/// Whether an alert goes on from one as it was, or is new: it is active since it was first seen, and
/// fires, since it first did, exactly where it has been active for as long as it has to wait.
pub open spec fn goes_on_from(
    alert: AlertInstanceView,
    was: Option<AlertInstanceView>,
    timestamp: i64,
    wait: int,
) -> bool {
    match was {
        None => {
            &&& alert.active_since_timestamp == timestamp
            &&& alert.state == AlertInstanceStatus::Pending
            &&& alert.firing_since_timestamp is None
        },
        Some(before) => {
            &&& alert.active_since_timestamp == before.active_since_timestamp
            &&& alert.state == AlertInstanceStatus::Firing <==> timestamp
                - before.active_since_timestamp >= wait
            &&& alert.state == AlertInstanceStatus::Pending ==> alert.firing_since_timestamp is None
            &&& alert.state == AlertInstanceStatus::Firing ==> alert.firing_since_timestamp
                == match before.firing_since_timestamp {
                Some(since) => Some(since),
                None => Some(timestamp),
            }
        },
    }
}

/// An alert that is raised again fires exactly where the time since it was first seen is no less
/// than what it has to wait, and a new one waits: by the difference of the two times.
pub proof fn lemma_alert_fires_when_it_waited(
    previous: Option<AlertInstanceView>,
    key: Seq<char>,
    metric: Seq<char>,
    labels: Seq<LabelView>,
    kind: Seq<char>,
    shown: Seq<char>,
    timestamp: i64,
    secs: u64,
    precision: TimestampPrecision,
)
    ensures
        goes_on_from(
            alert::raised(
                previous,
                key,
                metric,
                labels,
                kind,
                shown,
                timestamp,
                time::units_in(secs, precision),
            ),
            previous,
            timestamp,
            ticks_in(secs, precision),
        ),
{
    lemma_seconds_in_timestamps(secs, precision);
}

/// Whether a series has one key.
pub open spec fn one_key<K: Fn(&str, &Vec<Label>) -> String>(key_of: K) -> bool {
    forall|metric: Seq<char>, labels: Seq<LabelView>, a: Seq<char>, b: Seq<char>|
        #[trigger] alert::may_be_key(key_of, metric, labels, a) && #[trigger] alert::may_be_key(
            key_of,
            metric,
            labels,
            b,
        ) ==> a == b
}

/// Whether an alert is the one that a sample raises: of the sample's metric, value and labels, put
/// together with those of the group and of the rule and with the name of the alert, seen now, and
/// going on from an alert of the same series that there was, or new where there was none.
#[verifier::opaque]
pub open spec fn raised_by<K: Fn(&str, &Vec<Label>) -> String>(
    key_of: K,
    alert: AlertInstanceView,
    group: RuleGroupSpec,
    spec: AlertRuleSpec,
    sample: Sample,
    previous: Seq<AlertInstanceView>,
    timestamp: i64,
    wait: int,
) -> bool {
    &&& alert.source_metric == sample.metric@
    &&& alert.last_seen_timestamp == timestamp
    &&& alert.sample_value == Some(sample.shown@)
    &&& alert.sample_type == if sample.value is Histogram {
        "histogram"@
    } else {
        "scalar"@
    }
    &&& put_together(
        alert.labels,
        stable::views(sample.labels@),
        group.labels@,
        spec.labels@.insert("alertname"@, spec.alert@),
    )
    &&& alert::may_be_key(key_of, alert.source_metric, alert.labels, alert.key)
    &&& if exists|p: int| 0 <= p < previous.len() && of_series(key_of, #[trigger] previous[p], alert.key)
    {
        exists|p: int|
            0 <= p < previous.len() && of_series(key_of, #[trigger] previous[p], alert.key)
                && goes_on_from(alert, Some(previous[p]), timestamp, wait)
    } else {
        goes_on_from(alert, None, timestamp, wait)
    }
}

/// Whether an alert that there was is of the series of a key.
pub open spec fn of_series<K: Fn(&str, &Vec<Label>) -> String>(
    key_of: K,
    was: AlertInstanceView,
    key: Seq<char>,
) -> bool {
    alert::may_be_key(key_of, was.source_metric, was.labels, key)
}

proof fn lemma_with_key(instances: Seq<AlertInstanceView>, key: Seq<char>)
    ensures
        match alert::with_key(instances, key) {
            Some(found) => exists|p: int|
                0 <= p < instances.len() && #[trigger] instances[p] == found && found.key == key,
            None => forall|p: int| 0 <= p < instances.len() ==> (#[trigger] instances[p]).key != key,
        },
    decreases instances.len(),
{
    if instances.len() > 0 {
        let rest = instances.drop_last();
        let n = instances.len() - 1;
        lemma_with_key(rest, key);
        assert(instances.last() == instances[n]);
        assert(forall|p: int| 0 <= p < n ==> #[trigger] rest[p] == instances[p]);
        match alert::with_key(instances, key) {
            Some(found) => {
                if alert::with_key(rest, key) is Some {
                    let p = choose|p: int|
                        0 <= p < rest.len() && #[trigger] rest[p] == found && found.key == key;
                    assert(instances[p] == found);
                } else {
                    assert(instances[n] == found);
                }
            },
            None => {
                assert forall|p: int| 0 <= p < instances.len() implies (
                #[trigger] instances[p]).key != key by {
                    if p < n {
                        assert(rest[p] == instances[p]);
                    }
                }
            },
        }
    }
}

proof fn lemma_raised_by_sample<K: Fn(&str, &Vec<Label>) -> String>(
    key_of: K,
    group: RuleGroupSpec,
    spec: AlertRuleSpec,
    sample: Sample,
    previous: Seq<AlertInstanceView>,
    before: Seq<AlertInstanceView>,
    timestamp: i64,
    precision: TimestampPrecision,
    made: AlertInstanceView,
)
    requires
        one_key(key_of),
        ordered::listable::<String, Seq<char>>(group.labels@),
        ordered::listable::<String, Seq<char>>(spec.labels@),
        alert::rekeyed(key_of, previous, before),
        alert::may_raise(
            key_of,
            group@,
            spec@,
            sample,
            before,
            timestamp,
            time::units_in(spec.for_secs, precision),
            made,
        ),
    ensures
        raised_by(
            key_of,
            made,
            group,
            spec,
            sample,
            previous,
            timestamp,
            ticks_in(spec.for_secs, precision),
        ),
{
    reveal(raised_by);
    let wait = ticks_in(spec.for_secs, precision);
    let own = stable::views(sample.labels@);
    let rule = spec.labels@.insert("alertname"@, spec.alert@);
    lemma_seconds_in_timestamps(spec.for_secs, precision);
    ordered::lemma_listing_insert::<String, Seq<char>>(
        spec.labels@,
        "alertname"@,
        spec.alert@,
    );
    assert(labels::merged(own, group.labels@, rule) =~= labels::merged(
        own,
        group.labels@,
        spec.labels@,
    ).insert("alertname"@, spec.alert@));
    lemma_listed_together(own, group.labels@, rule);
    let was = alert::with_key(before, made.key);
    lemma_with_key(before, made.key);
    match was {
        Some(found) => {
            let p = choose|p: int|
                0 <= p < before.len() && #[trigger] before[p] == found && found.key == made.key;
            assert(before[p] == (AlertInstanceView { key: before[p].key, ..previous[p] }));
            assert(of_series(key_of, previous[p], made.key));
            assert(goes_on_from(made, Some(previous[p]), timestamp, wait));
        },
        None => {
            if exists|p: int|
                0 <= p < previous.len() && of_series(key_of, #[trigger] previous[p], made.key) {
                let p = choose|p: int|
                    0 <= p < previous.len() && of_series(
                        key_of,
                        #[trigger] previous[p],
                        made.key,
                    );
                assert(alert::may_be_key(
                    key_of,
                    previous[p].source_metric,
                    previous[p].labels,
                    before[p].key,
                ));
                assert(before[p].key == made.key);
            }
        },
    }
}

/// Whether some of a list of alerts is the one that a sample raises.
#[verifier::opaque]
pub open spec fn raises_one<K: Fn(&str, &Vec<Label>) -> String>(
    key_of: K,
    alerts: Seq<AlertInstanceView>,
    group: RuleGroupSpec,
    spec: AlertRuleSpec,
    sample: Sample,
    previous: Seq<AlertInstanceView>,
    timestamp: i64,
    wait: int,
) -> bool {
    exists|k: int|
        0 <= k < alerts.len() && raised_by(
            key_of,
            #[trigger] alerts[k],
            group,
            spec,
            sample,
            previous,
            timestamp,
            wait,
        )
}

/// Whether an alert is one that some sample raises.
#[verifier::opaque]
pub open spec fn has_sample<K: Fn(&str, &Vec<Label>) -> String>(
    key_of: K,
    alert: AlertInstanceView,
    group: RuleGroupSpec,
    spec: AlertRuleSpec,
    samples: Seq<Sample>,
    previous: Seq<AlertInstanceView>,
    timestamp: i64,
    wait: int,
) -> bool {
    exists|i: int|
        0 <= i < samples.len() && raised_by(
            key_of,
            alert,
            group,
            spec,
            #[trigger] samples[i],
            previous,
            timestamp,
            wait,
        )
}

/// Sorting keeps the items of a list and adds none.
pub proof fn lemma_sorting_keeps_items<T: Ranked>(items: Seq<T::V>, item: T::V)
    ensures
        stable::stable_sorted::<T>(items).len() == items.len(),
        stable::stable_sorted::<T>(items).contains(item) <==> items.contains(item),
{
    broadcast use vstd::seq_lib::group_to_multiset_ensures;

    let sorted = stable::stable_sorted::<T>(items);
    stable::lemma_stable_sorted::<T>(items);
    assert(sorted.to_multiset().count(item) == items.to_multiset().count(item));
}

proof fn lemma_each_is_raised<K: Fn(&str, &Vec<Label>) -> String>(
    key_of: K,
    precision: TimestampPrecision,
    group: RuleGroupSpec,
    spec: AlertRuleSpec,
    samples: Seq<Sample>,
    known: Seq<AlertInstanceView>,
    rekeyed: Seq<AlertInstanceView>,
    timestamp: i64,
    each: Seq<AlertInstanceView>,
    alerts: Seq<AlertInstanceView>,
)
    requires
        one_key(key_of),
        ordered::listable::<String, Seq<char>>(group.labels@),
        ordered::listable::<String, Seq<char>>(spec.labels@),
        alert::rekeyed(key_of, known, rekeyed),
        alert::may_raise_each(
            key_of,
            group@,
            spec@,
            samples,
            rekeyed,
            timestamp,
            time::units_in(spec.for_secs, precision),
            each,
        ),
        alerts == stable::stable_sorted::<AlertInstanceState>(each),
    ensures
        alerts.len() == samples.len(),
        forall|i: int|
            0 <= i < samples.len() ==> raises_one(
                key_of,
                alerts,
                group,
                spec,
                #[trigger] samples[i],
                known,
                timestamp,
                ticks_in(spec.for_secs, precision),
            ),
        forall|k: int|
            0 <= k < alerts.len() ==> has_sample(
                key_of,
                #[trigger] alerts[k],
                group,
                spec,
                samples,
                known,
                timestamp,
                ticks_in(spec.for_secs, precision),
            ),
{
    let wait = ticks_in(spec.for_secs, precision);
    stable::lemma_stable_sorted::<AlertInstanceState>(each);
    assert forall|i: int| 0 <= i < samples.len() implies raises_one(
        key_of,
        alerts,
        group,
        spec,
        #[trigger] samples[i],
        known,
        timestamp,
        wait,
    ) by {
        reveal(raises_one);
        lemma_raised_by_sample(
            key_of,
            group,
            spec,
            samples[i],
            known,
            rekeyed,
            timestamp,
            precision,
            each[i],
        );
        assert(each.contains(each[i]));
        lemma_sorting_keeps_items::<AlertInstanceState>(each, each[i]);
        let k = choose|k: int| 0 <= k < alerts.len() && alerts[k] == each[i];
        assert(raised_by(key_of, alerts[k], group, spec, samples[i], known, timestamp, wait));
    }
    assert forall|k: int| 0 <= k < alerts.len() implies has_sample(
        key_of,
        #[trigger] alerts[k],
        group,
        spec,
        samples,
        known,
        timestamp,
        wait,
    ) by {
        reveal(has_sample);
        assert(alerts.contains(alerts[k]));
        lemma_sorting_keeps_items::<AlertInstanceState>(each, alerts[k]);
        let i = choose|i: int| 0 <= i < each.len() && each[i] == alerts[k];
        lemma_raised_by_sample(
            key_of,
            group,
            spec,
            samples[i],
            known,
            rekeyed,
            timestamp,
            precision,
            each[i],
        );
        assert(raised_by(key_of, alerts[k], group, spec, samples[i], known, timestamp, wait));
    }
}

/// An evaluation of an alert rule raises one alert for each sample and keeps no other: an alert whose
/// sample is gone is cleared. Each is of its own sample's metric, labels and value, is active since
/// its series was first seen, waits for as long as the rule says, and then fires. The alerts stand in
/// the order of their keys, and the evaluation is noted as a success of that time.
pub proof fn lemma_alerts_are_those_of_the_samples<K: Fn(&str, &Vec<Label>) -> String>(
    key_of: K,
    config: RulesRuntimeConfig,
    precision: TimestampPrecision,
    group: RuleGroupSpec,
    spec: AlertRuleSpec,
    samples: Seq<Sample>,
    previous: PersistedRuleRuntimeState,
    timestamp: i64,
    now_unix_ms: u64,
    tenant_label: Seq<char>,
    before: RulesStoreAccounting,
    state: PersistedRuleRuntimeState,
    after: RulesStoreAccounting,
)
    requires
        one_key(key_of),
        ordered::listable::<String, Seq<char>>(group.labels@),
        ordered::listable::<String, Seq<char>>(spec.labels@),
        samples.len() <= u64::MAX,
        alert::may_come_out(
            key_of,
            config,
            group@,
            spec@,
            samples,
            previous@,
            timestamp,
            time::units_in(spec.for_secs, precision),
            now_unix_ms,
            tenant_label,
            before,
            Ok(state),
            after,
        ),
    ensures
        ({
            let alerts = stable::views(state.alert_instances@);
            let known = stable::views(previous.alert_instances@);
            let wait = ticks_in(spec.for_secs, precision);
            &&& alerts.len() == samples.len()
            &&& samples.len() <= config.max_alert_instances_per_rule
            &&& forall|i: int|
                0 <= i < samples.len() ==> raises_one(
                    key_of,
                    alerts,
                    group,
                    spec,
                    #[trigger] samples[i],
                    known,
                    timestamp,
                    wait,
                )
            &&& forall|k: int|
                0 <= k < alerts.len() ==> has_sample(
                    key_of,
                    #[trigger] alerts[k],
                    group,
                    spec,
                    samples,
                    known,
                    timestamp,
                    wait,
                )
            &&& forall|i: int, j: int|
                0 <= i < j < alerts.len() ==> !text::text_less(
                    (#[trigger] alerts[j]).key,
                    (#[trigger] alerts[i]).key,
                )
            &&& state.last_eval_timestamp == Some(timestamp)
            &&& state.last_eval_unix_ms == Some(now_unix_ms)
            &&& state.last_success_unix_ms == Some(now_unix_ms)
            &&& state.last_error is None
            &&& state.last_sample_count == samples.len()
            &&& state.last_recorded_rows == 0
            &&& state.last_outcome == Some(RuleEvaluationOutcome::Success)
        }),
{
    let alerts = stable::views(state.alert_instances@);
    let known = stable::views(previous.alert_instances@);
    let units = time::units_in(spec.for_secs, precision);
    assert(state@.alert_instances == alerts);
    assert(previous@.alert_instances == known);
    assert(alert::may_evaluate(
        key_of,
        group@,
        spec@,
        samples,
        known,
        timestamp,
        units,
        now_unix_ms,
        state@,
    ));
    let (rekeyed, each): (Seq<AlertInstanceView>, Seq<AlertInstanceView>) = choose|
        rekeyed: Seq<AlertInstanceView>,
        each: Seq<AlertInstanceView>,
    | #[trigger]
        alert::rekeyed(key_of, known, rekeyed) && #[trigger] alert::may_raise_each(
            key_of,
            group@,
            spec@,
            samples,
            rekeyed,
            timestamp,
            units,
            each,
        ) && alerts == stable::stable_sorted::<AlertInstanceState>(each);
    lemma_each_is_raised(
        key_of,
        precision,
        group,
        spec,
        samples,
        known,
        rekeyed,
        timestamp,
        each,
        alerts,
    );
    stable::lemma_stable_sorted::<AlertInstanceState>(each);
    assert forall|i: int, j: int| 0 <= i < j < alerts.len() implies !text::text_less(
        (#[trigger] alerts[j]).key,
        (#[trigger] alerts[i]).key,
    ) by {
        assert(!AlertInstanceState::before(alerts[j], alerts[i]));
    }
}

} // verus!
