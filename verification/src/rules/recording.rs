//! Evaluating recording rules.

use vstd::prelude::*;

use crate::remote_read::results::DataPoint;
use crate::remote_read::results::PointValue;
use crate::rules::labels;
use crate::rules::types::PersistedRuleRuntimeState;
use crate::rules::types::RecordingRuleSpec;
use crate::rules::types::RecordingRuleView;
use crate::rules::types::RuleEvaluationOutcome;
use crate::rules::types::RuleGroupSpec;
use crate::rules::types::RuleGroupView;
use crate::rules::types::RuntimeView;
use crate::series::Label;
use crate::series::LabelView;
use crate::stable;
use crate::text;

verus! {

/// A sample of an expression: its metric, its labels, its value, and the value as a text (of a
/// histogram, its count).
#[derive(Debug, PartialEq, Eq)]
pub struct Sample {
    pub metric: String,
    pub labels: Vec<Label>,
    pub value: PointValue,
    pub shown: String,
}

/// The value of an expression.
#[derive(Debug, PartialEq, Eq)]
pub enum PromqlValue {
    Scalar { value: PointValue, shown: String },
    InstantVector(Vec<Sample>),
    RangeVector,
    Text,
}

/// A row to be written: a metric, its labels and a point.
#[derive(Debug, PartialEq, Eq)]
pub struct Row {
    pub metric: String,
    pub labels: Vec<Label>,
    pub point: DataPoint,
}

/// A row as a plain value.
#[verifier::ext_equal]
pub struct RowView {
    pub metric: Seq<char>,
    pub labels: Seq<LabelView>,
    pub timestamp: i64,
    pub value: PointValue,
}

impl View for Row {
    type V = RowView;

    open spec fn view(&self) -> RowView {
        RowView {
            metric: self.metric@,
            labels: stable::views(self.labels@),
            timestamp: self.point.timestamp,
            value: self.point.value,
        }
    }
}

/// The row of a sample, or what is wrong with its labels.
pub open spec fn sample_row(
    group: RuleGroupView,
    spec: RecordingRuleView,
    timestamp: i64,
    sample_labels: Seq<LabelView>,
    value: PointValue,
    tenant_label: Seq<char>,
) -> Result<RowView, Seq<char>> {
    let all = labels::merged(sample_labels, group.labels, spec.labels);
    match labels::merged_problem(all, tenant_label) {
        Some(problem) => Err(problem),
        None => Ok(
            RowView { metric: spec.record, labels: labels::listed_labels(all), timestamp, value },
        ),
    }
}

/// The rows of samples, or what is wrong with the first whose labels are wrong.
pub open spec fn sample_rows(
    group: RuleGroupView,
    spec: RecordingRuleView,
    timestamp: i64,
    samples: Seq<Sample>,
    tenant_label: Seq<char>,
) -> Result<Seq<RowView>, Seq<char>>
    decreases samples.len(),
{
    if samples.len() == 0 {
        Ok(Seq::empty())
    } else {
        match sample_rows(group, spec, timestamp, samples.drop_last(), tenant_label) {
            Err(problem) => Err(problem),
            Ok(rest) => match sample_row(
                group,
                spec,
                timestamp,
                stable::views(samples.last().labels@),
                samples.last().value,
                tenant_label,
            ) {
                Err(problem) => Err(problem),
                Ok(row) => Ok(rest.push(row)),
            },
        }
    }
}

/// The rows that a recording rule writes for the value of its expression, or what is wrong.
pub open spec fn value_rows(
    group: RuleGroupView,
    spec: RecordingRuleView,
    timestamp: i64,
    value: PromqlValue,
    tenant_label: Seq<char>,
) -> Result<Seq<RowView>, Seq<char>> {
    match value {
        PromqlValue::Scalar { value, .. } => match sample_row(
            group,
            spec,
            timestamp,
            Seq::empty(),
            value,
            tenant_label,
        ) {
            Err(problem) => Err(problem),
            Ok(row) => Ok(seq![row]),
        },
        PromqlValue::InstantVector(samples) => sample_rows(
            group,
            spec,
            timestamp,
            samples@,
            tenant_label,
        ),
        PromqlValue::RangeVector => Err(
            "recording rule must evaluate to a scalar or instant vector"@,
        ),
        PromqlValue::Text => Err("recording rule cannot record string results"@),
    }
}

fn recording_row_from_sample(
    group: &RuleGroupSpec,
    spec: &RecordingRuleSpec,
    timestamp: i64,
    sample_labels: &Vec<Label>,
    value: PointValue,
    tenant_label: &str,
) -> (row: Result<Row, String>)
    ensures
        match sample_row(
            group@,
            spec@,
            timestamp,
            stable::views(sample_labels@),
            value,
            tenant_label@,
        ) {
            Ok(stated) => row matches Ok(found) && found@ == stated,
            Err(problem) => row matches Err(message) && message@ == problem,
        },
{
    match labels::merged_rule_labels(sample_labels, &group.labels, &spec.labels, tenant_label) {
        Err(message) => Err(message),
        Ok(labels) => Ok(
            Row {
                metric: text::owned(spec.record.as_str()),
                labels,
                point: DataPoint { timestamp, value },
            },
        ),
    }
}

proof fn lemma_rows_stop(
    group: RuleGroupView,
    spec: RecordingRuleView,
    timestamp: i64,
    samples: Seq<Sample>,
    tenant_label: Seq<char>,
    n: int,
)
    requires
        0 <= n <= samples.len(),
        sample_rows(group, spec, timestamp, samples.subrange(0, n), tenant_label) is Err,
    ensures
        sample_rows(group, spec, timestamp, samples, tenant_label) == sample_rows(
            group,
            spec,
            timestamp,
            samples.subrange(0, n),
            tenant_label,
        ),
    decreases samples.len() - n,
{
    if n == samples.len() {
        assert(samples.subrange(0, n) =~= samples);
    } else {
        assert(samples.subrange(0, n + 1).drop_last() =~= samples.subrange(0, n));
        lemma_rows_stop(group, spec, timestamp, samples, tenant_label, n + 1);
    }
}

/// The rows that a recording rule writes for the value of its expression.
pub fn recording_rows_from_value(
    group: &RuleGroupSpec,
    spec: &RecordingRuleSpec,
    eval_timestamp: i64,
    value: PromqlValue,
    tenant_label: &str,
) -> (rows: Result<Vec<Row>, String>)
    ensures
        match value_rows(group@, spec@, eval_timestamp, value, tenant_label@) {
            Ok(stated) => rows matches Ok(found) && stable::views(found@) == stated,
            Err(problem) => rows matches Err(message) && message@ == problem,
        },
{
    match value {
        PromqlValue::Scalar { value, shown: _ } => {
            let none: Vec<Label> = Vec::new();
            proof {
                assert(stable::views(none@) =~= Seq::empty());
            }
            match recording_row_from_sample(
                group,
                spec,
                eval_timestamp,
                &none,
                value,
                tenant_label,
            ) {
                Err(message) => Err(message),
                Ok(row) => {
                    let mut rows: Vec<Row> = Vec::new();
                    let ghost stated = row@;
                    rows.push(row);
                    proof {
                        assert(stable::views(rows@) =~= seq![stated]);
                    }
                    Ok(rows)
                },
            }
        },
        PromqlValue::InstantVector(samples) => rows_from_samples(
            group,
            spec,
            eval_timestamp,
            samples,
            tenant_label,
        ),
        PromqlValue::RangeVector => Err(
            text::owned("recording rule must evaluate to a scalar or instant vector"),
        ),
        PromqlValue::Text => Err(text::owned("recording rule cannot record string results")),
    }
}

fn rows_from_samples(
    group: &RuleGroupSpec,
    spec: &RecordingRuleSpec,
    eval_timestamp: i64,
    samples: Vec<Sample>,
    tenant_label: &str,
) -> (rows: Result<Vec<Row>, String>)
    ensures
        match sample_rows(group@, spec@, eval_timestamp, samples@, tenant_label@) {
            Ok(stated) => rows matches Ok(found) && stable::views(found@) == stated,
            Err(problem) => rows matches Err(message) && message@ == problem,
        },
{
    let ghost all = samples@;
    let mut left = stable::reversed(samples);
    let mut rows: Vec<Row> = Vec::new();
    let ghost mut done: int = 0;
    proof {
        assert(all.subrange(0, 0) =~= Seq::empty());
        assert(stable::views(rows@) =~= Seq::empty());
    }
    while left.len() > 0
        invariant
            0 <= done,
            done + left@.len() == all.len(),
            all == samples@,
            forall|i: int|
                0 <= i < left@.len() ==> #[trigger] left@[i] == all[all.len() - 1 - i],
            sample_rows(group@, spec@, eval_timestamp, all.subrange(0, done), tenant_label@)
                == Ok::<Seq<RowView>, Seq<char>>(stable::views(rows@)),
        decreases left@.len(),
    {
        match left.pop() {
            None => {},
            Some(sample) => {
                proof {
                    assert(sample == all[done]);
                    assert(all.subrange(0, done + 1).drop_last() =~= all.subrange(0, done));
                    assert(all.subrange(0, done + 1).last() == sample);
                    if sample_rows(
                        group@,
                        spec@,
                        eval_timestamp,
                        all.subrange(0, done + 1),
                        tenant_label@,
                    ) is Err {
                        lemma_rows_stop(
                            group@,
                            spec@,
                            eval_timestamp,
                            all,
                            tenant_label@,
                            done + 1,
                        );
                    }
                    done = done + 1;
                }
                match recording_row_from_sample(
                    group,
                    spec,
                    eval_timestamp,
                    &sample.labels,
                    sample.value,
                    tenant_label,
                ) {
                    Err(message) => {
                        return Err(message);
                    },
                    Ok(row) => {
                        proof {
                            assert(stable::views(rows@.push(row)) =~= stable::views(rows@).push(
                                row@,
                            ));
                        }
                        rows.push(row);
                    },
                }
            },
        }
    }
    assert(all.subrange(0, done) =~= all);
    Ok(rows)
}

/// The number of rows that the value of an expression makes.
pub open spec fn result_count(value: PromqlValue) -> nat {
    match value {
        PromqlValue::Scalar { .. } => 1,
        PromqlValue::InstantVector(samples) => samples@.len(),
        _ => 0,
    }
}

/// The rows that a recording rule writes, or what is wrong; first of all there may not be too many.
pub open spec fn bounded_rows(
    max_rows: usize,
    group: RuleGroupView,
    spec: RecordingRuleView,
    timestamp: i64,
    value: PromqlValue,
    tenant_label: Seq<char>,
) -> Result<Seq<RowView>, Seq<char>> {
    if result_count(value) > max_rows {
        Err("recording rule result exceeds its finite row limit"@)
    } else {
        value_rows(group, spec, timestamp, value, tenant_label)
    }
}

/// The rows that a recording rule writes for the value of its expression, within a limit.
pub fn recording_rows(
    max_rows: usize,
    group: &RuleGroupSpec,
    spec: &RecordingRuleSpec,
    eval_timestamp: i64,
    value: PromqlValue,
    tenant_label: &str,
) -> (rows: Result<Vec<Row>, String>)
    ensures
        match bounded_rows(max_rows, group@, spec@, eval_timestamp, value, tenant_label@) {
            Ok(stated) => rows matches Ok(found) && stable::views(found@) == stated,
            Err(problem) => rows matches Err(message) && message@ == problem,
        },
{
    let count: usize = match &value {
        PromqlValue::Scalar { .. } => 1,
        PromqlValue::InstantVector(samples) => samples.len(),
        PromqlValue::RangeVector => 0,
        PromqlValue::Text => 0,
    };
    if count > max_rows {
        return Err(text::owned("recording rule result exceeds its finite row limit"));
    }
    recording_rows_from_value(group, spec, eval_timestamp, value, tenant_label)
}

/// Checks that the rows are still not too many once they were put in the scope of their tenant.
pub fn check_scoped_rows(max_rows: usize, rows: usize) -> (checked: Result<(), String>)
    ensures
        if rows > max_rows {
            checked matches Err(message) && message@
                == "recording rule result exceeds its finite row limit"@
        } else {
            checked is Ok
        },
{
    if rows > max_rows {
        return Err(text::owned("recording rule result exceeds its finite row limit"));
    }
    Ok(())
}

/// What is known of a rule that wrote a number of rows.
pub open spec fn recorded_runtime(timestamp: i64, now_unix_ms: u64, rows: u64) -> RuntimeView {
    RuntimeView {
        fingerprint: 0,
        last_eval_timestamp: Some(timestamp),
        last_eval_unix_ms: Some(now_unix_ms),
        last_success_unix_ms: Some(now_unix_ms),
        last_duration_ms: 0,
        last_error: None,
        last_sample_count: rows,
        last_recorded_rows: rows,
        last_outcome: Some(RuleEvaluationOutcome::Success),
        alert_instances: Seq::empty(),
    }
}

/// What is known of a rule that wrote a number of rows.
pub fn recorded_state(eval_timestamp: i64, now_unix_ms: u64, rows: usize) -> (state:
    PersistedRuleRuntimeState)
    ensures
        state@ == recorded_runtime(eval_timestamp, now_unix_ms, rows as u64),
{
    let state = PersistedRuleRuntimeState {
        fingerprint: 0,
        last_eval_timestamp: Some(eval_timestamp),
        last_eval_unix_ms: Some(now_unix_ms),
        last_success_unix_ms: Some(now_unix_ms),
        last_duration_ms: 0,
        last_error: None,
        last_sample_count: rows as u64,
        last_recorded_rows: rows as u64,
        last_outcome: Some(RuleEvaluationOutcome::Success),
        alert_instances: Vec::new(),
    };
    assert(state@.alert_instances =~= Seq::empty());
    state
}

/// A recording rule makes as many rows as the value of its expression has results.
pub proof fn lemma_one_row_per_result(
    group: RuleGroupView,
    spec: RecordingRuleView,
    timestamp: i64,
    value: PromqlValue,
    tenant_label: Seq<char>,
)
    ensures
        value_rows(group, spec, timestamp, value, tenant_label) matches Ok(rows) ==> rows.len()
            == result_count(value),
{
    if let PromqlValue::InstantVector(samples) = value {
        lemma_one_row_per_sample(group, spec, timestamp, samples@, tenant_label);
    }
}

/// A recording rule makes one row of each sample.
pub proof fn lemma_one_row_per_sample(
    group: RuleGroupView,
    spec: RecordingRuleView,
    timestamp: i64,
    samples: Seq<Sample>,
    tenant_label: Seq<char>,
)
    ensures
        sample_rows(group, spec, timestamp, samples, tenant_label) matches Ok(rows) ==> rows.len()
            == samples.len(),
    decreases samples.len(),
{
    if samples.len() > 0 {
        lemma_one_row_per_sample(group, spec, timestamp, samples.drop_last(), tenant_label);
    }
}

} // verus!
