//! Evaluating alert rules.

use vstd::prelude::*;

use crate::names;
use crate::ordered;
use crate::ordered::KeyMap;
use crate::remote_read::results::PointValue;
use crate::rules::accounting::Held;
use crate::rules::accounting::RulesLimitSurface;
use crate::rules::accounting::RulesStoreAccounting;
use crate::rules::labels;
use crate::rules::limits::RulesRuntimeConfig;
use crate::rules::limits::RulesStoreLimits;
use crate::rules::model;
use crate::rules::recording::PromqlValue;
use crate::rules::recording::Sample;
use crate::rules::time;
use crate::rules::time::TimestampPrecision;
use crate::rules::types::AlertInstanceState;
use crate::rules::types::AlertInstanceStatus;
use crate::rules::types::AlertInstanceView;
use crate::rules::types::AlertRuleSpec;
use crate::rules::types::AlertRuleView;
use crate::rules::types::PersistedRuleRuntimeState;
use crate::rules::types::RuleEvaluationOutcome;
use crate::rules::types::RuleGroupSpec;
use crate::rules::types::RuleGroupView;
use crate::rules::types::RuntimeView;
use crate::rules::types::Texts;
use crate::rules::validate;
use crate::series::Label;
use crate::series::LabelView;
use crate::sizes;
use crate::stable;
use crate::stable::Ranked;
use crate::text;

verus! {

/// The samples that an alert rule looks at, or what is wrong with the value of its expression.
pub fn alert_samples_from_value(value: PromqlValue) -> (samples: Result<Vec<Sample>, String>)
    ensures
        match value {
            PromqlValue::Scalar { value: number, shown } => samples matches Ok(list) && list@.len()
                == 1 && list@[0].metric@ == Seq::<char>::empty() && list@[0].labels@.len() == 0
                && list@[0].value == number && list@[0].shown == shown,
            PromqlValue::InstantVector(list) => samples == Ok::<Vec<Sample>, String>(list),
            PromqlValue::RangeVector => samples matches Err(message) && message@
                == "alert rule must evaluate to a scalar or instant vector"@,
            PromqlValue::Text => samples matches Err(message) && message@
                == "alert rule cannot evaluate to a string"@,
        },
{
    match value {
        PromqlValue::Scalar { value, shown } => {
            let mut samples: Vec<Sample> = Vec::new();
            let metric = text::owned("");
            proof {
                reveal_strlit("");
                assert(""@ =~= Seq::<char>::empty());
            }
            samples.push(Sample { metric, labels: Vec::new(), value, shown });
            Ok(samples)
        },
        PromqlValue::InstantVector(samples) => Ok(samples),
        PromqlValue::RangeVector => Err(
            text::owned("alert rule must evaluate to a scalar or instant vector"),
        ),
        PromqlValue::Text => Err(text::owned("alert rule cannot evaluate to a string")),
    }
}

/// The labels of an alert: those of its sample, group and rule merged, and the name of the alert.
pub open spec fn alert_labels(
    group: RuleGroupView,
    spec: AlertRuleView,
    sample_labels: Seq<LabelView>,
) -> Seq<LabelView> {
    labels::listed_labels(
        labels::merged(sample_labels, group.labels, spec.labels).insert("alertname"@, spec.alert),
    )
}

/// What is said of the kind of a sample.
pub open spec fn sample_kind(value: PointValue) -> Seq<char> {
    match value {
        PointValue::Histogram(_) => "histogram"@,
        _ => "scalar"@,
    }
}

/// The labels of an alert, the kind of its sample and its value as a text.
pub fn alert_instance_fields(
    group: &RuleGroupSpec,
    spec: &AlertRuleSpec,
    sample: &Sample,
    tenant_label: &str,
) -> (fields: Result<(Vec<Label>, String, Option<String>), String>)
    ensures
        match labels::merged_problem(
            labels::merged(stable::views(sample.labels@), group@.labels, spec@.labels),
            tenant_label@,
        ) {
            Some(problem) => fields matches Err(message) && message@ == problem,
            None => fields matches Ok((labels, kind, shown)) && stable::views(labels@)
                == alert_labels(group@, spec@, stable::views(sample.labels@)) && kind@
                == sample_kind(sample.value) && text::opt_text(shown) == Some(sample.shown@),
        },
{
    let mut texts = match labels::merged_texts(
        &sample.labels,
        &group.labels,
        &spec.labels,
        tenant_label,
    ) {
        Err(message) => {
            return Err(message);
        },
        Ok(texts) => texts,
    };
    texts.insert(text::owned("alertname"), text::owned(spec.alert.as_str()));
    let kind = match &sample.value {
        PointValue::Histogram(_) => text::owned("histogram"),
        _ => text::owned("scalar"),
    };
    Ok((labels::labels_from(&texts), kind, Some(text::owned(sample.shown.as_str()))))
}

impl Ranked for AlertInstanceState {
    open spec fn before(a: AlertInstanceView, b: AlertInstanceView) -> bool {
        text::text_less(a.key, b.key)
    }

    proof fn lemma_before_one_way(a: AlertInstanceView, b: AlertInstanceView) {
        if text::text_less(b.key, a.key) {
            names::lemma_text_transitive(a.key, b.key, a.key);
            names::lemma_text_irreflexive(a.key);
        }
    }

    proof fn lemma_before_ranks(a: AlertInstanceView, b: AlertInstanceView, c: AlertInstanceView) {
        if text::text_less(c.key, a.key) && a.key != b.key {
            names::lemma_text_total(a.key, b.key);
            names::lemma_text_transitive(c.key, a.key, b.key);
        }
    }

    fn goes_before(&self, other: &AlertInstanceState) -> (before: bool) {
        names::comes_before(self.key.as_str(), other.key.as_str())
    }
}

/// The first alert of a list with a key.
pub open spec fn with_key(instances: Seq<AlertInstanceView>, key: Seq<char>) -> Option<
    AlertInstanceView,
>
    decreases instances.len(),
{
    if instances.len() == 0 {
        None
    } else if with_key(instances.drop_last(), key) is Some {
        with_key(instances.drop_last(), key)
    } else if instances.last().key == key {
        Some(instances.last())
    } else {
        None
    }
}

/// A difference that stops at the least and the largest timestamp.
pub open spec fn timestamps_apart(later: i64, earlier: i64) -> i64 {
    if later - earlier > i64::MAX {
        i64::MAX
    } else if later - earlier < i64::MIN {
        i64::MIN
    } else {
        (later - earlier) as i64
    }
}

fn apart(later: i64, earlier: i64) -> (difference: i64)
    ensures
        difference == timestamps_apart(later, earlier),
{
    let wide: i128 = later as i128 - earlier as i128;
    if wide > i64::MAX as i128 {
        i64::MAX
    } else if wide < i64::MIN as i128 {
        i64::MIN
    } else {
        wide as i64
    }
}

/// Since when an alert is active: since it was first seen, or since now.
pub open spec fn active_since(previous: Option<AlertInstanceView>, timestamp: i64) -> i64 {
    match previous {
        Some(instance) => instance.active_since_timestamp,
        None => timestamp,
    }
}

/// Whether an alert has been active for long enough to fire.
pub open spec fn fires(previous: Option<AlertInstanceView>, timestamp: i64, wait: i64) -> bool {
    timestamps_apart(timestamp, active_since(previous, timestamp)) >= wait
}

/// An alert that a sample raises now, given the alert with the same key before.
pub open spec fn raised(
    previous: Option<AlertInstanceView>,
    key: Seq<char>,
    metric: Seq<char>,
    labels: Seq<LabelView>,
    kind: Seq<char>,
    shown: Seq<char>,
    timestamp: i64,
    wait: i64,
) -> AlertInstanceView {
    let firing = fires(previous, timestamp, wait);
    AlertInstanceView {
        key,
        source_metric: metric,
        labels,
        active_since_timestamp: active_since(previous, timestamp),
        last_seen_timestamp: timestamp,
        firing_since_timestamp: if !firing {
            None
        } else {
            match previous {
                Some(instance) => match instance.firing_since_timestamp {
                    Some(since) => Some(since),
                    None => Some(timestamp),
                },
                None => Some(timestamp),
            }
        },
        state: if firing {
            AlertInstanceStatus::Firing
        } else {
            AlertInstanceStatus::Pending
        },
        sample_type: kind,
        sample_value: Some(shown),
    }
}

/// Whether this may be the key of a series.
pub open spec fn may_be_key<K: Fn(&str, &Vec<Label>) -> String>(
    key_of: K,
    metric: Seq<char>,
    labels: Seq<LabelView>,
    key: Seq<char>,
) -> bool {
    exists|name: &str, list: &Vec<Label>, found: String|
        name@ == metric && stable::views(list@) == labels && found@ == key
            && #[trigger] call_ensures(key_of, (name, list), found)
}

/// Whether a list of alerts is another with each key found anew.
pub open spec fn rekeyed<K: Fn(&str, &Vec<Label>) -> String>(
    key_of: K,
    before: Seq<AlertInstanceView>,
    after: Seq<AlertInstanceView>,
) -> bool {
    after.len() == before.len() && forall|i: int|
        0 <= i < before.len() ==> {
            &&& may_be_key(
                key_of,
                before[i].source_metric,
                before[i].labels,
                (#[trigger] after[i]).key,
            )
            &&& after[i] == (AlertInstanceView { key: after[i].key, ..before[i] })
        }
}

/// Whether a sample may raise this alert now, given all alerts before.
pub open spec fn may_raise<K: Fn(&str, &Vec<Label>) -> String>(
    key_of: K,
    group: RuleGroupView,
    spec: AlertRuleView,
    sample: Sample,
    previous: Seq<AlertInstanceView>,
    timestamp: i64,
    wait: i64,
    instance: AlertInstanceView,
) -> bool {
    let labels = alert_labels(group, spec, stable::views(sample.labels@));
    &&& may_be_key(key_of, sample.metric@, labels, instance.key)
    &&& instance == raised(
        with_key(previous, instance.key),
        instance.key,
        sample.metric@,
        labels,
        sample_kind(sample.value),
        sample.shown@,
        timestamp,
        wait,
    )
}

/// What is wrong with the labels of the first sample whose labels are wrong.
pub open spec fn samples_problem(
    group: RuleGroupView,
    spec: AlertRuleView,
    samples: Seq<Sample>,
    tenant_label: Seq<char>,
) -> Option<Seq<char>>
    decreases samples.len(),
{
    if samples.len() == 0 {
        None
    } else if samples_problem(group, spec, samples.drop_last(), tenant_label) is Some {
        samples_problem(group, spec, samples.drop_last(), tenant_label)
    } else {
        labels::merged_problem(
            labels::merged(stable::views(samples.last().labels@), group.labels, spec.labels),
            tenant_label,
        )
    }
}

proof fn lemma_samples_stop(
    group: RuleGroupView,
    spec: AlertRuleView,
    samples: Seq<Sample>,
    tenant_label: Seq<char>,
    n: int,
)
    requires
        0 <= n <= samples.len(),
        samples_problem(group, spec, samples.subrange(0, n), tenant_label) is Some,
    ensures
        samples_problem(group, spec, samples, tenant_label) == samples_problem(
            group,
            spec,
            samples.subrange(0, n),
            tenant_label,
        ),
    decreases samples.len() - n,
{
    if n == samples.len() {
        assert(samples.subrange(0, n) =~= samples);
    } else {
        assert(samples.subrange(0, n + 1).drop_last() =~= samples.subrange(0, n));
        lemma_samples_stop(group, spec, samples, tenant_label, n + 1);
    }
}

/// Whether a map tells where the first alert with a key stands.
spec fn placed_right(
    instances: Seq<AlertInstanceView>,
    at: Map<Seq<char>, usize>,
    key: Seq<char>,
) -> bool {
    match with_key(instances, key) {
        None => !at.contains_key(key),
        Some(instance) => at.contains_key(key) && at[key] < instances.len()
            && instances[at[key] as int] == instance,
    }
}

/// Whether a map tells where the first alert with each key stands.
spec fn places(instances: Seq<AlertInstanceView>, at: Map<Seq<char>, usize>) -> bool {
    forall|key: Seq<char>| #[trigger] placed_right(instances, at, key)
}

fn rekey<K: Fn(&str, &Vec<Label>) -> String>(
    instances: Vec<AlertInstanceState>,
    key_of: &K,
) -> (found: Vec<AlertInstanceState>)
    requires
        forall|metric: &str, labels: &Vec<Label>| call_requires(*key_of, (metric, labels)),
    ensures
        rekeyed(*key_of, stable::views(instances@), stable::views(found@)),
{
    let ghost all = instances@;
    let mut left = stable::reversed(instances);
    let mut found: Vec<AlertInstanceState> = Vec::new();
    while left.len() > 0
        invariant
            forall|metric: &str, labels: &Vec<Label>| call_requires(*key_of, (metric, labels)),
            found@.len() + left@.len() == all.len(),
            forall|i: int|
                0 <= i < left@.len() ==> #[trigger] left@[i] == all[all.len() - 1 - i],
            forall|i: int|
                0 <= i < found@.len() ==> {
                    &&& may_be_key(
                        *key_of,
                        all[i]@.source_metric,
                        all[i]@.labels,
                        (#[trigger] found@[i])@.key,
                    )
                    &&& found@[i]@ == (AlertInstanceView { key: found@[i]@.key, ..all[i]@ })
                },
        decreases left@.len(),
    {
        match left.pop() {
            None => {},
            Some(instance) => {
                proof {
                    assert(instance == all[found@.len() as int]);
                }
                let key = key_of(instance.source_metric.as_str(), &instance.labels);
                proof {
                    assert(may_be_key(
                        *key_of,
                        instance@.source_metric,
                        instance@.labels,
                        key@,
                    ));
                }
                let mut renamed = instance;
                renamed.key = key;
                found.push(renamed);
            },
        }
    }
    found
}

fn index_by_key(instances: &Vec<AlertInstanceState>) -> (at: KeyMap<String, usize>)
    ensures
        places(stable::views(instances@), at@),
{
    let ghost all = stable::views(instances@);
    let mut at: KeyMap<String, usize> = KeyMap::new();
    let mut i: usize = 0;
    proof {
        assert(all.subrange(0, 0) =~= Seq::empty());
        assert forall|k: Seq<char>| #[trigger] placed_right(all.subrange(0, 0), at@, k) by {}
    }
    while i < instances.len()
        invariant
            i <= instances@.len(),
            all == stable::views(instances@),
            places(all.subrange(0, i as int), at@),
        decreases instances@.len() - i,
    {
        let ghost shorter = all.subrange(0, i as int);
        let ghost longer = all.subrange(0, i as int + 1);
        let ghost then = at@;
        proof {
            assert(longer.drop_last() =~= shorter);
            assert(longer.last() == instances@[i as int]@);
        }
        let key = &instances[i].key;
        let known = at.get(key).is_some();
        if !known {
            at.insert(text::owned(key.as_str()), i);
        }
        proof {
            assert(placed_right(shorter, then, instances@[i as int].key@));
            assert forall|k: Seq<char>| #[trigger] placed_right(longer, at@, k) by {
                assert(placed_right(shorter, then, k));
            }
        }
        i = i + 1;
    }
    assert(all.subrange(0, i as int) =~= all);
    at
}

fn raise<K: Fn(&str, &Vec<Label>) -> String>(
    group: &RuleGroupSpec,
    spec: &AlertRuleSpec,
    sample: Sample,
    previous: &Vec<AlertInstanceState>,
    at: &KeyMap<String, usize>,
    timestamp: i64,
    wait: i64,
    tenant_label: &str,
    key_of: &K,
) -> (made: Result<AlertInstanceState, String>)
    requires
        forall|metric: &str, labels: &Vec<Label>| call_requires(*key_of, (metric, labels)),
        places(stable::views(previous@), at@),
    ensures
        match labels::merged_problem(
            labels::merged(stable::views(sample.labels@), group@.labels, spec@.labels),
            tenant_label@,
        ) {
            Some(problem) => made matches Err(message) && message@ == problem,
            None => made matches Ok(instance) && may_raise(
                *key_of,
                group@,
                spec@,
                sample,
                stable::views(previous@),
                timestamp,
                wait,
                instance@,
            ),
        },
{
    let (labels, sample_type, sample_value) = match alert_instance_fields(
        group,
        spec,
        &sample,
        tenant_label,
    ) {
        Err(message) => {
            return Err(message);
        },
        Ok(fields) => fields,
    };
    let key = key_of(sample.metric.as_str(), &labels);
    proof {
        assert(may_be_key(*key_of, sample.metric@, stable::views(labels@), key@));
        assert(placed_right(stable::views(previous@), at@, key@));
    }
    let (since, fired): (Option<i64>, Option<i64>) = match at.get(&key) {
        Some(place) => {
            let instance = &previous[*place];
            (Some(instance.active_since_timestamp), instance.firing_since_timestamp)
        },
        None => (None, None),
    };
    let active_since_timestamp: i64 = match since {
        Some(time) => time,
        None => timestamp,
    };
    let firing = apart(timestamp, active_since_timestamp) >= wait;
    let firing_since_timestamp: Option<i64> = if !firing {
        None
    } else {
        match fired {
            Some(time) => Some(time),
            None => Some(timestamp),
        }
    };
    Ok(
        AlertInstanceState {
            key,
            source_metric: sample.metric,
            labels,
            active_since_timestamp,
            last_seen_timestamp: timestamp,
            firing_since_timestamp,
            state: if firing {
                AlertInstanceStatus::Firing
            } else {
                AlertInstanceStatus::Pending
            },
            sample_type,
            sample_value,
        },
    )
}

/// Whether samples may raise these alerts, one for one, given all alerts before.
pub open spec fn may_raise_each<K: Fn(&str, &Vec<Label>) -> String>(
    key_of: K,
    group: RuleGroupView,
    spec: AlertRuleView,
    samples: Seq<Sample>,
    previous: Seq<AlertInstanceView>,
    timestamp: i64,
    wait: i64,
    instances: Seq<AlertInstanceView>,
) -> bool {
    instances.len() == samples.len() && forall|i: int|
        0 <= i < samples.len() ==> may_raise(
            key_of,
            group,
            spec,
            samples[i],
            previous,
            timestamp,
            wait,
            #[trigger] instances[i],
        )
}

/// Raises an alert for each sample; an alert that is raised again keeps since when it is active and
/// since when it fires. The alerts come out in the order of their keys.
pub fn raise_alerts<K: Fn(&str, &Vec<Label>) -> String>(
    group: &RuleGroupSpec,
    spec: &AlertRuleSpec,
    samples: Vec<Sample>,
    previous: &Vec<AlertInstanceState>,
    timestamp: i64,
    wait: i64,
    tenant_label: &str,
    key_of: &K,
) -> (raised: Result<Vec<AlertInstanceState>, String>)
    requires
        forall|metric: &str, labels: &Vec<Label>| call_requires(*key_of, (metric, labels)),
    ensures
        match samples_problem(group@, spec@, samples@, tenant_label@) {
            Some(problem) => raised matches Err(message) && message@ == problem,
            None => raised matches Ok(instances) && exists|each: Seq<AlertInstanceView>| #[trigger]
                may_raise_each(
                    *key_of,
                    group@,
                    spec@,
                    samples@,
                    stable::views(previous@),
                    timestamp,
                    wait,
                    each,
                ) && stable::views(instances@) == stable::stable_sorted::<AlertInstanceState>(each),
        },
{
    let ghost all = samples@;
    let ghost before = stable::views(previous@);
    let at = index_by_key(previous);
    let mut left = stable::reversed(samples);
    let mut instances: Vec<AlertInstanceState> = Vec::with_capacity(left.len());
    proof {
        assert(all.subrange(0, 0) =~= Seq::empty());
    }
    while left.len() > 0
        invariant
            forall|metric: &str, labels: &Vec<Label>| call_requires(*key_of, (metric, labels)),
            instances@.len() + left@.len() == all.len(),
            all == samples@,
            before == stable::views(previous@),
            places(stable::views(previous@), at@),
            forall|i: int|
                0 <= i < left@.len() ==> #[trigger] left@[i] == all[all.len() - 1 - i],
            samples_problem(
                group@,
                spec@,
                all.subrange(0, instances@.len() as int),
                tenant_label@,
            ) is None,
            forall|i: int|
                0 <= i < instances@.len() ==> may_raise(
                    *key_of,
                    group@,
                    spec@,
                    all[i],
                    before,
                    timestamp,
                    wait,
                    (#[trigger] instances@[i])@,
                ),
        decreases left@.len(),
    {
        match left.pop() {
            None => {},
            Some(sample) => {
                let ghost done = instances@.len() as int;
                proof {
                    assert(sample == all[done]);
                    assert(all.subrange(0, done + 1).drop_last() =~= all.subrange(0, done));
                    assert(all.subrange(0, done + 1).last() == sample);
                    if samples_problem(
                        group@,
                        spec@,
                        all.subrange(0, done + 1),
                        tenant_label@,
                    ) is Some {
                        lemma_samples_stop(group@, spec@, all, tenant_label@, done + 1);
                    }
                }
                match raise(
                    group,
                    spec,
                    sample,
                    previous,
                    &at,
                    timestamp,
                    wait,
                    tenant_label,
                    key_of,
                ) {
                    Err(message) => {
                        return Err(message);
                    },
                    Ok(instance) => {
                        instances.push(instance);
                    },
                }
            },
        }
    }
    proof {
        assert(all.subrange(0, instances@.len() as int) =~= all);
        assert(may_raise_each(
            *key_of,
            group@,
            spec@,
            samples@,
            before,
            timestamp,
            wait,
            stable::views(instances@),
        ));
    }
    Ok(stable::stable_sort(instances))
}

/// The bytes that finding the key of an alert anew may take.
pub open spec fn rekey_scratch(instance: AlertInstanceView) -> nat {
    let upper = sizes::sat_size(
        text::utf8_len(instance.source_metric) as int + sizes::sat_size(
            validate::labels_bytes(instance.labels) as int,
        ) * 2 + instance.labels.len() * 32,
    ) as nat;
    let key = text::utf8_len(instance.key);
    model::allocation(
        if upper >= key {
            upper
        } else {
            key
        },
    )
}

fn labels_byte_len(labels: &Vec<Label>) -> (bytes: usize)
    ensures
        bytes == sizes::sat_size(validate::labels_bytes(stable::views(labels@)) as int),
{
    let ghost all = stable::views(labels@);
    let mut bytes: usize = 0;
    let mut i: usize = 0;
    assert(all.subrange(0, 0) =~= Seq::empty());
    while i < labels.len()
        invariant
            i <= labels@.len(),
            all == stable::views(labels@),
            bytes == sizes::sat_size(
                validate::labels_bytes(all.subrange(0, i as int)) as int,
            ),
        decreases labels@.len() - i,
    {
        proof {
            assert(all.subrange(0, i as int + 1).drop_last() =~= all.subrange(0, i as int));
        }
        bytes =
        bytes.saturating_add(text::byte_len(labels[i].name.as_str())).saturating_add(
            text::byte_len(labels[i].value.as_str()),
        );
        i = i + 1;
    }
    assert(all.subrange(0, i as int) =~= all);
    bytes
}

/// The bytes that finding the key of an alert anew may take.
pub fn modeled_alert_key_recompute_scratch_bytes(instance: &AlertInstanceState) -> (bytes: usize)
    ensures
        bytes == sizes::sat_size(rekey_scratch(instance@) as int),
{
    let label_bytes = labels_byte_len(&instance.labels);
    let upper = text::byte_len(instance.source_metric.as_str()).saturating_add(
        sizes::times_size(label_bytes, 2),
    ).saturating_add(sizes::times_size(instance.labels.len(), 32));
    model::modeled_allocation_bytes(
        sizes::max_size(upper, text::byte_len(instance.key.as_str())),
    )
}

/// The bytes of copies of the texts of pairs.
pub open spec fn pair_texts_cost(pairs: Seq<(Seq<char>, Seq<char>)>) -> nat
    decreases pairs.len(),
{
    if pairs.len() == 0 {
        0
    } else {
        pair_texts_cost(pairs.drop_last()) + model::text_cost(pairs.last().0) + model::text_cost(
            pairs.last().1,
        )
    }
}

fn pairs_sizes(texts: &Texts) -> (found: (usize, usize))
    ensures
        found.0 == sizes::sat_size(
            validate::pairs_bytes(ordered::listing::<String, Seq<char>>(texts@)) as int,
        ),
        found.1 == sizes::sat_size(
            pair_texts_cost(ordered::listing::<String, Seq<char>>(texts@)) as int,
        ),
{
    let count = texts.len();
    let ghost pairs = texts.entries();
    proof {
        ordered::lemma_listing::<String, Seq<char>>(pairs);
        assert(pairs.subrange(0, 0) =~= Seq::empty());
    }
    let mut bytes: usize = 0;
    let mut cost: usize = 0;
    let mut i: usize = 0;
    while i < count
        invariant
            i <= count,
            count == pairs.len(),
            pairs == texts.entries(),
            bytes == sizes::sat_size(validate::pairs_bytes(pairs.subrange(0, i as int)) as int),
            cost == sizes::sat_size(pair_texts_cost(pairs.subrange(0, i as int)) as int),
        decreases count - i,
    {
        proof {
            assert(pairs.subrange(0, i as int + 1).drop_last() =~= pairs.subrange(0, i as int));
        }
        let name = texts.key_at(i).as_str();
        let value = texts.value_at(i).as_str();
        bytes = bytes.saturating_add(text::byte_len(name)).saturating_add(text::byte_len(value));
        cost =
        cost.saturating_add(model::modeled_string_clone_upper_bytes(name)).saturating_add(
            model::modeled_string_clone_upper_bytes(value),
        );
        i = i + 1;
    }
    assert(pairs.subrange(0, i as int) =~= pairs);
    (bytes, cost)
}

/// The most labels that an alert of a sample can have.
pub open spec fn merged_count(
    group: RuleGroupView,
    spec: AlertRuleView,
    labels: nat,
) -> usize {
    sizes::sat_size(
        labels as int + ordered::listing::<String, Seq<char>>(group.labels).len()
            + ordered::listing::<String, Seq<char>>(spec.labels).len() + 1,
    )
}

/// The bytes of the names and values that the labels of an alert of a sample can have.
pub open spec fn merged_bytes(
    group: RuleGroupView,
    spec: AlertRuleView,
    labels: Seq<LabelView>,
) -> usize {
    sizes::sat_size(
        text::utf8_len("alertname"@) as int + text::utf8_len(spec.alert) + all_texts_bytes(
            group,
            spec,
            labels,
        ),
    )
}

/// What is wrong with a sample before an alert is made of it.
pub open spec fn preflight_problem(
    group: RuleGroupView,
    spec: AlertRuleView,
    sample: Sample,
    limits: RulesStoreLimits,
) -> Option<Seq<char>> {
    let labels = stable::views(sample.labels@);
    if text::utf8_len(sample.metric@) > limits.max_name_bytes || labels.len()
        > limits.max_labels_per_set {
        Some("alert rule output exceeds a finite state limit"@)
    } else if merged_count(group, spec, labels.len()) > limits.max_labels_per_set {
        Some("alert rule output exceeds a finite label-count limit"@)
    } else if validate::some_label_wrong(labels, limits) {
        Some("alert rule output contains an invalid label"@)
    } else if merged_bytes(group, spec, labels) > limits.max_label_set_bytes {
        Some("alert rule output exceeds a finite label-byte limit"@)
    } else {
        None
    }
}

/// The bytes that the alert of a sample is modeled to take.
pub open spec fn preflight_cost(group: RuleGroupView, spec: AlertRuleView, sample: Sample) -> nat {
    let labels = stable::views(sample.labels@);
    let count = merged_count(group, spec, labels.len());
    let key = sizes::sat_size(
        text::utf8_len(sample.metric@) as int + merged_bytes(group, spec, labels) * 2 + count * 32,
    );
    model::allocation(key as nat) + model::text_cost(sample.metric@) + model::grown_list_cost::<
        Label,
    >(count as nat) + (model::text_cost("alertname"@) + model::text_cost(spec.alert))
        + all_texts_cost(group, spec, labels) + model::allocation(32) + model::allocation(64)
}

fn sample_label_sizes(labels: &Vec<Label>, limits: &RulesStoreLimits) -> (found: Option<
    (usize, usize),
>)
    ensures
        if validate::some_label_wrong(stable::views(labels@), *limits) {
            found is None
        } else {
            found == Some(
                (
                    sizes::sat_size(validate::labels_bytes(stable::views(labels@)) as int),
                    sizes::sat_size(model::label_texts_cost(stable::views(labels@)) as int),
                ),
            )
        },
{
    let ghost all = stable::views(labels@);
    let mut bytes: usize = 0;
    let mut cost: usize = 0;
    let mut i: usize = 0;
    assert(all.subrange(0, 0) =~= Seq::empty());
    while i < labels.len()
        invariant
            i <= labels@.len(),
            all == stable::views(labels@),
            forall|k: int| 0 <= k < i ==> !validate::alert_label_wrong(#[trigger] all[k], *limits),
            bytes == sizes::sat_size(validate::labels_bytes(all.subrange(0, i as int)) as int),
            cost == sizes::sat_size(model::label_texts_cost(all.subrange(0, i as int)) as int),
        decreases labels@.len() - i,
    {
        proof {
            assert(all.subrange(0, i as int + 1).drop_last() =~= all.subrange(0, i as int));
        }
        let name = labels[i].name.as_str();
        let value = labels[i].value.as_str();
        let name_len = text::byte_len(name);
        let value_len = text::byte_len(value);
        if name.unicode_len() == 0 || name_len > limits.max_name_bytes || name_len
            > validate::MAX_LABEL_NAME_LEN || value_len > validate::MAX_LABEL_VALUE_LEN {
            proof {
                assert(validate::alert_label_wrong(all[i as int], *limits));
            }
            return None;
        }
        bytes = bytes.saturating_add(name_len).saturating_add(value_len);
        cost =
        cost.saturating_add(model::modeled_string_clone_upper_bytes(name)).saturating_add(
            model::modeled_string_clone_upper_bytes(value),
        );
        i = i + 1;
    }
    assert(all.subrange(0, i as int) =~= all);
    Some((bytes, cost))
}

/// The bytes of the texts of all labels that an alert of a sample can have, but for its name.
pub open spec fn all_texts_cost(group: RuleGroupView, spec: AlertRuleView, labels: Seq<LabelView>) -> nat {
    model::label_texts_cost(labels) + pair_texts_cost(
        ordered::listing::<String, Seq<char>>(group.labels),
    ) + pair_texts_cost(ordered::listing::<String, Seq<char>>(spec.labels))
}

/// The bytes of the names and values of all labels that an alert of a sample can have, but for its
/// name.
pub open spec fn all_texts_bytes(group: RuleGroupView, spec: AlertRuleView, labels: Seq<LabelView>) -> nat {
    validate::labels_bytes(labels) + validate::pairs_bytes(
        ordered::listing::<String, Seq<char>>(group.labels),
    ) + validate::pairs_bytes(ordered::listing::<String, Seq<char>>(spec.labels))
}

fn all_label_sizes(
    group: &RuleGroupSpec,
    spec: &AlertRuleSpec,
    labels: &Vec<Label>,
    limits: &RulesStoreLimits,
) -> (found: Option<(usize, usize)>)
    ensures
        if validate::some_label_wrong(stable::views(labels@), *limits) {
            found is None
        } else {
            found == Some(
                (
                    sizes::sat_size(
                        all_texts_bytes(group@, spec@, stable::views(labels@)) as int,
                    ),
                    sizes::sat_size(
                        all_texts_cost(group@, spec@, stable::views(labels@)) as int,
                    ),
                ),
            )
        },
{
    match sample_label_sizes(labels, limits) {
        None => None,
        Some((own_bytes, own_cost)) => {
            let (group_bytes, group_cost) = pairs_sizes(&group.labels);
            let (rule_bytes, rule_cost) = pairs_sizes(&spec.labels);
            Some(
                (
                    own_bytes.saturating_add(group_bytes).saturating_add(rule_bytes),
                    own_cost.saturating_add(group_cost).saturating_add(rule_cost),
                ),
            )
        },
    }
}

fn name_copies_bytes(spec: &AlertRuleSpec) -> (bytes: usize)
    ensures
        bytes == sizes::sat_size(
            model::text_cost("alertname"@) as int + model::text_cost(spec@.alert),
        ),
{
    model::modeled_string_clone_upper_bytes("alertname").saturating_add(
        model::modeled_string_clone_upper_bytes(spec.alert.as_str()),
    )
}

fn alert_state_bytes(
    metric_len: usize,
    metric_copy: usize,
    count: usize,
    label_bytes: usize,
    name_copies: usize,
    label_copies: usize,
) -> (bytes: usize)
    ensures
        bytes == sizes::sat_size(
            model::allocation(
                sizes::sat_size(metric_len as int + label_bytes * 2 + count * 32) as nat,
            ) as int + metric_copy + model::grown_list_cost::<Label>(count as nat) + name_copies
                + label_copies + model::allocation(32) + model::allocation(64),
        ),
{
    let key = metric_len.saturating_add(sizes::times_size(label_bytes, 2)).saturating_add(
        sizes::times_size(count, 32),
    );
    model::modeled_allocation_bytes(key).saturating_add(metric_copy).saturating_add(
        model::modeled_vec_clone_upper_bytes::<Label>(count),
    ).saturating_add(name_copies).saturating_add(label_copies).saturating_add(
        model::modeled_allocation_bytes(32),
    ).saturating_add(model::modeled_allocation_bytes(64))
}

/// The bytes that the alert of a sample is modeled to take, found before it is made.
pub fn preflight_alert_sample_state_bytes(
    group: &RuleGroupSpec,
    spec: &AlertRuleSpec,
    sample: &Sample,
    limits: &RulesStoreLimits,
) -> (bytes: Result<usize, String>)
    ensures
        match preflight_problem(group@, spec@, *sample, *limits) {
            Some(problem) => bytes matches Err(message) && message@ == problem,
            None => bytes == Ok::<usize, String>(
                sizes::sat_size(preflight_cost(group@, spec@, *sample) as int),
            ),
        },
{
    let metric_len = text::byte_len(sample.metric.as_str());
    if metric_len > limits.max_name_bytes || sample.labels.len() > limits.max_labels_per_set {
        return Err(text::owned("alert rule output exceeds a finite state limit"));
    }
    let group_count = group.labels.len();
    let rule_count = spec.labels.len();
    proof {
        ordered::lemma_listing::<String, Seq<char>>(group.labels.entries());
        ordered::lemma_listing::<String, Seq<char>>(spec.labels.entries());
    }
    let count = sample.labels.len().saturating_add(group_count).saturating_add(
        rule_count,
    ).saturating_add(1);
    if count > limits.max_labels_per_set {
        return Err(text::owned("alert rule output exceeds a finite label-count limit"));
    }
    let (all_bytes, all_copies) = match all_label_sizes(group, spec, &sample.labels, limits) {
        None => {
            return Err(text::owned("alert rule output contains an invalid label"));
        },
        Some(found) => found,
    };
    let label_bytes = text::byte_len("alertname").saturating_add(
        text::byte_len(spec.alert.as_str()),
    ).saturating_add(all_bytes);
    if label_bytes > limits.max_label_set_bytes {
        return Err(text::owned("alert rule output exceeds a finite label-byte limit"));
    }
    Ok(
        alert_state_bytes(
            metric_len,
            model::modeled_string_clone_upper_bytes(sample.metric.as_str()),
            count,
            label_bytes,
            name_copies_bytes(spec),
            all_copies,
        ),
    )
}

/// What is wrong with the first sample that is wrong before an alert is made of it.
pub open spec fn preflights_problem(
    group: RuleGroupView,
    spec: AlertRuleView,
    samples: Seq<Sample>,
    limits: RulesStoreLimits,
) -> Option<Seq<char>>
    decreases samples.len(),
{
    if samples.len() == 0 {
        None
    } else if preflights_problem(group, spec, samples.drop_last(), limits) is Some {
        preflights_problem(group, spec, samples.drop_last(), limits)
    } else {
        preflight_problem(group, spec, samples.last(), limits)
    }
}

proof fn lemma_preflights_stop(
    group: RuleGroupView,
    spec: AlertRuleView,
    samples: Seq<Sample>,
    limits: RulesStoreLimits,
    n: int,
)
    requires
        0 <= n <= samples.len(),
        preflights_problem(group, spec, samples.subrange(0, n), limits) is Some,
    ensures
        preflights_problem(group, spec, samples, limits) == preflights_problem(
            group,
            spec,
            samples.subrange(0, n),
            limits,
        ),
    decreases samples.len() - n,
{
    if n == samples.len() {
        assert(samples.subrange(0, n) =~= samples);
    } else {
        assert(samples.subrange(0, n + 1).drop_last() =~= samples.subrange(0, n));
        lemma_preflights_stop(group, spec, samples, limits, n + 1);
    }
}

/// The bytes that the alerts of samples are modeled to take, one by one.
pub open spec fn preflights_cost(
    group: RuleGroupView,
    spec: AlertRuleView,
    samples: Seq<Sample>,
) -> nat
    decreases samples.len(),
{
    if samples.len() == 0 {
        0
    } else {
        preflights_cost(group, spec, samples.drop_last()) + preflight_cost(
            group,
            spec,
            samples.last(),
        )
    }
}

/// The bytes that the alerts of samples are modeled to take.
pub open spec fn projected_cost(
    group: RuleGroupView,
    spec: AlertRuleView,
    samples: Seq<Sample>,
) -> nat {
    model::grown_list_cost::<AlertInstanceState>(samples.len()) + preflights_cost(
        group,
        spec,
        samples,
    )
}

fn projected_bytes(
    group: &RuleGroupSpec,
    spec: &AlertRuleSpec,
    samples: &Vec<Sample>,
    limits: &RulesStoreLimits,
) -> (bytes: Result<usize, String>)
    ensures
        match preflights_problem(group@, spec@, samples@, *limits) {
            Some(problem) => bytes matches Err(message) && message@ == problem,
            None => bytes == Ok::<usize, String>(
                sizes::sat_size(projected_cost(group@, spec@, samples@) as int),
            ),
        },
{
    let ghost list = model::grown_list_cost::<AlertInstanceState>(samples@.len());
    let mut bytes: usize = model::modeled_vec_clone_upper_bytes::<AlertInstanceState>(
        samples.len(),
    );
    let mut i: usize = 0;
    assert(samples@.subrange(0, 0) =~= Seq::empty());
    while i < samples.len()
        invariant
            i <= samples@.len(),
            preflights_problem(group@, spec@, samples@.subrange(0, i as int), *limits) is None,
            bytes == sizes::sat_size(
                list as int + preflights_cost(group@, spec@, samples@.subrange(0, i as int)),
            ),
        decreases samples@.len() - i,
    {
        proof {
            let longer = samples@.subrange(0, i as int + 1);
            assert(longer.drop_last() =~= samples@.subrange(0, i as int));
            assert(longer.last() == samples@[i as int]);
            if preflights_problem(group@, spec@, longer, *limits) is Some {
                lemma_preflights_stop(group@, spec@, samples@, *limits, i as int + 1);
            }
        }
        match preflight_alert_sample_state_bytes(group, spec, &samples[i], limits) {
            Err(message) => {
                return Err(message);
            },
            Ok(more) => {
                bytes = bytes.saturating_add(more);
            },
        }
        i = i + 1;
    }
    assert(samples@.subrange(0, i as int) =~= samples@);
    Ok(bytes)
}

/// The most that finding the key of one of some alerts anew may take.
pub open spec fn largest_scratch(instances: Seq<AlertInstanceView>) -> int
    decreases instances.len(),
{
    if instances.len() == 0 {
        0
    } else {
        sizes::greatest(
            largest_scratch(instances.drop_last()),
            sizes::sat_size(rekey_scratch(instances.last()) as int) as int,
        )
    }
}

fn largest_rekey_scratch(instances: &Vec<AlertInstanceState>) -> (bytes: usize)
    ensures
        bytes == largest_scratch(stable::views(instances@)),
{
    let ghost all = stable::views(instances@);
    let mut bytes: usize = 0;
    let mut i: usize = 0;
    assert(all.subrange(0, 0) =~= Seq::empty());
    while i < instances.len()
        invariant
            i <= instances@.len(),
            all == stable::views(instances@),
            bytes == largest_scratch(all.subrange(0, i as int)),
        decreases instances@.len() - i,
    {
        proof {
            assert(all.subrange(0, i as int + 1).drop_last() =~= all.subrange(0, i as int));
        }
        bytes =
        sizes::max_size(bytes, modeled_alert_key_recompute_scratch_bytes(&instances[i]));
        i = i + 1;
    }
    assert(all.subrange(0, i as int) =~= all);
    bytes
}

/// What is wrong with the samples of an alert rule before anything is held against a limit.
pub open spec fn samples_refused(
    config: RulesRuntimeConfig,
    group: RuleGroupView,
    spec: AlertRuleView,
    samples: Seq<Sample>,
) -> Option<Seq<char>> {
    if samples.len() > config.max_alert_instances_per_rule {
        Some("alert rule result exceeds its finite instance limit"@)
    } else {
        preflights_problem(group, spec, samples, config.store_limits)
    }
}

/// Whether this may be what is known of an alert rule after its evaluation.
pub open spec fn may_evaluate<K: Fn(&str, &Vec<Label>) -> String>(
    key_of: K,
    group: RuleGroupView,
    spec: AlertRuleView,
    samples: Seq<Sample>,
    previous: Seq<AlertInstanceView>,
    timestamp: i64,
    wait: i64,
    now_unix_ms: u64,
    after: RuntimeView,
) -> bool {
    exists|before: Seq<AlertInstanceView>, each: Seq<AlertInstanceView>| #[trigger]
        rekeyed(key_of, previous, before) && #[trigger] may_raise_each(
            key_of,
            group,
            spec,
            samples,
            before,
            timestamp,
            wait,
            each,
        ) && after == (RuntimeView {
            fingerprint: 0,
            last_eval_timestamp: Some(timestamp),
            last_eval_unix_ms: Some(now_unix_ms),
            last_success_unix_ms: Some(now_unix_ms),
            last_duration_ms: 0,
            last_error: None,
            last_sample_count: samples.len() as u64,
            last_recorded_rows: 0,
            last_outcome: Some(RuleEvaluationOutcome::Success),
            alert_instances: stable::stable_sorted::<AlertInstanceState>(each),
        })
}

/// What is held while an alert rule is evaluated for samples, held against its limit, where what is
/// known of it is measured to hold a number of bytes.
pub open spec fn held_evaluation(
    limits: RulesStoreLimits,
    before: RulesStoreAccounting,
    group: RuleGroupView,
    spec: AlertRuleView,
    samples: Seq<Sample>,
    previous: Seq<AlertInstanceView>,
    known_bytes: usize,
) -> Held {
    Held::start(before).then_on(
        RulesLimitSurface::RuntimeUpdate,
        sizes::sat_size(
            known_bytes + projected_cost(group, spec, samples) + largest_scratch(previous),
        ),
        limits.max_runtime_update_transient_bytes,
    )
}

/// Whether an alert rule comes out like this for samples, with the counters before and after, where
/// what is known of it is measured to hold a number of bytes.
pub open spec fn evaluated_as<K: Fn(&str, &Vec<Label>) -> String>(
    key_of: K,
    config: RulesRuntimeConfig,
    group: RuleGroupView,
    spec: AlertRuleView,
    samples: Seq<Sample>,
    previous: RuntimeView,
    known_bytes: usize,
    timestamp: i64,
    wait: i64,
    now_unix_ms: u64,
    tenant_label: Seq<char>,
    before: RulesStoreAccounting,
    evaluated: Result<PersistedRuleRuntimeState, String>,
    after: RulesStoreAccounting,
) -> bool {
    let held = held_evaluation(
        config.store_limits,
        before,
        group,
        spec,
        samples,
        previous.alert_instances,
        known_bytes,
    );
    match samples_refused(config, group, spec, samples) {
        Some(problem) => {
            &&& evaluated matches Err(message) && message@ == problem
            &&& after == before
        },
        None => {
            &&& after == held.counters
            &&& match (held.over, samples_problem(group, spec, samples, tenant_label)) {
                (Some(surface), _) => evaluated matches Err(message) && message@
                    == surface.message_text(),
                (None, Some(problem)) => evaluated matches Err(message) && message@ == problem,
                (None, None) => evaluated matches Ok(state) && may_evaluate(
                    key_of,
                    group,
                    spec,
                    samples,
                    previous.alert_instances,
                    timestamp,
                    wait,
                    now_unix_ms,
                    state@,
                ),
            }
        },
    }
}

/// Whether an alert rule may come out like this for samples, with the counters before and after.
/// What is known of it is measured to hold at least what it takes without spare room; how far it is
/// above is the allocator's choice.
pub open spec fn may_come_out<K: Fn(&str, &Vec<Label>) -> String>(
    key_of: K,
    config: RulesRuntimeConfig,
    group: RuleGroupView,
    spec: AlertRuleView,
    samples: Seq<Sample>,
    previous: RuntimeView,
    timestamp: i64,
    wait: i64,
    now_unix_ms: u64,
    tenant_label: Seq<char>,
    before: RulesStoreAccounting,
    evaluated: Result<PersistedRuleRuntimeState, String>,
    after: RulesStoreAccounting,
) -> bool {
    exists|known_bytes: usize|
        known_bytes >= sizes::sat_size(model::runtime_cost(previous) as int)
            && #[trigger] evaluated_as(
            key_of,
            config,
            group,
            spec,
            samples,
            previous,
            known_bytes,
            timestamp,
            wait,
            now_unix_ms,
            tenant_label,
            before,
            evaluated,
            after,
        )
}

/// Evaluates an alert rule for the samples of its expression, given what is known of it: `key_of`
/// gives the key of a series.
pub fn evaluate_alert_samples<K: Fn(&str, &Vec<Label>) -> String>(
    accounting: &mut RulesStoreAccounting,
    config: &RulesRuntimeConfig,
    precision: TimestampPrecision,
    group: &RuleGroupSpec,
    spec: &AlertRuleSpec,
    eval_timestamp: i64,
    samples: Vec<Sample>,
    previous: PersistedRuleRuntimeState,
    now_unix_ms: u64,
    tenant_label: &str,
    key_of: &K,
) -> (evaluated: Result<PersistedRuleRuntimeState, String>)
    requires
        forall|metric: &str, labels: &Vec<Label>| call_requires(*key_of, (metric, labels)),
    ensures
        may_come_out(
            *key_of,
            *config,
            group@,
            spec@,
            samples@,
            previous@,
            eval_timestamp,
            time::units_in(spec.for_secs, precision),
            now_unix_ms,
            tenant_label@,
            *old(accounting),
            evaluated,
            *final(accounting),
        ),
{
    let known_bytes = model::modeled_runtime_state_heap_bytes(&previous);
    evaluate_measured_samples(
        accounting,
        config,
        precision,
        group,
        spec,
        eval_timestamp,
        samples,
        previous,
        known_bytes,
        now_unix_ms,
        tenant_label,
        key_of,
    )
}

/// Evaluates an alert rule for the samples of its expression, given what is known of it and the
/// bytes that this is measured to hold: `key_of` gives the key of a series.
pub fn evaluate_measured_samples<K: Fn(&str, &Vec<Label>) -> String>(
    accounting: &mut RulesStoreAccounting,
    config: &RulesRuntimeConfig,
    precision: TimestampPrecision,
    group: &RuleGroupSpec,
    spec: &AlertRuleSpec,
    eval_timestamp: i64,
    samples: Vec<Sample>,
    previous: PersistedRuleRuntimeState,
    known_bytes: usize,
    now_unix_ms: u64,
    tenant_label: &str,
    key_of: &K,
) -> (evaluated: Result<PersistedRuleRuntimeState, String>)
    requires
        forall|metric: &str, labels: &Vec<Label>| call_requires(*key_of, (metric, labels)),
    ensures
        evaluated_as(
            *key_of,
            *config,
            group@,
            spec@,
            samples@,
            previous@,
            known_bytes,
            eval_timestamp,
            time::units_in(spec.for_secs, precision),
            now_unix_ms,
            tenant_label@,
            *old(accounting),
            evaluated,
            *final(accounting),
        ),
{
    if samples.len() > config.max_alert_instances_per_rule {
        return Err(text::owned("alert rule result exceeds its finite instance limit"));
    }
    let projected = match projected_bytes(group, spec, &samples, &config.store_limits) {
        Err(message) => {
            return Err(message);
        },
        Ok(bytes) => bytes,
    };
    let scratch = largest_rekey_scratch(&previous.alert_instances);
    match accounting.enforce_limit(
        RulesLimitSurface::RuntimeUpdate,
        known_bytes.saturating_add(projected).saturating_add(scratch),
        config.store_limits.max_runtime_update_transient_bytes,
    ) {
        Err(error) => {
            return Err(error.message());
        },
        Ok(_) => {},
    }
    let ghost given = samples@;
    let ghost known = previous@.alert_instances;
    let before = rekey(previous.alert_instances, key_of);
    let wait = time::duration_units(spec.for_secs, precision);
    let count = samples.len() as u64;
    let instances = match raise_alerts(
        group,
        spec,
        samples,
        &before,
        eval_timestamp,
        wait,
        tenant_label,
        key_of,
    ) {
        Err(message) => {
            return Err(message);
        },
        Ok(instances) => instances,
    };
    let state = PersistedRuleRuntimeState {
        fingerprint: 0,
        last_eval_timestamp: Some(eval_timestamp),
        last_eval_unix_ms: Some(now_unix_ms),
        last_success_unix_ms: Some(now_unix_ms),
        last_duration_ms: 0,
        last_error: None,
        last_sample_count: count,
        last_recorded_rows: 0,
        last_outcome: Some(RuleEvaluationOutcome::Success),
        alert_instances: instances,
    };
    proof {
        assert(rekeyed(*key_of, known, stable::views(before@)));
        let each = choose|each: Seq<AlertInstanceView>| #[trigger]
            may_raise_each(
                *key_of,
                group@,
                spec@,
                given,
                stable::views(before@),
                eval_timestamp,
                wait,
                each,
            ) && stable::views(instances@) == stable::stable_sorted::<AlertInstanceState>(each);
        assert(may_raise_each(
            *key_of,
            group@,
            spec@,
            given,
            stable::views(before@),
            eval_timestamp,
            wait,
            each,
        ));
        assert(state@.alert_instances == stable::stable_sorted::<AlertInstanceState>(each));
    }
    Ok(state)
}

/// Evaluates an alert rule for the value of its expression, given what is known of it.
pub fn evaluate_alert_rule<K: Fn(&str, &Vec<Label>) -> String>(
    accounting: &mut RulesStoreAccounting,
    config: &RulesRuntimeConfig,
    precision: TimestampPrecision,
    group: &RuleGroupSpec,
    spec: &AlertRuleSpec,
    eval_timestamp: i64,
    value: PromqlValue,
    previous: PersistedRuleRuntimeState,
    now_unix_ms: u64,
    tenant_label: &str,
    key_of: &K,
) -> (evaluated: Result<PersistedRuleRuntimeState, String>)
    requires
        forall|metric: &str, labels: &Vec<Label>| call_requires(*key_of, (metric, labels)),
    ensures
        match value {
            PromqlValue::InstantVector(samples) => may_come_out(
                *key_of,
                *config,
                group@,
                spec@,
                samples@,
                previous@,
                eval_timestamp,
                time::units_in(spec.for_secs, precision),
                now_unix_ms,
                tenant_label@,
                *old(accounting),
                evaluated,
                *final(accounting),
            ),
            PromqlValue::Scalar { value: number, shown } => exists|sample: Sample|
                sample.metric@ == Seq::<char>::empty() && sample.labels@.len() == 0 && sample.value
                    == number && sample.shown == shown && #[trigger] may_come_out(
                    *key_of,
                    *config,
                    group@,
                    spec@,
                    seq![sample],
                    previous@,
                    eval_timestamp,
                    time::units_in(spec.for_secs, precision),
                    now_unix_ms,
                    tenant_label@,
                    *old(accounting),
                    evaluated,
                    *final(accounting),
                ),
            PromqlValue::RangeVector => {
                &&& evaluated matches Err(message) && message@
                    == "alert rule must evaluate to a scalar or instant vector"@
                &&& *final(accounting) == *old(accounting)
            },
            PromqlValue::Text => {
                &&& evaluated matches Err(message) && message@
                    == "alert rule cannot evaluate to a string"@
                &&& *final(accounting) == *old(accounting)
            },
        },
{
    match alert_samples_from_value(value) {
        Err(message) => Err(message),
        Ok(samples) => {
            let ghost given = samples@;
            let ghost known = previous@;
            let ghost before = *accounting;
            let evaluated = evaluate_alert_samples(
                accounting,
                config,
                precision,
                group,
                spec,
                eval_timestamp,
                samples,
                previous,
                now_unix_ms,
                tenant_label,
                key_of,
            );
            proof {
                if value is Scalar {
                    assert(given =~= seq![given[0]]);
                    assert(may_come_out(
                        *key_of,
                        *config,
                        group@,
                        spec@,
                        seq![given[0]],
                        known,
                        eval_timestamp,
                        time::units_in(spec.for_secs, precision),
                        now_unix_ms,
                        tenant_label@,
                        before,
                        evaluated,
                        *accounting,
                    ));
                }
            }
            evaluated
        },
    }
}

/// A new alert is active since now and only waits, if it has to wait at all.
pub proof fn lemma_new_alert_waits(
    key: Seq<char>,
    metric: Seq<char>,
    labels: Seq<LabelView>,
    kind: Seq<char>,
    shown: Seq<char>,
    timestamp: i64,
    wait: i64,
)
    requires
        wait >= 1,
    ensures
        ({
            let alert = raised(None, key, metric, labels, kind, shown, timestamp, wait);
            &&& alert.state is Pending
            &&& alert.active_since_timestamp == timestamp
            &&& alert.firing_since_timestamp is None
        }),
{
}

/// An alert that is raised again stays active since it was first seen, fires exactly once it has
/// been active for as long as it has to wait, and keeps since when it fires.
pub proof fn lemma_alert_keeps_its_times(
    previous: AlertInstanceView,
    metric: Seq<char>,
    labels: Seq<LabelView>,
    kind: Seq<char>,
    shown: Seq<char>,
    timestamp: i64,
    wait: i64,
)
    ensures
        ({
            let alert = raised(
                Some(previous),
                previous.key,
                metric,
                labels,
                kind,
                shown,
                timestamp,
                wait,
            );
            &&& alert.active_since_timestamp == previous.active_since_timestamp
            &&& alert.state is Firing <==> timestamps_apart(
                timestamp,
                previous.active_since_timestamp,
            ) >= wait
            &&& alert.state is Firing && previous.firing_since_timestamp is Some
                ==> alert.firing_since_timestamp == previous.firing_since_timestamp
            &&& alert.state is Firing && previous.firing_since_timestamp is None
                ==> alert.firing_since_timestamp == Some(timestamp)
            &&& alert.state is Pending ==> alert.firing_since_timestamp is None
        }),
{
}

/// An alert that fires goes on firing for as long as it is raised and time does not go back.
pub proof fn lemma_firing_alert_stays_firing(
    earlier: Option<AlertInstanceView>,
    key: Seq<char>,
    metric: Seq<char>,
    labels: Seq<LabelView>,
    kind: Seq<char>,
    shown: Seq<char>,
    timestamp: i64,
    later: i64,
    wait: i64,
)
    requires
        timestamp <= later,
        raised(earlier, key, metric, labels, kind, shown, timestamp, wait).state is Firing,
    ensures
        ({
            let before = raised(earlier, key, metric, labels, kind, shown, timestamp, wait);
            let after = raised(Some(before), key, metric, labels, kind, shown, later, wait);
            &&& after.state is Firing
            &&& after.firing_since_timestamp == before.firing_since_timestamp
        }),
{
}

/// An evaluation leaves exactly one alert for each sample: without samples every alert is cleared.
pub proof fn lemma_alerts_follow_samples<K: Fn(&str, &Vec<Label>) -> String>(
    key_of: K,
    group: RuleGroupView,
    spec: AlertRuleView,
    samples: Seq<Sample>,
    previous: Seq<AlertInstanceView>,
    timestamp: i64,
    wait: i64,
    now_unix_ms: u64,
    after: RuntimeView,
)
    requires
        may_evaluate(
            key_of,
            group,
            spec,
            samples,
            previous,
            timestamp,
            wait,
            now_unix_ms,
            after,
        ),
    ensures
        after.alert_instances.len() == samples.len(),
{
    let (before, each): (Seq<AlertInstanceView>, Seq<AlertInstanceView>) = choose|
        before: Seq<AlertInstanceView>,
        each: Seq<AlertInstanceView>,
    | #[trigger]
        rekeyed(key_of, previous, before) && #[trigger] may_raise_each(
            key_of,
            group,
            spec,
            samples,
            before,
            timestamp,
            wait,
            each,
        ) && after.alert_instances == stable::stable_sorted::<AlertInstanceState>(each);
    stable::lemma_stable_sorted::<AlertInstanceState>(each);
}

} // verus!
