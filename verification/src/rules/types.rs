//! Rules, their groups, and what is known of their evaluation.

use vstd::prelude::*;

use crate::ordered::Copied;
use crate::ordered::KeyMap;
use crate::series::Label;
use crate::series::LabelView;
use crate::stable;
use crate::text;

verus! {

/// Labels or annotations by their name.
pub type Texts = KeyMap<String, String>;

/// Labels or annotations as plain values.
pub type TextsView = Map<Seq<char>, Seq<char>>;

/// A rule that records the result of an expression as a metric.
#[derive(Debug, PartialEq, Eq)]
pub struct RecordingRuleSpec {
    pub record: String,
    pub expr: String,
    pub interval_secs: Option<u64>,
    pub labels: Texts,
}

/// A rule that raises an alert for each sample of an expression.
#[derive(Debug, PartialEq, Eq)]
pub struct AlertRuleSpec {
    pub alert: String,
    pub expr: String,
    pub interval_secs: Option<u64>,
    pub for_secs: u64,
    pub labels: Texts,
    pub annotations: Texts,
}

/// A rule.
#[derive(Debug, PartialEq, Eq)]
pub enum RuleSpec {
    Recording(RecordingRuleSpec),
    Alert(AlertRuleSpec),
}

/// A group of rules of one tenant.
#[derive(Debug, PartialEq, Eq)]
pub struct RuleGroupSpec {
    pub name: String,
    pub tenant_id: String,
    pub interval_secs: u64,
    pub labels: Texts,
    pub rules: Vec<RuleSpec>,
}

/// A recording rule as a plain value.
#[verifier::ext_equal]
pub struct RecordingRuleView {
    pub record: Seq<char>,
    pub expr: Seq<char>,
    pub interval_secs: Option<u64>,
    pub labels: TextsView,
}

/// An alert rule as a plain value.
#[verifier::ext_equal]
pub struct AlertRuleView {
    pub alert: Seq<char>,
    pub expr: Seq<char>,
    pub interval_secs: Option<u64>,
    pub for_secs: u64,
    pub labels: TextsView,
    pub annotations: TextsView,
}

/// A rule as a plain value.
pub enum RuleView {
    Recording(RecordingRuleView),
    Alert(AlertRuleView),
}

/// A group as a plain value.
#[verifier::ext_equal]
pub struct RuleGroupView {
    pub name: Seq<char>,
    pub tenant_id: Seq<char>,
    pub interval_secs: u64,
    pub labels: TextsView,
    pub rules: Seq<RuleView>,
}

impl View for RecordingRuleSpec {
    type V = RecordingRuleView;

    open spec fn view(&self) -> RecordingRuleView {
        RecordingRuleView {
            record: self.record@,
            expr: self.expr@,
            interval_secs: self.interval_secs,
            labels: self.labels@,
        }
    }
}

impl View for AlertRuleSpec {
    type V = AlertRuleView;

    open spec fn view(&self) -> AlertRuleView {
        AlertRuleView {
            alert: self.alert@,
            expr: self.expr@,
            interval_secs: self.interval_secs,
            for_secs: self.for_secs,
            labels: self.labels@,
            annotations: self.annotations@,
        }
    }
}

impl View for RuleSpec {
    type V = RuleView;

    open spec fn view(&self) -> RuleView {
        match self {
            RuleSpec::Recording(spec) => RuleView::Recording(spec@),
            RuleSpec::Alert(spec) => RuleView::Alert(spec@),
        }
    }
}

impl View for RuleGroupSpec {
    type V = RuleGroupView;

    open spec fn view(&self) -> RuleGroupView {
        RuleGroupView {
            name: self.name@,
            tenant_id: self.tenant_id@,
            interval_secs: self.interval_secs,
            labels: self.labels@,
            rules: stable::views(self.rules@),
        }
    }
}

/// Whether an alert waits for its time or fires.
#[derive(Debug, Clone, Copy, PartialEq, Eq, Structural)]
pub enum AlertInstanceStatus {
    Pending,
    Firing,
}

/// One alert of a rule.
#[derive(Debug, PartialEq, Eq)]
pub struct AlertInstanceState {
    pub key: String,
    pub source_metric: String,
    pub labels: Vec<Label>,
    pub active_since_timestamp: i64,
    pub last_seen_timestamp: i64,
    pub firing_since_timestamp: Option<i64>,
    pub state: AlertInstanceStatus,
    pub sample_type: String,
    pub sample_value: Option<String>,
}

/// One alert as a plain value.
#[verifier::ext_equal]
pub struct AlertInstanceView {
    pub key: Seq<char>,
    pub source_metric: Seq<char>,
    pub labels: Seq<LabelView>,
    pub active_since_timestamp: i64,
    pub last_seen_timestamp: i64,
    pub firing_since_timestamp: Option<i64>,
    pub state: AlertInstanceStatus,
    pub sample_type: Seq<char>,
    pub sample_value: Option<Seq<char>>,
}

impl View for AlertInstanceState {
    type V = AlertInstanceView;

    open spec fn view(&self) -> AlertInstanceView {
        AlertInstanceView {
            key: self.key@,
            source_metric: self.source_metric@,
            labels: stable::views(self.labels@),
            active_since_timestamp: self.active_since_timestamp,
            last_seen_timestamp: self.last_seen_timestamp,
            firing_since_timestamp: self.firing_since_timestamp,
            state: self.state,
            sample_type: self.sample_type@,
            sample_value: text::opt_text(self.sample_value),
        }
    }
}

/// How an evaluation came out.
#[derive(Debug, Clone, Copy, PartialEq, Eq, Structural)]
pub enum RuleEvaluationOutcome {
    Success,
    Error,
}

/// What is known of the evaluation of a rule.
#[derive(Debug, PartialEq, Eq)]
pub struct PersistedRuleRuntimeState {
    pub fingerprint: u64,
    pub last_eval_timestamp: Option<i64>,
    pub last_eval_unix_ms: Option<u64>,
    pub last_success_unix_ms: Option<u64>,
    pub last_duration_ms: u64,
    pub last_error: Option<String>,
    pub last_sample_count: u64,
    pub last_recorded_rows: u64,
    pub last_outcome: Option<RuleEvaluationOutcome>,
    pub alert_instances: Vec<AlertInstanceState>,
}

/// What is known of the evaluation of a rule, as a plain value.
#[verifier::ext_equal]
pub struct RuntimeView {
    pub fingerprint: u64,
    pub last_eval_timestamp: Option<i64>,
    pub last_eval_unix_ms: Option<u64>,
    pub last_success_unix_ms: Option<u64>,
    pub last_duration_ms: u64,
    pub last_error: Option<Seq<char>>,
    pub last_sample_count: u64,
    pub last_recorded_rows: u64,
    pub last_outcome: Option<RuleEvaluationOutcome>,
    pub alert_instances: Seq<AlertInstanceView>,
}

impl View for PersistedRuleRuntimeState {
    type V = RuntimeView;

    open spec fn view(&self) -> RuntimeView {
        RuntimeView {
            fingerprint: self.fingerprint,
            last_eval_timestamp: self.last_eval_timestamp,
            last_eval_unix_ms: self.last_eval_unix_ms,
            last_success_unix_ms: self.last_success_unix_ms,
            last_duration_ms: self.last_duration_ms,
            last_error: text::opt_text(self.last_error),
            last_sample_count: self.last_sample_count,
            last_recorded_rows: self.last_recorded_rows,
            last_outcome: self.last_outcome,
            alert_instances: stable::views(self.alert_instances@),
        }
    }
}

/// What is known of a rule that was never evaluated.
pub open spec fn fresh_runtime(fingerprint: u64) -> RuntimeView {
    RuntimeView {
        fingerprint,
        last_eval_timestamp: None,
        last_eval_unix_ms: None,
        last_success_unix_ms: None,
        last_duration_ms: 0,
        last_error: None,
        last_sample_count: 0,
        last_recorded_rows: 0,
        last_outcome: None,
        alert_instances: Seq::empty(),
    }
}

impl PersistedRuleRuntimeState {
    /// What is known of a rule that was never evaluated.
    pub fn fresh(fingerprint: u64) -> (state: PersistedRuleRuntimeState)
        ensures
            state@ == fresh_runtime(fingerprint),
    {
        let state = PersistedRuleRuntimeState {
            fingerprint,
            last_eval_timestamp: None,
            last_eval_unix_ms: None,
            last_success_unix_ms: None,
            last_duration_ms: 0,
            last_error: None,
            last_sample_count: 0,
            last_recorded_rows: 0,
            last_outcome: None,
            alert_instances: Vec::new(),
        };
        assert(state@.alert_instances =~= Seq::empty());
        state
    }
}

/// The evaluations of rules by their identifiers.
pub type RuntimeMap = KeyMap<String, PersistedRuleRuntimeState>;

/// The groups of rules and what is known of their evaluation.
#[derive(Debug, PartialEq, Eq)]
pub struct PersistedRulesStoreState {
    pub groups: Vec<RuleGroupSpec>,
    pub runtime: RuntimeMap,
}

/// The groups of rules and what is known of their evaluation, as plain values.
#[verifier::ext_equal]
pub struct RulesStateView {
    pub groups: Seq<RuleGroupView>,
    pub runtime: Map<Seq<char>, RuntimeView>,
}

impl View for PersistedRulesStoreState {
    type V = RulesStateView;

    open spec fn view(&self) -> RulesStateView {
        RulesStateView { groups: stable::views(self.groups@), runtime: self.runtime@ }
    }
}

impl PersistedRulesStoreState {
    /// No groups, and nothing known.
    pub fn empty() -> (state: PersistedRulesStoreState)
        ensures
            state@ == (RulesStateView { groups: Seq::empty(), runtime: Map::empty() }),
    {
        let state = PersistedRulesStoreState { groups: Vec::new(), runtime: KeyMap::new() };
        assert(state@.groups =~= Seq::empty());
        state
    }
}

/// A copy of a list whose items can be copied.
pub fn copied_list<T: Copied>(items: &Vec<T>) -> (copy: Vec<T>)
    ensures
        stable::views(copy@) == stable::views(items@),
{
    let mut copy: Vec<T> = Vec::with_capacity(items.len());
    let mut i: usize = 0;
    while i < items.len()
        invariant
            i <= items@.len(),
            copy@.len() == i,
            forall|k: int| 0 <= k < i ==> (#[trigger] copy@[k])@ == items@[k]@,
        decreases items@.len() - i,
    {
        copy.push(items[i].copied());
        i = i + 1;
    }
    assert(stable::views(copy@) =~= stable::views(items@));
    copy
}

impl Copied for Label {
    fn copied(&self) -> (copy: Label) {
        self.clone()
    }
}

impl Copied for RuleSpec {
    fn copied(&self) -> (copy: RuleSpec) {
        match self {
            RuleSpec::Recording(spec) => RuleSpec::Recording(
                RecordingRuleSpec {
                    record: text::owned(spec.record.as_str()),
                    expr: text::owned(spec.expr.as_str()),
                    interval_secs: spec.interval_secs,
                    labels: spec.labels.copied(),
                },
            ),
            RuleSpec::Alert(spec) => RuleSpec::Alert(
                AlertRuleSpec {
                    alert: text::owned(spec.alert.as_str()),
                    expr: text::owned(spec.expr.as_str()),
                    interval_secs: spec.interval_secs,
                    for_secs: spec.for_secs,
                    labels: spec.labels.copied(),
                    annotations: spec.annotations.copied(),
                },
            ),
        }
    }
}

impl Copied for RuleGroupSpec {
    fn copied(&self) -> (copy: RuleGroupSpec) {
        RuleGroupSpec {
            name: text::owned(self.name.as_str()),
            tenant_id: text::owned(self.tenant_id.as_str()),
            interval_secs: self.interval_secs,
            labels: self.labels.copied(),
            rules: copied_list(&self.rules),
        }
    }
}

impl Copied for AlertInstanceState {
    fn copied(&self) -> (copy: AlertInstanceState) {
        AlertInstanceState {
            key: text::owned(self.key.as_str()),
            source_metric: text::owned(self.source_metric.as_str()),
            labels: copied_list(&self.labels),
            active_since_timestamp: self.active_since_timestamp,
            last_seen_timestamp: self.last_seen_timestamp,
            firing_since_timestamp: self.firing_since_timestamp,
            state: self.state,
            sample_type: text::owned(self.sample_type.as_str()),
            sample_value: text::owned_opt(&self.sample_value),
        }
    }
}

impl Copied for PersistedRuleRuntimeState {
    fn copied(&self) -> (copy: PersistedRuleRuntimeState) {
        PersistedRuleRuntimeState {
            fingerprint: self.fingerprint,
            last_eval_timestamp: self.last_eval_timestamp,
            last_eval_unix_ms: self.last_eval_unix_ms,
            last_success_unix_ms: self.last_success_unix_ms,
            last_duration_ms: self.last_duration_ms,
            last_error: text::owned_opt(&self.last_error),
            last_sample_count: self.last_sample_count,
            last_recorded_rows: self.last_recorded_rows,
            last_outcome: self.last_outcome,
            alert_instances: copied_list(&self.alert_instances),
        }
    }
}

impl Copied for PersistedRulesStoreState {
    fn copied(&self) -> (copy: PersistedRulesStoreState) {
        PersistedRulesStoreState {
            groups: copied_list(&self.groups),
            runtime: self.runtime.copied(),
        }
    }
}

/// The name of a rule.
pub open spec fn name_of(rule: RuleView) -> Seq<char> {
    match rule {
        RuleView::Recording(spec) => spec.record,
        RuleView::Alert(spec) => spec.alert,
    }
}

/// The kind of a rule.
pub open spec fn kind_of(rule: RuleView) -> Seq<char> {
    match rule {
        RuleView::Recording(_) => "recording"@,
        RuleView::Alert(_) => "alert"@,
    }
}

/// The expression of a rule.
pub open spec fn expr_of(rule: RuleView) -> Seq<char> {
    match rule {
        RuleView::Recording(spec) => spec.expr,
        RuleView::Alert(spec) => spec.expr,
    }
}

/// How often a rule is evaluated: by its own interval, or else by that of its group.
pub open spec fn interval_of(group: RuleGroupView, rule: RuleView) -> u64 {
    let own = match rule {
        RuleView::Recording(spec) => spec.interval_secs,
        RuleView::Alert(spec) => spec.interval_secs,
    };
    match own {
        Some(secs) => secs,
        None => group.interval_secs,
    }
}

/// How long an alert waits before it fires; a recording rule has none.
pub open spec fn for_of(rule: RuleView) -> Option<u64> {
    match rule {
        RuleView::Recording(_) => None,
        RuleView::Alert(spec) => Some(spec.for_secs),
    }
}

/// The labels of a rule.
pub open spec fn labels_of(rule: RuleView) -> TextsView {
    match rule {
        RuleView::Recording(spec) => spec.labels,
        RuleView::Alert(spec) => spec.labels,
    }
}

/// The annotations of a rule; a recording rule has none.
pub open spec fn annotations_of(rule: RuleView) -> TextsView {
    match rule {
        RuleView::Recording(_) => Map::empty(),
        RuleView::Alert(spec) => spec.annotations,
    }
}

/// The identifier of a rule: its tenant, its group, its kind and its name.
pub open spec fn id_of(group: RuleGroupView, rule: RuleView) -> Seq<char> {
    group.tenant_id + "/"@ + group.name + "/"@ + kind_of(rule) + "/"@ + name_of(rule)
}

/// The name of a rule.
pub fn rule_name(rule: &RuleSpec) -> (name: &str)
    ensures
        name@ == name_of(rule@),
{
    match rule {
        RuleSpec::Recording(spec) => spec.record.as_str(),
        RuleSpec::Alert(spec) => spec.alert.as_str(),
    }
}

/// The kind of a rule.
pub fn rule_kind(rule: &RuleSpec) -> (kind: &'static str)
    ensures
        kind@ == kind_of(rule@),
{
    match rule {
        RuleSpec::Recording(_) => "recording",
        RuleSpec::Alert(_) => "alert",
    }
}

/// The expression of a rule.
pub fn rule_expr(rule: &RuleSpec) -> (expr: &str)
    ensures
        expr@ == expr_of(rule@),
{
    match rule {
        RuleSpec::Recording(spec) => spec.expr.as_str(),
        RuleSpec::Alert(spec) => spec.expr.as_str(),
    }
}

/// How often a rule is evaluated.
pub fn rule_interval_secs(group: &RuleGroupSpec, rule: &RuleSpec) -> (secs: u64)
    ensures
        secs == interval_of(group@, rule@),
{
    let own = match rule {
        RuleSpec::Recording(spec) => spec.interval_secs,
        RuleSpec::Alert(spec) => spec.interval_secs,
    };
    match own {
        Some(secs) => secs,
        None => group.interval_secs,
    }
}

/// How long an alert waits before it fires.
pub fn rule_for_secs(rule: &RuleSpec) -> (secs: Option<u64>)
    ensures
        secs == for_of(rule@),
{
    match rule {
        RuleSpec::Recording(_) => None,
        RuleSpec::Alert(spec) => Some(spec.for_secs),
    }
}

/// The labels of a rule.
pub fn rule_labels(rule: &RuleSpec) -> (labels: &Texts)
    ensures
        labels@ == labels_of(rule@),
{
    match rule {
        RuleSpec::Recording(spec) => &spec.labels,
        RuleSpec::Alert(spec) => &spec.labels,
    }
}

/// The annotations of a rule, if its kind has any.
pub fn rule_annotations(rule: &RuleSpec) -> (annotations: Option<&Texts>)
    ensures
        match annotations {
            Some(texts) => texts@ == annotations_of(rule@),
            None => annotations_of(rule@) == Map::<Seq<char>, Seq<char>>::empty(),
        },
{
    match rule {
        RuleSpec::Recording(_) => None,
        RuleSpec::Alert(spec) => Some(&spec.annotations),
    }
}

/// The identifier of a rule.
pub fn rule_id(group: &RuleGroupSpec, rule: &RuleSpec) -> (id: String)
    ensures
        id@ == id_of(group@, rule@),
{
    let owner = text::text4(group.tenant_id.as_str(), "/", group.name.as_str(), "/");
    let id = text::text4(owner.as_str(), rule_kind(rule), "/", rule_name(rule));
    text::owned(id.as_str())
}

} // verus!
