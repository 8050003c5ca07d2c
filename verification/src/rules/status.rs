//! What is shown of rules: the groups with what is known of each rule, and the counters.

use vstd::prelude::*;

use crate::ordered;
use crate::ordered::KeyMap;
use crate::rules::accounting::RulesStoreAccounting;
use crate::rules::limits::RulesStoreLimits;
use crate::rules::types;
use crate::rules::types::AlertInstanceState;
use crate::rules::types::AlertInstanceStatus;
use crate::rules::types::AlertInstanceView;
use crate::rules::types::PersistedRuleRuntimeState;
use crate::rules::types::RuleEvaluationOutcome;
use crate::rules::types::RuleGroupSpec;
use crate::rules::types::RuleGroupView;
use crate::rules::types::RuleSpec;
use crate::rules::types::RuleView;
use crate::rules::types::RulesStateView;
use crate::rules::types::RuntimeMap;
use crate::rules::types::RuntimeView;
use crate::rules::types::Texts;
use crate::rules::types::TextsView;
use crate::sizes;
use crate::stable;
use crate::text;

verus! {

/// What is shown of a rule.
#[derive(Debug)]
pub struct RuleStatusSnapshot {
    pub id: String,
    pub name: String,
    pub kind: String,
    pub expr: String,
    pub interval_secs: u64,
    pub for_secs: Option<u64>,
    pub labels: Texts,
    pub annotations: Texts,
    pub last_eval_timestamp: Option<i64>,
    pub last_eval_unix_ms: Option<u64>,
    pub last_success_unix_ms: Option<u64>,
    pub last_duration_ms: u64,
    pub last_error: Option<String>,
    pub last_sample_count: u64,
    pub last_recorded_rows: u64,
    pub state: String,
    pub alert_instances: Vec<AlertInstanceState>,
}

/// What is shown of a rule, as a plain value.
#[verifier::ext_equal]
pub struct RuleStatusView {
    pub id: Seq<char>,
    pub name: Seq<char>,
    pub kind: Seq<char>,
    pub expr: Seq<char>,
    pub interval_secs: u64,
    pub for_secs: Option<u64>,
    pub labels: TextsView,
    pub annotations: TextsView,
    pub last_eval_timestamp: Option<i64>,
    pub last_eval_unix_ms: Option<u64>,
    pub last_success_unix_ms: Option<u64>,
    pub last_duration_ms: u64,
    pub last_error: Option<Seq<char>>,
    pub last_sample_count: u64,
    pub last_recorded_rows: u64,
    pub state: Seq<char>,
    pub alert_instances: Seq<AlertInstanceView>,
}

impl View for RuleStatusSnapshot {
    type V = RuleStatusView;

    open spec fn view(&self) -> RuleStatusView {
        RuleStatusView {
            id: self.id@,
            name: self.name@,
            kind: self.kind@,
            expr: self.expr@,
            interval_secs: self.interval_secs,
            for_secs: self.for_secs,
            labels: self.labels@,
            annotations: self.annotations@,
            last_eval_timestamp: self.last_eval_timestamp,
            last_eval_unix_ms: self.last_eval_unix_ms,
            last_success_unix_ms: self.last_success_unix_ms,
            last_duration_ms: self.last_duration_ms,
            last_error: text::opt_text(self.last_error),
            last_sample_count: self.last_sample_count,
            last_recorded_rows: self.last_recorded_rows,
            state: self.state@,
            alert_instances: stable::views(self.alert_instances@),
        }
    }
}

/// What is shown of a group.
#[derive(Debug)]
pub struct RuleGroupStatusSnapshot {
    pub name: String,
    pub tenant_id: String,
    pub interval_secs: u64,
    pub labels: Texts,
    pub rules: Vec<RuleStatusSnapshot>,
}

/// What is shown of a group, as a plain value.
#[verifier::ext_equal]
pub struct RuleGroupStatusView {
    pub name: Seq<char>,
    pub tenant_id: Seq<char>,
    pub interval_secs: u64,
    pub labels: TextsView,
    pub rules: Seq<RuleStatusView>,
}

impl View for RuleGroupStatusSnapshot {
    type V = RuleGroupStatusView;

    open spec fn view(&self) -> RuleGroupStatusView {
        RuleGroupStatusView {
            name: self.name@,
            tenant_id: self.tenant_id@,
            interval_secs: self.interval_secs,
            labels: self.labels@,
            rules: stable::views(self.rules@),
        }
    }
}

/// The counters of the scheduler.
#[derive(Debug)]
pub struct RulesRuntimeMetrics {
    pub scheduler_runs_total: u64,
    pub scheduler_skipped_not_leader_total: u64,
    pub scheduler_skipped_inflight_total: u64,
    pub evaluated_rules_total: u64,
    pub evaluation_failures_total: u64,
    pub recording_rows_written_total: u64,
    pub last_run_unix_ms: Option<u64>,
    pub last_error: Option<String>,
}

/// The counters of the scheduler as plain values.
#[verifier::ext_equal]
pub struct RuntimeMetricsView {
    pub scheduler_runs_total: u64,
    pub scheduler_skipped_not_leader_total: u64,
    pub scheduler_skipped_inflight_total: u64,
    pub evaluated_rules_total: u64,
    pub evaluation_failures_total: u64,
    pub recording_rows_written_total: u64,
    pub last_run_unix_ms: Option<u64>,
    pub last_error: Option<Seq<char>>,
}

impl View for RulesRuntimeMetrics {
    type V = RuntimeMetricsView;

    open spec fn view(&self) -> RuntimeMetricsView {
        RuntimeMetricsView {
            scheduler_runs_total: self.scheduler_runs_total,
            scheduler_skipped_not_leader_total: self.scheduler_skipped_not_leader_total,
            scheduler_skipped_inflight_total: self.scheduler_skipped_inflight_total,
            evaluated_rules_total: self.evaluated_rules_total,
            evaluation_failures_total: self.evaluation_failures_total,
            recording_rows_written_total: self.recording_rows_written_total,
            last_run_unix_ms: self.last_run_unix_ms,
            last_error: text::opt_text(self.last_error),
        }
    }
}

/// Counters that have counted nothing.
pub open spec fn fresh_metrics() -> RuntimeMetricsView {
    RuntimeMetricsView {
        scheduler_runs_total: 0,
        scheduler_skipped_not_leader_total: 0,
        scheduler_skipped_inflight_total: 0,
        evaluated_rules_total: 0,
        evaluation_failures_total: 0,
        recording_rows_written_total: 0,
        last_run_unix_ms: None,
        last_error: None,
    }
}

impl RulesRuntimeMetrics {
    /// Counters that have counted nothing.
    pub fn new() -> (metrics: RulesRuntimeMetrics)
        ensures
            metrics@ == fresh_metrics(),
    {
        RulesRuntimeMetrics {
            scheduler_runs_total: 0,
            scheduler_skipped_not_leader_total: 0,
            scheduler_skipped_inflight_total: 0,
            evaluated_rules_total: 0,
            evaluation_failures_total: 0,
            recording_rows_written_total: 0,
            last_run_unix_ms: None,
            last_error: None,
        }
    }
}

/// What is shown of the counters.
#[derive(Debug)]
pub struct RulesMetricsSnapshot {
    pub scheduler_runs_total: u64,
    pub scheduler_skipped_not_leader_total: u64,
    pub scheduler_skipped_inflight_total: u64,
    pub evaluated_rules_total: u64,
    pub evaluation_failures_total: u64,
    pub recording_rows_written_total: u64,
    pub last_run_unix_ms: Option<u64>,
    pub last_error: Option<String>,
    pub configured_groups: u64,
    pub configured_rules: u64,
    pub pending_alerts: u64,
    pub firing_alerts: u64,
    pub local_scheduler_active: bool,
    pub retained_state_bytes: u64,
    pub peak_retained_state_bytes: u64,
    pub durable_file_bytes: u64,
    pub peak_startup_transient_bytes: u64,
    pub peak_replacement_transient_bytes: u64,
    pub peak_runtime_update_transient_bytes: u64,
    pub peak_snapshot_status_bytes: u64,
    pub peak_snapshot_file_bytes: u64,
    pub limit_rejections_total: u64,
    pub startup_rejections_total: u64,
    pub replacement_rejections_total: u64,
    pub runtime_update_rejections_total: u64,
    pub snapshot_rejections_total: u64,
    pub persistence_failures_total: u64,
}

/// What is shown of the counters, as plain values.
#[verifier::ext_equal]
pub struct RulesMetricsView {
    pub runtime: RuntimeMetricsView,
    pub counts: RuleCounts,
    pub local_scheduler_active: bool,
    pub accounting: RulesStoreAccounting,
}

/// How many groups, rules, waiting alerts and firing alerts there are.
#[derive(Debug, Clone, Copy, PartialEq, Eq, Structural)]
pub struct RuleCounts {
    pub configured_groups: u64,
    pub configured_rules: u64,
    pub pending_alerts: u64,
    pub firing_alerts: u64,
}

impl View for RulesMetricsSnapshot {
    type V = RulesMetricsView;

    open spec fn view(&self) -> RulesMetricsView {
        RulesMetricsView {
            runtime: RuntimeMetricsView {
                scheduler_runs_total: self.scheduler_runs_total,
                scheduler_skipped_not_leader_total: self.scheduler_skipped_not_leader_total,
                scheduler_skipped_inflight_total: self.scheduler_skipped_inflight_total,
                evaluated_rules_total: self.evaluated_rules_total,
                evaluation_failures_total: self.evaluation_failures_total,
                recording_rows_written_total: self.recording_rows_written_total,
                last_run_unix_ms: self.last_run_unix_ms,
                last_error: text::opt_text(self.last_error),
            },
            counts: RuleCounts {
                configured_groups: self.configured_groups,
                configured_rules: self.configured_rules,
                pending_alerts: self.pending_alerts,
                firing_alerts: self.firing_alerts,
            },
            local_scheduler_active: self.local_scheduler_active,
            accounting: RulesStoreAccounting {
                retained_state_bytes: self.retained_state_bytes,
                peak_retained_state_bytes: self.peak_retained_state_bytes,
                durable_file_bytes: self.durable_file_bytes,
                peak_startup_transient_bytes: self.peak_startup_transient_bytes,
                peak_replacement_transient_bytes: self.peak_replacement_transient_bytes,
                peak_runtime_update_transient_bytes: self.peak_runtime_update_transient_bytes,
                peak_snapshot_status_bytes: self.peak_snapshot_status_bytes,
                peak_snapshot_file_bytes: self.peak_snapshot_file_bytes,
                limit_rejections_total: self.limit_rejections_total,
                startup_rejections_total: self.startup_rejections_total,
                replacement_rejections_total: self.replacement_rejections_total,
                runtime_update_rejections_total: self.runtime_update_rejections_total,
                snapshot_rejections_total: self.snapshot_rejections_total,
                persistence_failures_total: self.persistence_failures_total,
            },
        }
    }
}

/// What is shown of the rules.
#[derive(Debug)]
pub struct RulesStatusSnapshot {
    pub scheduler_tick_ms: u64,
    pub max_recording_rows_per_eval: usize,
    pub max_alert_instances_per_rule: usize,
    pub store_limits: RulesStoreLimits,
    pub cluster_enabled: bool,
    pub cluster_leader: bool,
    pub metrics: RulesMetricsSnapshot,
    pub groups: Vec<RuleGroupStatusSnapshot>,
}

/// What is shown of the rules, as plain values.
#[verifier::ext_equal]
pub struct RulesStatusView {
    pub scheduler_tick_ms: u64,
    pub max_recording_rows_per_eval: usize,
    pub max_alert_instances_per_rule: usize,
    pub store_limits: RulesStoreLimits,
    pub cluster_enabled: bool,
    pub cluster_leader: bool,
    pub metrics: RulesMetricsView,
    pub groups: Seq<RuleGroupStatusView>,
}

impl View for RulesStatusSnapshot {
    type V = RulesStatusView;

    open spec fn view(&self) -> RulesStatusView {
        RulesStatusView {
            scheduler_tick_ms: self.scheduler_tick_ms,
            max_recording_rows_per_eval: self.max_recording_rows_per_eval,
            max_alert_instances_per_rule: self.max_alert_instances_per_rule,
            store_limits: self.store_limits,
            cluster_enabled: self.cluster_enabled,
            cluster_leader: self.cluster_leader,
            metrics: self.metrics@,
            groups: stable::views(self.groups@),
        }
    }
}

/// The counters for exposition, which hold no texts.
#[derive(Debug, Clone, Copy, PartialEq, Eq, Structural)]
pub struct RulesExpositionMetrics {
    pub scheduler_runs_total: u64,
    pub scheduler_skipped_not_leader_total: u64,
    pub scheduler_skipped_inflight_total: u64,
    pub evaluated_rules_total: u64,
    pub evaluation_failures_total: u64,
    pub recording_rows_written_total: u64,
    pub configured_groups: u64,
    pub configured_rules: u64,
    pub pending_alerts: u64,
    pub firing_alerts: u64,
    pub local_scheduler_active: bool,
    pub retained_state_bytes: u64,
    pub peak_retained_state_bytes: u64,
    pub durable_file_bytes: u64,
    pub peak_startup_transient_bytes: u64,
    pub peak_replacement_transient_bytes: u64,
    pub peak_runtime_update_transient_bytes: u64,
    pub peak_snapshot_status_bytes: u64,
    pub peak_snapshot_file_bytes: u64,
    pub limit_rejections_total: u64,
    pub startup_rejections_total: u64,
    pub replacement_rejections_total: u64,
    pub runtime_update_rejections_total: u64,
    pub snapshot_rejections_total: u64,
    pub persistence_failures_total: u64,
}

/// The counters for exposition, with what the runtime is held to.
#[derive(Debug, Clone, Copy, PartialEq, Eq, Structural)]
pub struct RulesExpositionSnapshot {
    pub scheduler_tick_ms: u64,
    pub max_recording_rows_per_eval: usize,
    pub max_alert_instances_per_rule: usize,
    pub store_limits: RulesStoreLimits,
    pub metrics: RulesExpositionMetrics,
}

/// The counters for exposition that these counters make.
pub open spec fn exposition(
    runtime: RuntimeMetricsView,
    counts: RuleCounts,
    local_scheduler_active: bool,
    accounting: RulesStoreAccounting,
) -> RulesExpositionMetrics {
    RulesExpositionMetrics {
        scheduler_runs_total: runtime.scheduler_runs_total,
        scheduler_skipped_not_leader_total: runtime.scheduler_skipped_not_leader_total,
        scheduler_skipped_inflight_total: runtime.scheduler_skipped_inflight_total,
        evaluated_rules_total: runtime.evaluated_rules_total,
        evaluation_failures_total: runtime.evaluation_failures_total,
        recording_rows_written_total: runtime.recording_rows_written_total,
        configured_groups: counts.configured_groups,
        configured_rules: counts.configured_rules,
        pending_alerts: counts.pending_alerts,
        firing_alerts: counts.firing_alerts,
        local_scheduler_active,
        retained_state_bytes: accounting.retained_state_bytes,
        peak_retained_state_bytes: accounting.peak_retained_state_bytes,
        durable_file_bytes: accounting.durable_file_bytes,
        peak_startup_transient_bytes: accounting.peak_startup_transient_bytes,
        peak_replacement_transient_bytes: accounting.peak_replacement_transient_bytes,
        peak_runtime_update_transient_bytes: accounting.peak_runtime_update_transient_bytes,
        peak_snapshot_status_bytes: accounting.peak_snapshot_status_bytes,
        peak_snapshot_file_bytes: accounting.peak_snapshot_file_bytes,
        limit_rejections_total: accounting.limit_rejections_total,
        startup_rejections_total: accounting.startup_rejections_total,
        replacement_rejections_total: accounting.replacement_rejections_total,
        runtime_update_rejections_total: accounting.runtime_update_rejections_total,
        snapshot_rejections_total: accounting.snapshot_rejections_total,
        persistence_failures_total: accounting.persistence_failures_total,
    }
}

/// The counters for exposition that these counters make.
pub fn exposition_metrics(
    runtime: &RulesRuntimeMetrics,
    counts: RuleCounts,
    local_scheduler_active: bool,
    accounting: &RulesStoreAccounting,
) -> (metrics: RulesExpositionMetrics)
    ensures
        metrics == exposition(runtime@, counts, local_scheduler_active, *accounting),
{
    RulesExpositionMetrics {
        scheduler_runs_total: runtime.scheduler_runs_total,
        scheduler_skipped_not_leader_total: runtime.scheduler_skipped_not_leader_total,
        scheduler_skipped_inflight_total: runtime.scheduler_skipped_inflight_total,
        evaluated_rules_total: runtime.evaluated_rules_total,
        evaluation_failures_total: runtime.evaluation_failures_total,
        recording_rows_written_total: runtime.recording_rows_written_total,
        configured_groups: counts.configured_groups,
        configured_rules: counts.configured_rules,
        pending_alerts: counts.pending_alerts,
        firing_alerts: counts.firing_alerts,
        local_scheduler_active,
        retained_state_bytes: accounting.retained_state_bytes,
        peak_retained_state_bytes: accounting.peak_retained_state_bytes,
        durable_file_bytes: accounting.durable_file_bytes,
        peak_startup_transient_bytes: accounting.peak_startup_transient_bytes,
        peak_replacement_transient_bytes: accounting.peak_replacement_transient_bytes,
        peak_runtime_update_transient_bytes: accounting.peak_runtime_update_transient_bytes,
        peak_snapshot_status_bytes: accounting.peak_snapshot_status_bytes,
        peak_snapshot_file_bytes: accounting.peak_snapshot_file_bytes,
        limit_rejections_total: accounting.limit_rejections_total,
        startup_rejections_total: accounting.startup_rejections_total,
        replacement_rejections_total: accounting.replacement_rejections_total,
        runtime_update_rejections_total: accounting.runtime_update_rejections_total,
        snapshot_rejections_total: accounting.snapshot_rejections_total,
        persistence_failures_total: accounting.persistence_failures_total,
    }
}

impl Default for RulesExpositionMetrics {
    fn default() -> (metrics: RulesExpositionMetrics)
        ensures
            metrics == exposition(
                (RuntimeMetricsView {
                    scheduler_runs_total: 0,
                    scheduler_skipped_not_leader_total: 0,
                    scheduler_skipped_inflight_total: 0,
                    evaluated_rules_total: 0,
                    evaluation_failures_total: 0,
                    recording_rows_written_total: 0,
                    last_run_unix_ms: None,
                    last_error: None,
                }),
                (RuleCounts { configured_groups: 0, configured_rules: 0, pending_alerts: 0, firing_alerts: 0 }),
                true,
                RulesStoreAccounting::zero(),
            ),
    {
        RulesExpositionMetrics {
            scheduler_runs_total: 0,
            scheduler_skipped_not_leader_total: 0,
            scheduler_skipped_inflight_total: 0,
            evaluated_rules_total: 0,
            evaluation_failures_total: 0,
            recording_rows_written_total: 0,
            configured_groups: 0,
            configured_rules: 0,
            pending_alerts: 0,
            firing_alerts: 0,
            local_scheduler_active: true,
            retained_state_bytes: 0,
            peak_retained_state_bytes: 0,
            durable_file_bytes: 0,
            peak_startup_transient_bytes: 0,
            peak_replacement_transient_bytes: 0,
            peak_runtime_update_transient_bytes: 0,
            peak_snapshot_status_bytes: 0,
            peak_snapshot_file_bytes: 0,
            limit_rejections_total: 0,
            startup_rejections_total: 0,
            replacement_rejections_total: 0,
            runtime_update_rejections_total: 0,
            snapshot_rejections_total: 0,
            persistence_failures_total: 0,
        }
    }
}

/// What is shown of these counters.
pub open spec fn shown_metrics(
    runtime: RuntimeMetricsView,
    counts: RuleCounts,
    local_scheduler_active: bool,
    accounting: RulesStoreAccounting,
) -> RulesMetricsView {
    RulesMetricsView { runtime, counts, local_scheduler_active, accounting }
}

/// What is shown of these counters.
pub fn metrics_snapshot(
    runtime: &RulesRuntimeMetrics,
    counts: RuleCounts,
    local_scheduler_active: bool,
    accounting: &RulesStoreAccounting,
) -> (metrics: RulesMetricsSnapshot)
    ensures
        metrics@ == shown_metrics(runtime@, counts, local_scheduler_active, *accounting),
{
    RulesMetricsSnapshot {
        scheduler_runs_total: runtime.scheduler_runs_total,
        scheduler_skipped_not_leader_total: runtime.scheduler_skipped_not_leader_total,
        scheduler_skipped_inflight_total: runtime.scheduler_skipped_inflight_total,
        evaluated_rules_total: runtime.evaluated_rules_total,
        evaluation_failures_total: runtime.evaluation_failures_total,
        recording_rows_written_total: runtime.recording_rows_written_total,
        last_run_unix_ms: runtime.last_run_unix_ms,
        last_error: text::owned_opt(&runtime.last_error),
        configured_groups: counts.configured_groups,
        configured_rules: counts.configured_rules,
        pending_alerts: counts.pending_alerts,
        firing_alerts: counts.firing_alerts,
        local_scheduler_active,
        retained_state_bytes: accounting.retained_state_bytes,
        peak_retained_state_bytes: accounting.peak_retained_state_bytes,
        durable_file_bytes: accounting.durable_file_bytes,
        peak_startup_transient_bytes: accounting.peak_startup_transient_bytes,
        peak_replacement_transient_bytes: accounting.peak_replacement_transient_bytes,
        peak_runtime_update_transient_bytes: accounting.peak_runtime_update_transient_bytes,
        peak_snapshot_status_bytes: accounting.peak_snapshot_status_bytes,
        peak_snapshot_file_bytes: accounting.peak_snapshot_file_bytes,
        limit_rejections_total: accounting.limit_rejections_total,
        startup_rejections_total: accounting.startup_rejections_total,
        replacement_rejections_total: accounting.replacement_rejections_total,
        runtime_update_rejections_total: accounting.runtime_update_rejections_total,
        snapshot_rejections_total: accounting.snapshot_rejections_total,
        persistence_failures_total: accounting.persistence_failures_total,
    }
}

/// Whether an alert of a list is in a state.
pub open spec fn any_in_state(
    instances: Seq<AlertInstanceView>,
    state: AlertInstanceStatus,
) -> bool {
    exists|i: int| 0 <= i < instances.len() && (#[trigger] instances[i]).state == state
}

/// What is said of the state of a rule.
pub open spec fn state_word(rule: RuleView, runtime: RuntimeView) -> Seq<char> {
    if runtime.last_error is Some && runtime.last_outcome == Some(RuleEvaluationOutcome::Error) {
        "error"@
    } else {
        match rule {
            RuleView::Recording(_) => if runtime.last_eval_timestamp is Some {
                "ok"@
            } else {
                "inactive"@
            },
            RuleView::Alert(_) => if any_in_state(
                runtime.alert_instances,
                AlertInstanceStatus::Firing,
            ) {
                "firing"@
            } else if any_in_state(runtime.alert_instances, AlertInstanceStatus::Pending) {
                "pending"@
            } else {
                "inactive"@
            },
        }
    }
}

fn any_instance(instances: &Vec<AlertInstanceState>, state: AlertInstanceStatus) -> (found: bool)
    ensures
        found == any_in_state(stable::views(instances@), state),
{
    let ghost all = stable::views(instances@);
    let mut i: usize = 0;
    while i < instances.len()
        invariant
            i <= instances@.len(),
            all == stable::views(instances@),
            forall|k: int| 0 <= k < i ==> (#[trigger] all[k]).state != state,
        decreases instances@.len() - i,
    {
        if instances[i].state == state {
            proof {
                assert(all[i as int].state == state);
            }
            return true;
        }
        i = i + 1;
    }
    false
}

/// What is said of the state of a rule.
pub fn summarize_rule_state_str(rule: &RuleSpec, state: &PersistedRuleRuntimeState) -> (word:
    &'static str)
    ensures
        word@ == state_word(rule@, state@),
{
    let failed = match state.last_outcome {
        Some(RuleEvaluationOutcome::Error) => true,
        _ => false,
    };
    if state.last_error.is_some() && failed {
        return "error";
    }
    match rule {
        RuleSpec::Recording(_) => {
            if state.last_eval_timestamp.is_some() {
                "ok"
            } else {
                "inactive"
            }
        },
        RuleSpec::Alert(_) => {
            if any_instance(&state.alert_instances, AlertInstanceStatus::Firing) {
                "firing"
            } else if any_instance(&state.alert_instances, AlertInstanceStatus::Pending) {
                "pending"
            } else {
                "inactive"
            }
        },
    }
}

/// What is known of a rule, or what is known of one that was never evaluated.
pub open spec fn known_of(runtime: Map<Seq<char>, RuntimeView>, id: Seq<char>) -> RuntimeView {
    if runtime.contains_key(id) {
        runtime[id]
    } else {
        types::fresh_runtime(0)
    }
}

/// What is shown of a rule.
pub open spec fn shown_rule(
    group: RuleGroupView,
    rule: RuleView,
    runtime: Map<Seq<char>, RuntimeView>,
) -> RuleStatusView {
    let id = types::id_of(group, rule);
    let known = known_of(runtime, id);
    RuleStatusView {
        id,
        name: types::name_of(rule),
        kind: types::kind_of(rule),
        expr: types::expr_of(rule),
        interval_secs: types::interval_of(group, rule),
        for_secs: types::for_of(rule),
        labels: types::labels_of(rule),
        annotations: types::annotations_of(rule),
        last_eval_timestamp: known.last_eval_timestamp,
        last_eval_unix_ms: known.last_eval_unix_ms,
        last_success_unix_ms: known.last_success_unix_ms,
        last_duration_ms: known.last_duration_ms,
        last_error: known.last_error,
        last_sample_count: known.last_sample_count,
        last_recorded_rows: known.last_recorded_rows,
        state: state_word(rule, known),
        alert_instances: known.alert_instances,
    }
}

/// What is shown of a group.
pub open spec fn shown_group(
    group: RuleGroupView,
    runtime: Map<Seq<char>, RuntimeView>,
) -> RuleGroupStatusView {
    RuleGroupStatusView {
        name: group.name,
        tenant_id: group.tenant_id,
        interval_secs: group.interval_secs,
        labels: group.labels,
        rules: Seq::new(group.rules.len(), |i: int| shown_rule(group, group.rules[i], runtime)),
    }
}

/// What is shown of groups.
pub open spec fn shown_groups(
    groups: Seq<RuleGroupView>,
    runtime: Map<Seq<char>, RuntimeView>,
) -> Seq<RuleGroupStatusView> {
    Seq::new(groups.len(), |i: int| shown_group(groups[i], runtime))
}

fn show_rule(group: &RuleGroupSpec, rule: &RuleSpec, runtime: &RuntimeMap) -> (shown:
    RuleStatusSnapshot)
    ensures
        shown@ == shown_rule(group@, rule@, runtime@),
{
    let id = types::rule_id(group, rule);
    let annotations = match types::rule_annotations(rule) {
        Some(texts) => texts.copied(),
        None => KeyMap::new(),
    };
    match runtime.get(&id) {
        Some(known) => RuleStatusSnapshot {
            id,
            name: text::owned(types::rule_name(rule)),
            kind: text::owned(types::rule_kind(rule)),
            expr: text::owned(types::rule_expr(rule)),
            interval_secs: types::rule_interval_secs(group, rule),
            for_secs: types::rule_for_secs(rule),
            labels: types::rule_labels(rule).copied(),
            annotations,
            last_eval_timestamp: known.last_eval_timestamp,
            last_eval_unix_ms: known.last_eval_unix_ms,
            last_success_unix_ms: known.last_success_unix_ms,
            last_duration_ms: known.last_duration_ms,
            last_error: text::owned_opt(&known.last_error),
            last_sample_count: known.last_sample_count,
            last_recorded_rows: known.last_recorded_rows,
            state: text::owned(summarize_rule_state_str(rule, known)),
            alert_instances: types::copied_list(&known.alert_instances),
        },
        None => {
            let instances: Vec<AlertInstanceState> = Vec::new();
            proof {
                assert(stable::views(instances@) =~= Seq::empty());
            }
            RuleStatusSnapshot {
                id,
                name: text::owned(types::rule_name(rule)),
                kind: text::owned(types::rule_kind(rule)),
                expr: text::owned(types::rule_expr(rule)),
                interval_secs: types::rule_interval_secs(group, rule),
                for_secs: types::rule_for_secs(rule),
                labels: types::rule_labels(rule).copied(),
                annotations,
                last_eval_timestamp: None,
                last_eval_unix_ms: None,
                last_success_unix_ms: None,
                last_duration_ms: 0,
                last_error: None,
                last_sample_count: 0,
                last_recorded_rows: 0,
                state: text::owned("inactive"),
                alert_instances: instances,
            }
        },
    }
}

/// What is shown of a group.
pub fn build_group_snapshot(group: &RuleGroupSpec, runtime: &RuntimeMap) -> (shown:
    RuleGroupStatusSnapshot)
    ensures
        shown@ == shown_group(group@, runtime@),
{
    let mut rules: Vec<RuleStatusSnapshot> = Vec::with_capacity(group.rules.len());
    let mut i: usize = 0;
    while i < group.rules.len()
        invariant
            i <= group.rules@.len(),
            rules@.len() == i,
            forall|k: int|
                0 <= k < i ==> (#[trigger] rules@[k])@ == shown_rule(
                    group@,
                    group.rules@[k]@,
                    runtime@,
                ),
        decreases group.rules@.len() - i,
    {
        rules.push(show_rule(group, &group.rules[i], runtime));
        i = i + 1;
    }
    let shown = RuleGroupStatusSnapshot {
        name: text::owned(group.name.as_str()),
        tenant_id: text::owned(group.tenant_id.as_str()),
        interval_secs: group.interval_secs,
        labels: group.labels.copied(),
        rules,
    };
    assert(shown@.rules =~= shown_group(group@, runtime@).rules);
    shown
}

/// The alerts of a list in a state.
pub open spec fn count_in_state(
    instances: Seq<AlertInstanceView>,
    state: AlertInstanceStatus,
) -> nat
    decreases instances.len(),
{
    if instances.len() == 0 {
        0
    } else {
        count_in_state(instances.drop_last(), state) + if instances.last().state == state {
            1nat
        } else {
            0
        }
    }
}

/// The alerts of rules in a state.
pub open spec fn alerts_in_state(
    entries: Seq<(Seq<char>, RuntimeView)>,
    state: AlertInstanceStatus,
) -> nat
    decreases entries.len(),
{
    if entries.len() == 0 {
        0
    } else {
        alerts_in_state(entries.drop_last(), state) + count_in_state(
            entries.last().1.alert_instances,
            state,
        )
    }
}

/// The number of rules of groups.
pub open spec fn rules_in(groups: Seq<RuleGroupView>) -> nat
    decreases groups.len(),
{
    if groups.len() == 0 {
        0
    } else {
        rules_in(groups.drop_last()) + groups.last().rules.len()
    }
}

/// How many groups, rules, waiting alerts and firing alerts a state has.
pub open spec fn counts_of(state: RulesStateView) -> RuleCounts {
    let entries = ordered::listing::<String, RuntimeView>(state.runtime);
    RuleCounts {
        configured_groups: sizes::sat64(state.groups.len() as int),
        configured_rules: sizes::sat64(rules_in(state.groups) as int),
        pending_alerts: sizes::sat64(
            alerts_in_state(entries, AlertInstanceStatus::Pending) as int,
        ),
        firing_alerts: sizes::sat64(alerts_in_state(entries, AlertInstanceStatus::Firing) as int),
    }
}

} // verus!
