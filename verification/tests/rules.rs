//! Rules: their limits, their store, their evaluation and what is shown of them.

use std::cell::Cell;
use std::cell::RefCell;

use tsink_server::budget::QueryBudgetError;
use tsink_server::budget::QueryLimitExceeded;
use tsink_server::budget::QueryLimitReason;
use tsink_server::ordered::Copied;
use tsink_server::ordered::KeyMap;
use tsink_server::remote_read::results::PointValue;
use tsink_server::rules::accounting::RulesLimitSurface;
use tsink_server::rules::accounting::RulesStoreAccounting;
use tsink_server::rules::accounting::RulesStoreError;
use tsink_server::rules::alert::evaluate_alert_rule;
use tsink_server::rules::alert::evaluate_measured_samples;
use tsink_server::rules::cluster::current_cluster_ring_version;
use tsink_server::rules::cluster::membership_from_control_state;
use tsink_server::rules::cluster::scheduler_enabled_here;
use tsink_server::rules::cluster::ControlNode;
use tsink_server::rules::fingerprint::fnv1a;
use tsink_server::rules::fingerprint::rule_fingerprint;
use tsink_server::rules::input::DurationInput;
use tsink_server::rules::input::DurationUnit;
use tsink_server::rules::input::RuleGroupInput;
use tsink_server::rules::input::RuleInput;
use tsink_server::rules::input::RulesApplyRequest;
use tsink_server::rules::labels::merged_rule_labels;
use tsink_server::rules::limits::EnvValue;
use tsink_server::rules::limits::RulesEnvironment;
use tsink_server::rules::limits::RulesRuntimeConfig;
use tsink_server::rules::limits::RulesStoreLimits;
use tsink_server::rules::limits::MAX_BODY_BYTES;
use tsink_server::rules::load::accept_measured;
use tsink_server::rules::load::check_rules_file;
use tsink_server::rules::load::load_rules_store_state;
use tsink_server::rules::load::preflight_rules_json;
use tsink_server::rules::load::PersistedRulesStore;
use tsink_server::rules::load::RulesDecodeError;
use tsink_server::rules::load::RULES_STARTUP_MAX_JSON_DEPTH;
use tsink_server::rules::model::modeled_groups_bytes;
use tsink_server::rules::recording::recorded_state;
use tsink_server::rules::recording::recording_rows;
use tsink_server::rules::recording::PromqlValue;
use tsink_server::rules::recording::Row;
use tsink_server::rules::recording::Sample;
use tsink_server::rules::runtime::RulesRuntime;
use tsink_server::rules::runtime::RulesStatusProjectionError;
use tsink_server::rules::schedule::RuleStep;
use tsink_server::rules::schedule::RulesRun;
use tsink_server::rules::schedule::RulesRunTriggerError;
use tsink_server::rules::schedule::RunStart;
use tsink_server::rules::status::RulesExpositionMetrics;
use tsink_server::rules::status::RulesExpositionSnapshot;
use tsink_server::rules::status::RulesStatusSnapshot;
use tsink_server::rules::store::RulesApplyError;
use tsink_server::rules::store::RulesStore;
use tsink_server::rules::time::align_eval_timestamp;
use tsink_server::rules::time::can_align;
use tsink_server::rules::time::duration_units;
use tsink_server::rules::time::TimestampPrecision;
use tsink_server::rules::types::rule_expr;
use tsink_server::rules::types::rule_id;
use tsink_server::rules::types::AlertInstanceState;
use tsink_server::rules::types::AlertInstanceStatus;
use tsink_server::rules::types::AlertRuleSpec;
use tsink_server::rules::types::PersistedRuleRuntimeState;
use tsink_server::rules::types::PersistedRulesStoreState;
use tsink_server::rules::types::RecordingRuleSpec;
use tsink_server::rules::types::RuleEvaluationOutcome;
use tsink_server::rules::types::RuleGroupSpec;
use tsink_server::rules::types::RuleSpec;
use tsink_server::rules::types::RuntimeMap;
use tsink_server::rules::types::Texts;
use tsink_server::rules::validate::check_retained;
use tsink_server::rules::validate::RuleChecks;
use tsink_server::rules::validate::RULES_MAX_DIAGNOSTIC_BYTES;
use tsink_server::series::Label;

const TENANT_LABEL: &str = "__tsink_tenant__";

fn texts(pairs: &[(&str, &str)]) -> Texts {
    let mut map = KeyMap::new();
    for (name, value) in pairs {
        map.insert(name.to_string(), value.to_string());
    }
    map
}

fn checks(groups: &[RuleGroupSpec]) -> RuleChecks {
    RuleChecks {
        tenant_label: TENANT_LABEL.to_string(),
        tenants: groups.iter().map(|_| true).collect(),
        expressions: groups
            .iter()
            .map(|group| group.rules.iter().map(|rule| !rule_expr(rule).ends_with('{')).collect())
            .collect(),
    }
}

fn encode_state(state: &PersistedRulesStoreState, over: &RuntimeMap) -> Option<Vec<u8>> {
    let quoted = |text: &str| serde_json::to_string(text).expect("a text is valid JSON");
    let mut out = String::from("{\"groups\":[");
    for (index, group) in state.groups.iter().enumerate() {
        if index > 0 {
            out.push(',');
        }
        out.push_str(&quoted(&format!("{group:?}{group:?}")));
    }
    out.push_str("],\"runtime\":{");
    for index in 0..state.runtime.len() {
        if index > 0 {
            out.push(',');
        }
        let id = state.runtime.key_at(index);
        let known = over.get(id).unwrap_or(state.runtime.value_at(index));
        out.push_str(&format!("{}:{}", quoted(id), known.alert_instances.len()));
    }
    out.push_str("}}\n");
    Some(out.into_bytes())
}

fn written(_bytes: &Vec<u8>) -> Result<(), String> {
    Ok(())
}

fn go_on() -> Result<(), QueryBudgetError> {
    Ok(())
}

fn grant(_bytes: u64) -> Result<(), QueryBudgetError> {
    Ok(())
}

fn sample_recording_group(name: &str, record: &str) -> RuleGroupSpec {
    RuleGroupSpec {
        name: name.to_string(),
        tenant_id: "team-a".to_string(),
        interval_secs: 60,
        labels: KeyMap::new(),
        rules: vec![RuleSpec::Recording(RecordingRuleSpec {
            record: record.to_string(),
            expr: "source_metric".to_string(),
            interval_secs: None,
            labels: KeyMap::new(),
        })],
    }
}

fn sample_alert_group(name: &str, alert: &str) -> RuleGroupSpec {
    RuleGroupSpec {
        name: name.to_string(),
        tenant_id: "team-a".to_string(),
        interval_secs: 60,
        labels: KeyMap::new(),
        rules: vec![RuleSpec::Alert(AlertRuleSpec {
            alert: alert.to_string(),
            expr: "source_metric > 0".to_string(),
            interval_secs: None,
            for_secs: 0,
            labels: KeyMap::new(),
            annotations: KeyMap::new(),
        })],
    }
}

fn test_store_limits() -> RulesStoreLimits {
    RulesStoreLimits {
        max_groups: 8,
        max_rules_per_group: 8,
        max_rules_total: 32,
        max_alert_instances_per_rule: 32,
        max_labels_per_set: 8,
        max_label_set_bytes: 8 * 1024,
        max_name_bytes: 1024,
        max_expression_bytes: 8 * 1024,
        max_annotation_bytes: 8 * 1024,
        max_total_retained_state_bytes: 8 * 1024 * 1024,
        max_durable_file_bytes: 8 * 1024 * 1024,
        max_startup_transient_bytes: 32 * 1024 * 1024,
        max_replacement_transient_bytes: 32 * 1024 * 1024,
        max_runtime_update_transient_bytes: 16 * 1024 * 1024,
        max_snapshot_status_bytes: 16 * 1024 * 1024,
    }
}

fn open_store(durable: bool, limits: RulesStoreLimits) -> RulesStore {
    RulesStore::open_with_limits(
        durable,
        limits,
        PersistedRulesStoreState::empty(),
        0,
        0,
        RulesStoreAccounting::new(),
    )
    .expect("bounded store should open")
}

fn apply(store: &mut RulesStore, groups: Vec<RuleGroupSpec>) -> Result<(), RulesApplyError> {
    let checks = checks(&groups);
    store.apply_groups(groups, &checks, encode_state, written)
}

fn update(
    store: &mut RulesStore,
    updates: Vec<(String, PersistedRuleRuntimeState)>,
) -> Result<usize, RulesStoreError> {
    store.apply_runtime_updates(updates, encode_state, written)
}

fn config_with(limits: RulesStoreLimits) -> RulesRuntimeConfig {
    RulesRuntimeConfig {
        store_limits: limits,
        max_alert_instances_per_rule: limits.max_alert_instances_per_rule,
        ..RulesRuntimeConfig::default()
    }
}

fn open_runtime_on(store: RulesStore, limits: RulesStoreLimits) -> RulesRuntime {
    RulesRuntime::open_with_config(
        store,
        TimestampPrecision::Milliseconds,
        false,
        config_with(limits),
    )
    .expect("rules runtime should open")
}

fn open_runtime(limits: RulesStoreLimits) -> RulesRuntime {
    open_runtime_on(open_store(false, limits), limits)
}

fn open_durable_runtime(limits: RulesStoreLimits) -> RulesRuntime {
    open_runtime_on(open_store(true, limits), limits)
}

fn rich_status_projection_runtime() -> RulesRuntime {
    let mut runtime = open_runtime(test_store_limits());
    let group = RuleGroupSpec {
        name: "status-\u{2603}-group".to_string(),
        tenant_id: "team-\"quoted\"".to_string(),
        interval_secs: 45,
        labels: texts(&[("environment", "staging\\blue"), ("region", "central")]),
        rules: vec![
            RuleSpec::Recording(RecordingRuleSpec {
                record: "status_recording_one".to_string(),
                expr: "sum(source_metric{path=\"a\\\\b\"})".to_string(),
                interval_secs: Some(15),
                labels: texts(&[("recording_label", "value-one")]),
            }),
            RuleSpec::Alert(AlertRuleSpec {
                alert: "StatusAlertOne".to_string(),
                expr: "source_metric > 0".to_string(),
                interval_secs: None,
                for_secs: 30,
                labels: texts(&[("severity", "warning")]),
                annotations: texts(&[("summary", "snowman \u{2603} says \"hello\"")]),
            }),
            RuleSpec::Recording(RecordingRuleSpec {
                record: "status_recording_two".to_string(),
                expr: "max(secondary_metric)".to_string(),
                interval_secs: None,
                labels: texts(&[("zone", "z2")]),
            }),
            RuleSpec::Alert(AlertRuleSpec {
                alert: "StatusAlertTwo".to_string(),
                expr: "secondary_metric == 0".to_string(),
                interval_secs: Some(10),
                for_secs: 0,
                labels: texts(&[("severity", "critical")]),
                annotations: texts(&[(
                    "runbook",
                    "https://example.invalid/runbook?q=\"status\"",
                )]),
            }),
        ],
    };
    let alert_rule_id = rule_id(&group, &group.rules[1]);
    let recording_rule_id = rule_id(&group, &group.rules[0]);
    apply(&mut runtime.store, vec![group]).expect("rich rules group should apply");
    let instance = |key: &str, host: &str, state: AlertInstanceStatus| AlertInstanceState {
        key: key.to_string(),
        source_metric: "source_metric".to_string(),
        labels: vec![Label::new("host", host)],
        active_since_timestamp: 1_700_000_000_000,
        last_seen_timestamp: 1_700_000_001_000,
        firing_since_timestamp: match state {
            AlertInstanceStatus::Pending => None,
            AlertInstanceStatus::Firing => Some(1_700_000_000_500),
        },
        state,
        sample_type: "float".to_string(),
        sample_value: Some("1.5".to_string()),
    };
    runtime.store.state.runtime.insert(
        alert_rule_id,
        PersistedRuleRuntimeState {
            fingerprint: 41,
            last_eval_timestamp: Some(1_700_000_001_000),
            last_eval_unix_ms: Some(1_700_000_001_111),
            last_success_unix_ms: Some(1_700_000_001_222),
            last_duration_ms: 17,
            last_error: Some("diagnostic: escaped \\\"value\\\" \u{2603}".to_string()),
            last_sample_count: 2,
            last_recorded_rows: 0,
            last_outcome: Some(RuleEvaluationOutcome::Error),
            alert_instances: vec![
                instance("pending-key", "alpha", AlertInstanceStatus::Pending),
                instance("firing-key", "beta", AlertInstanceStatus::Firing),
            ],
        },
    );
    runtime.store.state.runtime.insert(
        recording_rule_id,
        PersistedRuleRuntimeState {
            last_eval_timestamp: Some(1_700_000_002_000),
            last_eval_unix_ms: Some(1_700_000_002_111),
            last_success_unix_ms: Some(1_700_000_002_222),
            last_duration_ms: 9,
            last_sample_count: 4,
            last_recorded_rows: 3,
            last_outcome: Some(RuleEvaluationOutcome::Success),
            ..PersistedRuleRuntimeState::fresh(42)
        },
    );
    runtime.metrics.scheduler_runs_total = 11;
    runtime.metrics.evaluated_rules_total = 19;
    runtime.metrics.evaluation_failures_total = 3;
    runtime.metrics.recording_rows_written_total = 7;
    runtime.metrics.last_run_unix_ms = Some(1_700_000_003_000);
    runtime.metrics.last_error = Some("scheduler diagnostic \u{2603}".to_string());
    runtime
}

fn shown(snapshot: &RulesStatusSnapshot) -> String {
    format!("{snapshot:?}")
}

#[test]
fn accounted_status_projection_preserves_rich_legacy_snapshot_bytes() {
    let mut runtime = rich_status_projection_runtime();
    let legacy = runtime.snapshot(true).expect("legacy status should build");
    let reserved = Cell::new(0u64);
    let (projected, accounted) = runtime
        .status_snapshot_with_execution(true, &go_on, grant, &|bytes: u64| {
            reserved.set(bytes);
            Ok(())
        })
        .expect("accounted rules status should build");
    assert_eq!(shown(&projected), shown(&legacy));
    assert_eq!(projected.groups[0].rules.len(), 4);
    assert_eq!(projected.groups[0].rules[1].state, "error");
    assert_eq!(projected.groups[0].rules[0].state, "ok");
    assert_eq!(projected.groups[0].rules[3].state, "inactive");
    assert_eq!(projected.groups[0].rules[0].interval_secs, 15);
    assert_eq!(projected.groups[0].rules[2].interval_secs, 45);
    assert_eq!(projected.groups[0].rules[2].for_secs, None);
    assert_eq!(projected.groups[0].rules[3].for_secs, Some(0));
    assert_eq!(projected.metrics.pending_alerts, 1);
    assert_eq!(projected.metrics.firing_alerts, 1);
    assert_eq!(projected.metrics.configured_rules, 4);
    assert_eq!(reserved.get(), accounted);
    assert!(accounted > 0);
}

#[test]
fn accounted_status_projection_enforces_exact_query_memory_peak() {
    let mut runtime = rich_status_projection_runtime();
    let peak = Cell::new(0u64);
    let (_, retained) = runtime
        .status_snapshot_with_execution(true, &go_on, grant, &|bytes: u64| {
            peak.set(peak.get().max(bytes));
            Ok(())
        })
        .expect("calibration status should build");
    let required = peak.get();
    assert!(required >= retained);
    assert!(retained > 0);

    let budget = |max: u64| {
        move |bytes: u64| {
            if bytes > max {
                Err(QueryBudgetError::LimitExceeded(QueryLimitExceeded {
                    reason: QueryLimitReason::PerQueryMemoryBytes,
                    limit: max,
                    current: 0,
                    requested: bytes,
                }))
            } else {
                Ok(())
            }
        }
    };
    let exact = budget(required);
    let (_, held) = runtime
        .status_snapshot_with_execution(true, &go_on, grant, &exact)
        .expect("the exact status projection peak should pass");
    assert_eq!(held, retained);
    let one_under = budget(required - 1);
    match runtime.status_snapshot_with_execution(true, &go_on, grant, &one_under) {
        Err(RulesStatusProjectionError::QueryBudget(QueryBudgetError::LimitExceeded(_))) => {}
        other => panic!("unexpected outcome {other:?}"),
    }
}

#[test]
fn accounted_status_projection_honors_precancellation_without_residue() {
    let mut runtime = rich_status_projection_runtime();
    let asked = Cell::new(0usize);
    let count = |_bytes: u64| {
        asked.set(asked.get() + 1);
        Ok(())
    };
    match runtime.status_snapshot_with_execution(
        true,
        &|| Err(QueryBudgetError::Cancelled),
        count,
        &count,
    ) {
        Err(RulesStatusProjectionError::QueryBudget(QueryBudgetError::Cancelled)) => {}
        other => panic!("unexpected outcome {other:?}"),
    }
    assert_eq!(asked.get(), 0);
}

#[test]
fn metrics_exposition_snapshot_is_copy_and_bypasses_status_tree_limit() {
    let limits = RulesStoreLimits { max_snapshot_status_bytes: 1, ..test_store_limits() };
    let mut runtime = open_runtime(limits);
    apply(
        &mut runtime.store,
        vec![sample_recording_group("metrics-copy", "metrics_copy_recording")],
    )
    .expect("rule state should fit independently of the status-tree limit");
    let before = runtime.store.accounting;

    let snapshot = runtime
        .metrics_snapshot_with_execution(true, &go_on)
        .expect("copy-only metrics projection should bypass the status-tree allocation limit");
    assert_eq!(snapshot.metrics.configured_groups, 1);
    assert_eq!(snapshot.metrics.configured_rules, 1);
    assert!(!std::mem::needs_drop::<RulesExpositionSnapshot>());
    let after = runtime.store.accounting;
    assert_eq!(after.peak_snapshot_status_bytes, before.peak_snapshot_status_bytes);
    assert_eq!(after.snapshot_rejections_total, before.snapshot_rejections_total);
    assert!(
        runtime.snapshot(true).is_err(),
        "the ordinary owned status tree must still enforce its one-byte limit"
    );
    assert!(RulesExpositionMetrics::default().local_scheduler_active);
}

#[test]
fn metrics_exposition_snapshot_uses_forwarded_execution_and_honors_cancellation() {
    let runtime = open_runtime(test_store_limits());
    let cancelled = Cell::new(false);
    let asked = Cell::new(0usize);
    let checkpoint = || {
        asked.set(asked.get() + 1);
        if cancelled.get() {
            Err(QueryBudgetError::Cancelled)
        } else {
            Ok(())
        }
    };
    runtime
        .metrics_snapshot_with_execution(true, &checkpoint)
        .expect("the projection must reuse the forwarded execution");
    assert!(asked.get() > 0);
    cancelled.set(true);
    assert_eq!(
        runtime.metrics_snapshot_with_execution(true, &checkpoint),
        Err(QueryBudgetError::Cancelled)
    );
}

fn key_of(metric: &str, labels: &Vec<Label>) -> String {
    let mut key = format!("{}:{metric}", metric.len());
    for label in labels {
        key.push_str(&format!(
            "{}:{}{}:{}",
            label.name.len(),
            label.name,
            label.value.len(),
            label.value
        ));
    }
    key
}

fn alert_runtime_update(fingerprint: u64, instance_count: usize) -> PersistedRuleRuntimeState {
    let mut alert_instances = Vec::new();
    alert_instances.reserve_exact(instance_count);
    for index in 0..instance_count {
        let labels = vec![
            Label::new("alertname", "HighUsage"),
            Label::new("instance", &format!("node-{index:02}")),
        ];
        alert_instances.push(AlertInstanceState {
            key: key_of("source_metric", &labels),
            source_metric: "source_metric".to_string(),
            labels,
            active_since_timestamp: 60_000,
            last_seen_timestamp: 60_000,
            firing_since_timestamp: Some(60_000),
            state: AlertInstanceStatus::Firing,
            sample_type: "scalar".to_string(),
            sample_value: Some("1".to_string()),
        });
    }
    PersistedRuleRuntimeState {
        fingerprint,
        last_eval_timestamp: Some(60_000),
        last_eval_unix_ms: Some(60_000),
        last_success_unix_ms: Some(60_000),
        last_duration_ms: 1,
        last_error: None,
        last_sample_count: instance_count as u64,
        last_recorded_rows: 0,
        last_outcome: Some(RuleEvaluationOutcome::Success),
        alert_instances,
    }
}

fn configured_runtime_identity(store: &RulesStore) -> (String, u64) {
    let runtime = &store.state.runtime;
    (runtime.key_at(0).clone(), runtime.value_at(0).fingerprint)
}

fn assert_rules_limit_rejection(error: RulesApplyError, expected: &'static str) {
    match error {
        RulesApplyError::Rejected(message) => assert_eq!(message, expected),
        other => panic!("expected bounded rules rejection, got {other:?}"),
    }
}

#[test]
fn rules_store_count_limits_are_exact_at_n_and_reject_n_plus_one() {
    let mut limits = test_store_limits();
    limits.max_groups = 1;
    let mut store = open_store(false, limits);
    apply(&mut store, vec![sample_recording_group("group-a", "record_a")])
        .expect("group count N should pass");
    assert_rules_limit_rejection(
        apply(
            &mut store,
            vec![
                sample_recording_group("group-a", "record_a"),
                sample_recording_group("group-b", "record_b"),
            ],
        )
        .expect_err("group count N+1 should fail"),
        RulesLimitSurface::Configuration.message(),
    );

    let mut two_rules = sample_recording_group("group-a", "record_a");
    two_rules.rules.push(RuleSpec::Recording(RecordingRuleSpec {
        record: "record_b".to_string(),
        expr: "source_metric".to_string(),
        interval_secs: None,
        labels: KeyMap::new(),
    }));
    let mut limits = test_store_limits();
    limits.max_rules_per_group = 1;
    limits.max_rules_total = 1;
    let mut store = open_store(false, limits);
    apply(&mut store, vec![sample_recording_group("group-a", "record_a")])
        .expect("rule count N should pass");
    assert_rules_limit_rejection(
        apply(&mut store, vec![two_rules]).expect_err("rule count N+1 should fail"),
        RulesLimitSurface::Configuration.message(),
    );

    let mut limits = test_store_limits();
    limits.max_groups = 2;
    limits.max_rules_per_group = 1;
    limits.max_rules_total = 1;
    let mut store = open_store(false, limits);
    apply(&mut store, vec![sample_recording_group("group-a", "record_a")])
        .expect("total rule count N should pass");
    assert_rules_limit_rejection(
        apply(
            &mut store,
            vec![
                sample_recording_group("group-a", "record_a"),
                sample_recording_group("group-b", "record_b"),
            ],
        )
        .expect_err("total rule count N+1 across groups should fail"),
        RulesLimitSurface::Configuration.message(),
    );
}

#[test]
fn rules_label_expression_and_annotation_byte_limits_are_exact() {
    let exact_name = sample_recording_group("12345678", "record_a");
    let mut limits = test_store_limits();
    limits.max_name_bytes = 8;
    let mut store = open_store(false, limits);
    let mut one_more_name_byte = exact_name.copied();
    apply(&mut store, vec![exact_name]).expect("name bytes at N should pass");
    one_more_name_byte.name.push('9');
    assert_rules_limit_rejection(
        apply(&mut store, vec![one_more_name_byte]).expect_err("name bytes N+1 should fail"),
        RulesLimitSurface::Configuration.message(),
    );

    let mut exact_labels = sample_alert_group("alerts", "HighUsage");
    exact_labels.labels = texts(&[("a", "b")]);
    let mut limits = test_store_limits();
    limits.max_labels_per_set = 1;
    limits.max_label_set_bytes = 2;
    let mut store = open_store(false, limits);
    let mut one_more_label = exact_labels.copied();
    let mut one_more_byte = exact_labels.copied();
    apply(&mut store, vec![exact_labels]).expect("label count and bytes at N should pass");
    one_more_label.labels.insert("c".to_string(), "d".to_string());
    assert_rules_limit_rejection(
        apply(&mut store, vec![one_more_label]).expect_err("label count N+1 should fail"),
        RulesLimitSurface::Configuration.message(),
    );
    one_more_byte.labels.insert("a".to_string(), "bc".to_string());
    assert_rules_limit_rejection(
        apply(&mut store, vec![one_more_byte]).expect_err("label bytes N+1 should fail"),
        RulesLimitSurface::Configuration.message(),
    );

    let exact_expression = sample_alert_group("alerts", "HighUsage");
    let expression_len = rule_expr(&exact_expression.rules[0]).len();
    let mut limits = test_store_limits();
    limits.max_expression_bytes = expression_len;
    let mut store = open_store(false, limits);
    let mut one_more_expression_byte = exact_expression.copied();
    apply(&mut store, vec![exact_expression]).expect("expression bytes at N should pass");
    match &mut one_more_expression_byte.rules[0] {
        RuleSpec::Alert(spec) => spec.expr.push(' '),
        RuleSpec::Recording(_) => unreachable!("sample group is an alert"),
    }
    assert_rules_limit_rejection(
        apply(&mut store, vec![one_more_expression_byte])
            .expect_err("expression bytes N+1 should fail"),
        RulesLimitSurface::Configuration.message(),
    );

    let mut exact_annotations = sample_alert_group("alerts", "HighUsage");
    match &mut exact_annotations.rules[0] {
        RuleSpec::Alert(spec) => spec.annotations = texts(&[("note", "ok")]),
        RuleSpec::Recording(_) => unreachable!("sample group is an alert"),
    }
    let mut limits = test_store_limits();
    limits.max_annotation_bytes = 6;
    let mut store = open_store(false, limits);
    apply(&mut store, vec![exact_annotations.copied()]).expect("annotation bytes at N should pass");
    match &mut exact_annotations.rules[0] {
        RuleSpec::Alert(spec) => spec.annotations.insert("note".to_string(), "okay".to_string()),
        RuleSpec::Recording(_) => unreachable!("sample group is an alert"),
    }
    assert_rules_limit_rejection(
        apply(&mut store, vec![exact_annotations]).expect_err("annotation bytes N+1 should fail"),
        RulesLimitSurface::Configuration.message(),
    );
}

#[test]
fn rules_limits_validate_and_hostile_configuration_errors_do_not_echo_input() {
    let mut zero = test_store_limits();
    zero.max_groups = 0;
    assert!(zero.validate().is_err());

    let mut inconsistent = test_store_limits();
    inconsistent.max_rules_per_group = 2;
    inconsistent.max_rules_total = 1;
    assert!(inconsistent.validate().is_err());

    let mut oversized_status = test_store_limits();
    oversized_status.max_snapshot_status_bytes = MAX_BODY_BYTES + 1;
    assert!(oversized_status.validate().is_err());

    let invalid_runtime =
        RulesRuntimeConfig { scheduler_tick_nanos: 0, ..config_with(test_store_limits()) };
    assert!(invalid_runtime.validate().is_err());
    let inconsistent_runtime = RulesRuntimeConfig {
        store_limits: RulesStoreLimits {
            max_alert_instances_per_rule: 1,
            ..test_store_limits()
        },
        max_alert_instances_per_rule: 2,
        ..RulesRuntimeConfig::default()
    };
    assert!(inconsistent_runtime.validate().is_err());

    let attacker = "hostile-expression-secret-marker{";
    let mut hostile = sample_recording_group("hostile", "hostile_recording");
    match &mut hostile.rules[0] {
        RuleSpec::Recording(spec) => spec.expr = attacker.to_string(),
        RuleSpec::Alert(_) => unreachable!("sample group is a recording rule"),
    }
    let mut store = open_store(false, test_store_limits());
    let error = apply(&mut store, vec![hostile])
        .expect_err("invalid hostile expression should fail")
        .message();
    assert!(!error.contains(attacker));
    assert!(error.len() <= RULES_MAX_DIAGNOSTIC_BYTES);
    assert!(store.state.groups.is_empty());
}

#[test]
fn rules_retained_and_durable_byte_limits_are_exact() {
    let group = || sample_recording_group("bounded", "bounded_recording");
    let mut measured = open_store(false, test_store_limits());
    apply(&mut measured, vec![group()]).expect("measurement state should apply");
    let exact_retained = measured.accounting.retained_state_bytes as usize;
    assert!(exact_retained > 1);

    let mut exact_limits = test_store_limits();
    exact_limits.max_total_retained_state_bytes = exact_retained;
    apply(&mut open_store(false, exact_limits), vec![group()])
        .expect("retained bytes N should pass");

    let mut one_under_limits = exact_limits;
    one_under_limits.max_total_retained_state_bytes = exact_retained - 1;
    let mut one_under = open_store(false, one_under_limits);
    assert_rules_limit_rejection(
        apply(&mut one_under, vec![group()]).expect_err("retained bytes N-1 should fail"),
        RulesLimitSurface::RetainedState.message(),
    );
    assert!(one_under.state.groups.is_empty());

    let mut measured = open_store(true, test_store_limits());
    apply(&mut measured, vec![group()]).expect("durable measurement should apply");
    let exact_durable = measured.accounting.durable_file_bytes as usize;
    assert!(exact_durable > 1);

    let mut exact_limits = test_store_limits();
    exact_limits.max_durable_file_bytes = exact_durable;
    apply(&mut open_store(true, exact_limits), vec![group()])
        .expect("durable bytes N should pass");

    let mut one_under_limits = exact_limits;
    one_under_limits.max_durable_file_bytes = exact_durable - 1;
    let mut one_under = open_store(true, one_under_limits);
    assert_rules_limit_rejection(
        apply(&mut one_under, vec![group()]).expect_err("durable bytes N-1 should fail"),
        RulesLimitSurface::DurableFile.message(),
    );
    assert!(one_under.state.groups.is_empty());
    assert_eq!(one_under.accounting.limit_rejections_total, 1);
    assert_eq!(one_under.accounting.replacement_rejections_total, 1);
}

#[test]
fn replacement_peak_is_larger_than_new_state_and_fails_without_publication() {
    let initial = || sample_recording_group("initial", "initial_recording");
    let replacement = || sample_recording_group("replacement", "replacement_recording");

    let mut new_store = open_store(false, test_store_limits());
    apply(&mut new_store, vec![initial()]).expect("new state should apply");
    let new_peak = new_store.accounting.peak_replacement_transient_bytes;

    let mut measured = open_store(false, test_store_limits());
    apply(&mut measured, vec![initial()]).expect("initial state should apply");
    apply(&mut measured, vec![replacement()]).expect("replacement should apply");
    let replacement_peak = measured.accounting.peak_replacement_transient_bytes;
    assert!(replacement_peak > new_peak);

    let mut limits = test_store_limits();
    limits.max_replacement_transient_bytes = replacement_peak as usize - 1;
    let mut store = open_store(false, limits);
    apply(&mut store, vec![initial()]).expect("new state must fit below replacement peak");
    assert_rules_limit_rejection(
        apply(&mut store, vec![replacement()]).expect_err("replacement peak N-1 should fail"),
        RulesLimitSurface::Replacement.message(),
    );
    assert_eq!(store.state.groups[0].name, "initial");
}

#[test]
fn retained_accounting_uses_owned_string_and_vector_capacities() {
    let tight = sample_recording_group("capacity", "capacity_recording");
    let mut tight_store = open_store(false, test_store_limits());
    apply(&mut tight_store, vec![tight]).expect("tight state should apply");
    let tight_bytes = tight_store.accounting.retained_state_bytes;

    let mut name = String::with_capacity(4 * 1024);
    name.push_str("capacity");
    let mut record = String::with_capacity(4 * 1024);
    record.push_str("capacity_recording");
    let mut rules = Vec::with_capacity(8);
    rules.push(RuleSpec::Recording(RecordingRuleSpec {
        record,
        expr: "source_metric".to_string(),
        interval_secs: None,
        labels: KeyMap::new(),
    }));
    let spare_group = RuleGroupSpec {
        name,
        tenant_id: "team-a".to_string(),
        interval_secs: 60,
        labels: KeyMap::new(),
        rules,
    };
    let mut groups = Vec::with_capacity(8);
    groups.push(spare_group);
    let spare_bytes = modeled_groups_bytes(&groups)
        .saturating_add(std::mem::size_of::<PersistedRulesStoreState>());
    assert!(spare_bytes as u64 > tight_bytes);

    let mut limits = test_store_limits();
    limits.max_total_retained_state_bytes = tight_bytes as usize;
    let mut store = open_store(false, limits);
    assert_rules_limit_rejection(
        apply(&mut store, groups).expect_err("spare caller capacity must be retained-accounted"),
        RulesLimitSurface::RetainedState.message(),
    );
}

#[test]
fn startup_read_decode_and_retained_peaks_are_bounded_exactly() {
    let mut source = open_store(false, test_store_limits());
    apply(&mut source, vec![sample_recording_group("startup", "startup_recording")])
        .expect("fixture state should apply");
    let raw = encode_state(&source.state, &KeyMap::new()).expect("fixture state should encode");
    let decoded_upper =
        preflight_rules_json(&raw).expect("fixture JSON should pass structural preflight");
    // Two objects, one list, and the colons and commas between them.
    assert_eq!(
        decoded_upper,
        raw.len() * 2 + 7 * (64 + std::mem::size_of::<serde_json::Value>())
    );
    let exact_startup_peak = raw.len().saturating_add(decoded_upper);

    let load = |limits: RulesStoreLimits| {
        let mut counters = RulesStoreAccounting::new();
        let loaded = load_rules_store_state(
            &limits,
            &mut counters,
            &Some(raw.clone()),
            |_bytes: &Vec<u8>| {
                Ok(PersistedRulesStore {
                    magic: "tsink-rules-store".to_string(),
                    schema_version: 1,
                    state: source.state.copied(),
                })
            },
            |groups: &Vec<RuleGroupSpec>| checks(groups),
        )
        .map_err(|error| error.message())?;
        RulesStore::open_with_limits(
            true,
            limits,
            loaded.state,
            loaded.durable_file_bytes,
            loaded.startup_transient_bytes,
            counters,
        )
    };
    let mut exact_limits = test_store_limits();
    exact_limits.max_startup_transient_bytes = exact_startup_peak;
    let exact = load(exact_limits).expect("startup transient bytes N should pass");
    assert_eq!(exact.accounting.peak_startup_transient_bytes, exact_startup_peak as u64);
    assert_eq!(exact.accounting.durable_file_bytes, raw.len() as u64);
    assert_eq!(exact.state.groups.len(), 1);

    let mut one_under_limits = exact_limits;
    one_under_limits.max_startup_transient_bytes = exact_startup_peak - 1;
    assert_eq!(
        load(one_under_limits).err().expect("startup transient bytes N-1 should fail"),
        RulesLimitSurface::Startup.message()
    );
}

#[test]
fn corrupt_oversized_and_deep_rules_startup_inputs_fail_closed_without_echo() {
    let open = |raw: &[u8], limits: RulesStoreLimits| {
        check_rules_file(raw.len() as u64, &limits).map_err(|error| error.message())?;
        let mut counters = RulesStoreAccounting::new();
        load_rules_store_state(
            &limits,
            &mut counters,
            &Some(raw.to_vec()),
            |bytes: &Vec<u8>| match serde_json::from_slice::<serde_json::Value>(bytes) {
                Ok(_) => Err(RulesDecodeError::TrailingData),
                Err(_) => Err(RulesDecodeError::Malformed),
            },
            |groups: &Vec<RuleGroupSpec>| checks(groups),
        )
        .map_err(|error| error.message())
    };
    let attacker = "startup-secret-marker";
    let error = open(format!("{{\"{attacker}\":").as_bytes(), test_store_limits())
        .err()
        .expect("corrupt startup should fail");
    assert!(!error.contains(attacker));
    assert!(error.len() <= RULES_MAX_DIAGNOSTIC_BYTES);

    let mut limits = test_store_limits();
    limits.max_durable_file_bytes = 64;
    let error = open(&[b'x'; 65], limits).err().expect("oversized startup should fail");
    assert_eq!(error, RulesLimitSurface::DurableFile.message());

    let mut deeply_nested = vec![b'['; RULES_STARTUP_MAX_JSON_DEPTH + 1];
    deeply_nested.extend(std::iter::repeat(b']').take(RULES_STARTUP_MAX_JSON_DEPTH + 1));
    let error =
        open(&deeply_nested, test_store_limits()).err().expect("deep startup should fail");
    assert_eq!(error, "rules store JSON exceeds its nesting-depth limit");
}

#[test]
fn startup_faults_are_told_apart_without_echo() {
    let limits = test_store_limits();
    let persisted = |magic: &str, version: u16, groups: Vec<RuleGroupSpec>| PersistedRulesStore {
        magic: magic.to_string(),
        schema_version: version,
        state: PersistedRulesStoreState { groups, runtime: KeyMap::new() },
    };
    let load = |raw: &[u8], decoded: Result<PersistedRulesStore, RulesDecodeError>| {
        let mut counters = RulesStoreAccounting::new();
        let error = load_rules_store_state(
            &limits,
            &mut counters,
            &Some(raw.to_vec()),
            |_bytes: &Vec<u8>| decoded,
            |groups: &Vec<RuleGroupSpec>| checks(groups),
        )
        .err()
        .map(|error| error.message());
        (error, counters.startup_rejections_total)
    };
    let attacker = "startup-secret-marker";
    let (corrupt, _) =
        load(format!("{{\"{attacker}\":").as_bytes(), Err(RulesDecodeError::Malformed));
    assert_eq!(corrupt.as_deref(), Some("rules store contains malformed JSON"));
    let mut deep = vec![b'['; RULES_STARTUP_MAX_JSON_DEPTH + 1];
    deep.extend(std::iter::repeat(b']').take(RULES_STARTUP_MAX_JSON_DEPTH + 1));
    let (deep, _) = load(&deep, Err(RulesDecodeError::Malformed));
    assert_eq!(deep.as_deref(), Some("rules store JSON exceeds its nesting-depth limit"));
    let said = |decoded| load(b"{}", decoded).0.expect("it should be turned away");
    assert_eq!(
        said(Err(RulesDecodeError::Malformed)),
        "rules store contains invalid durable state"
    );
    assert_eq!(said(Err(RulesDecodeError::TrailingData)), "rules store contains trailing data");
    assert_eq!(
        said(Ok(persisted("other", 1, Vec::new()))),
        "rules store has an unsupported durable format"
    );
    assert_eq!(
        said(Ok(persisted("tsink-rules-store", 2, Vec::new()))),
        "rules store has an unsupported durable format"
    );
    let mut wrong = sample_recording_group("g", "r");
    wrong.interval_secs = 0;
    assert_eq!(
        said(Ok(persisted("tsink-rules-store", 1, vec![wrong]))),
        "rules store contains invalid bounded state"
    );
    let many = (0..9).map(|index| sample_recording_group(&format!("g{index}"), "r")).collect();
    let (error, rejections) = load(b"{}", Ok(persisted("tsink-rules-store", 1, many)));
    assert_eq!(error.as_deref(), Some(RulesLimitSurface::Startup.message()));
    assert_eq!(rejections, 1);

    let mut small = test_store_limits();
    small.max_durable_file_bytes = 64;
    small.max_startup_transient_bytes = 32;
    assert_eq!(
        check_rules_file(65, &small),
        Err(RulesStoreError::Limit(RulesLimitSurface::DurableFile))
    );
    assert_eq!(
        check_rules_file(64, &small),
        Err(RulesStoreError::Limit(RulesLimitSurface::Startup))
    );
    assert_eq!(check_rules_file(32, &small), Ok(()));
    let mut counters = RulesStoreAccounting::new();
    let nothing = load_rules_store_state(
        &limits,
        &mut counters,
        &None,
        |_bytes: &Vec<u8>| Err(RulesDecodeError::Malformed),
        |groups: &Vec<RuleGroupSpec>| checks(groups),
    )
    .expect("a store may begin without a file");
    assert!(nothing.state.groups.is_empty());
}

#[test]
fn runtime_update_and_alert_growth_limits_are_exact_and_atomic() {
    let group = || sample_alert_group("alerts", "HighUsage");
    let mut measured = open_store(false, test_store_limits());
    apply(&mut measured, vec![group()]).expect("alert group should apply");
    let (id, fingerprint) = configured_runtime_identity(&measured);
    update(&mut measured, vec![(id, alert_runtime_update(fingerprint, 1))])
        .expect("measurement update should apply");
    let exact_peak = measured.accounting.peak_runtime_update_transient_bytes as usize;
    assert!(exact_peak > 1);

    let mut exact_limits = test_store_limits();
    exact_limits.max_runtime_update_transient_bytes = exact_peak;
    let mut exact = open_store(false, exact_limits);
    apply(&mut exact, vec![group()]).expect("alert group should apply");
    let (id, fingerprint) = configured_runtime_identity(&exact);
    assert_eq!(
        update(&mut exact, vec![(id, alert_runtime_update(fingerprint, 1))])
            .expect("runtime update bytes N should pass"),
        1
    );

    let mut one_under_limits = exact_limits;
    one_under_limits.max_runtime_update_transient_bytes = exact_peak - 1;
    let mut one_under = open_store(false, one_under_limits);
    apply(&mut one_under, vec![group()]).expect("alert group should apply");
    let (id, fingerprint) = configured_runtime_identity(&one_under);
    let error = update(&mut one_under, vec![(id.clone(), alert_runtime_update(fingerprint, 1))])
        .expect_err("runtime update bytes N-1 should fail");
    assert_eq!(error.message(), RulesLimitSurface::RuntimeUpdate.message());
    assert!(one_under
        .state
        .runtime
        .get(&id)
        .expect("runtime should remain configured")
        .alert_instances
        .is_empty());

    let mut count_limits = test_store_limits();
    count_limits.max_alert_instances_per_rule = 1;
    let mut count_store = open_store(false, count_limits);
    apply(&mut count_store, vec![group()]).expect("alert group should apply");
    let (id, fingerprint) = configured_runtime_identity(&count_store);
    assert_eq!(
        update(&mut count_store, vec![(id.clone(), alert_runtime_update(fingerprint, 1))])
            .expect("alert count N should pass"),
        1
    );
    let error =
        update(&mut count_store, vec![(id.clone(), alert_runtime_update(fingerprint, 2))])
            .expect_err("alert count N+1 should fail");
    assert_eq!(error.message(), RulesLimitSurface::RuntimeUpdate.message());
    assert_eq!(
        count_store
            .state
            .runtime
            .get(&id)
            .expect("runtime should remain configured")
            .alert_instances
            .len(),
        1
    );
}

#[test]
fn updates_for_replaced_definitions_are_left_out() {
    let mut store = open_store(true, test_store_limits());
    apply(&mut store, vec![sample_alert_group("alerts", "HighUsage")]).expect("it should apply");
    let (id, fingerprint) = configured_runtime_identity(&store);
    let writes = Cell::new(0usize);
    let count = |_bytes: &Vec<u8>| {
        writes.set(writes.get() + 1);
        Ok(())
    };
    let applied = store
        .apply_runtime_updates(
            vec![
                (id.clone(), alert_runtime_update(fingerprint ^ 1, 1)),
                ("missing".to_string(), alert_runtime_update(fingerprint, 1)),
            ],
            encode_state,
            count,
        )
        .expect("nothing is to be applied");
    assert_eq!((applied, writes.get()), (0, 0));
    let applied = store
        .apply_runtime_updates(
            vec![
                (id.clone(), alert_runtime_update(fingerprint, 1)),
                (id.clone(), alert_runtime_update(fingerprint, 2)),
            ],
            encode_state,
            count,
        )
        .expect("one rule is updated");
    assert_eq!((applied, writes.get()), (1, 1));
    assert_eq!(store.state.runtime.get(&id).expect("it is known").alert_instances.len(), 2);

    let failed = store
        .apply_runtime_updates(
            vec![(id.clone(), alert_runtime_update(fingerprint, 1))],
            encode_state,
            |_bytes: &Vec<u8>| Err("disk full".to_string()),
        )
        .expect_err("the disk is full");
    assert_eq!(failed, RulesStoreError::Persistence("disk full".to_string()));
    assert_eq!(failed.message(), "rules state persistence failed");
    assert_eq!(store.accounting.persistence_failures_total, 1);
    assert_eq!(store.state.runtime.get(&id).expect("it is known").alert_instances.len(), 2);
}

#[test]
fn runtime_persistence_failure_stays_typed_and_does_not_publish() {
    let mut store = open_store(true, test_store_limits());
    let file = RefCell::new(Vec::new());
    let groups = vec![sample_alert_group("alerts", "HighUsage")];
    let said = checks(&groups);
    store
        .apply_groups(groups, &said, encode_state, |bytes: &Vec<u8>| {
            *file.borrow_mut() = bytes.clone();
            Ok(())
        })
        .expect("initial alert rule should persist");
    let initial_bytes = file.borrow().clone();
    let quota = initial_bytes.len() * 2;
    let before = store.accounting;
    let (rule_id, fingerprint) = configured_runtime_identity(&store);
    let error = store
        .apply_runtime_updates(
            vec![(rule_id.clone(), alert_runtime_update(fingerprint, 1))],
            encode_state,
            |bytes: &Vec<u8>| {
                if initial_bytes.len() + bytes.len() >= quota {
                    return Err("disk quota exceeded".to_string());
                }
                *file.borrow_mut() = bytes.clone();
                Ok(())
            },
        )
        .expect_err("runtime persistence should exceed atomic-write quota");
    assert_eq!(error, RulesStoreError::Persistence("disk quota exceeded".to_string()));
    assert!(store
        .state
        .runtime
        .get(&rule_id)
        .expect("runtime should remain configured")
        .alert_instances
        .is_empty());
    assert_eq!(*file.borrow(), initial_bytes);
    let after = store.accounting;
    assert_eq!(after.retained_state_bytes, before.retained_state_bytes);
    assert_eq!(after.durable_file_bytes, before.durable_file_bytes);
    assert_eq!(after.persistence_failures_total, 1);
}

#[test]
fn rejected_groups_are_neither_encoded_nor_written() {
    let mut store = open_store(true, RulesStoreLimits { max_groups: 1, ..test_store_limits() });
    let groups = vec![
        sample_recording_group("group-a", "record_a"),
        sample_recording_group("group-b", "record_b"),
    ];
    let said = checks(&groups);
    store
        .apply_groups(
            groups,
            &said,
            |_state: &PersistedRulesStoreState, _over: &RuntimeMap| {
                panic!("nothing is encoded")
            },
            |_bytes: &Vec<u8>| panic!("nothing is written"),
        )
        .expect_err("there are too many groups");

    let mut store =
        open_store(true, RulesStoreLimits { max_durable_file_bytes: 16, ..test_store_limits() });
    let groups = vec![sample_recording_group("group-a", "record_a")];
    let said = checks(&groups);
    store
        .apply_groups(groups, &said, encode_state, |_bytes: &Vec<u8>| {
            panic!("nothing is written")
        })
        .expect_err("the file would be too long");
    assert!(store.state.groups.is_empty());
    assert_eq!(store.accounting.durable_file_bytes, 0);
    let message = store
        .snapshot_into(
            |_state: &PersistedRulesStoreState, _over: &RuntimeMap| Some(vec![0u8; 17]),
            |_bytes: &Vec<u8>| panic!("nothing is written"),
        )
        .expect_err("the copy would be too long");
    assert_eq!(message, RulesLimitSurface::DurableFile.message());
}

#[test]
fn a_decoded_file_is_accepted_by_the_bytes_it_is_measured_to_hold() {
    let limits = RulesStoreLimits {
        max_total_retained_state_bytes: 100,
        max_startup_transient_bytes: 150,
        ..test_store_limits()
    };
    let accept = |checked_bytes: usize, kept_bytes: usize| {
        let mut counters = RulesStoreAccounting::new();
        let loaded = accept_measured(
            &limits,
            &mut counters,
            50,
            60,
            PersistedRulesStore {
                magic: "tsink-rules-store".to_string(),
                schema_version: 1,
                state: PersistedRulesStoreState::empty(),
            },
            &checks(&[]),
            checked_bytes,
            kept_bytes,
        );
        (
            loaded.map(|found| (found.durable_file_bytes, found.startup_transient_bytes)),
            counters.startup_rejections_total,
        )
    };
    let refused = || Err(RulesStoreError::Limit(RulesLimitSurface::Startup));
    assert_eq!(accept(100, 100), (Ok((50, 150)), 0));
    assert_eq!(accept(1, 5), (Ok((50, 60)), 0));
    assert_eq!(accept(101, 100), (refused(), 1));
    assert_eq!(accept(100, 101), (refused(), 1));
    assert_eq!(check_retained(100, &limits), Ok(()));
    assert_eq!(
        check_retained(101, &limits),
        Err(RulesStoreError::Limit(RulesLimitSurface::RetainedState))
    );

    let mut counters = RulesStoreAccounting::new();
    load_rules_store_state(
        &RulesStoreLimits { max_startup_transient_bytes: 1, ..limits },
        &mut counters,
        &Some(b"{}".to_vec()),
        |_bytes: &Vec<u8>| panic!("nothing is decoded"),
        |_groups: &Vec<RuleGroupSpec>| panic!("nothing is asked"),
    )
    .err()
    .expect("there is no room to decode it");
    assert_eq!(counters.startup_rejections_total, 1);
    let other = load_rules_store_state(
        &limits,
        &mut counters,
        &Some(b"{}".to_vec()),
        |_bytes: &Vec<u8>| {
            Ok(PersistedRulesStore {
                magic: "other".to_string(),
                schema_version: 1,
                state: PersistedRulesStoreState::empty(),
            })
        },
        |_groups: &Vec<RuleGroupSpec>| panic!("nothing is asked"),
    )
    .err()
    .expect("the format is not known");
    assert_eq!(other.message(), "rules store has an unsupported durable format");
}

#[test]
fn disk_quota_failure_does_not_publish_candidate_rules() {
    let mut runtime = open_durable_runtime(test_store_limits());
    let file = RefCell::new(Vec::new());
    let groups = vec![sample_recording_group("initial", "initial_recording")];
    let said = checks(&groups);
    runtime
        .apply_groups(groups, &said, true, encode_state, |bytes: &Vec<u8>| {
            *file.borrow_mut() = bytes.clone();
            Ok(())
        })
        .expect("initial rules should persist");
    let initial_bytes = file.borrow().clone();
    let quota = initial_bytes.len() + 1;

    let groups = vec![sample_recording_group("replacement", "replacement_recording")];
    let said = checks(&groups);
    let error = runtime
        .apply_groups(groups, &said, true, encode_state, |bytes: &Vec<u8>| {
            if file.borrow().len() + bytes.len() > quota {
                return Err("disk quota exceeded".to_string());
            }
            *file.borrow_mut() = bytes.clone();
            Ok(())
        })
        .expect_err("replacement should exceed the atomic-write peak quota");
    assert_eq!(error, RulesApplyError::Persistence("disk quota exceeded".to_string()));

    let snapshot = runtime.snapshot(true).expect("live state should remain readable");
    assert_eq!(snapshot.groups.len(), 1);
    assert_eq!(snapshot.groups[0].name, "initial");
    assert_eq!(*file.borrow(), initial_bytes);
    assert_eq!(runtime.store.accounting.persistence_failures_total, 1);
    assert_eq!(runtime.store.accounting.durable_file_bytes, initial_bytes.len() as u64);
}

#[test]
fn a_failed_write_does_not_publish_candidate_rules() {
    let mut store = open_store(true, test_store_limits());
    apply(&mut store, vec![sample_recording_group("initial", "initial_recording")])
        .expect("initial rules should persist");
    let durable = store.accounting.durable_file_bytes;
    let groups = vec![sample_recording_group("replacement", "replacement_recording")];
    let checks = checks(&groups);
    let error = store
        .apply_groups(groups, &checks, encode_state, |_bytes: &Vec<u8>| {
            Err("quota exceeded".to_string())
        })
        .expect_err("the write fails");
    assert_eq!(error, RulesApplyError::Persistence("quota exceeded".to_string()));
    assert_eq!(error.message(), "rules state persistence failed: quota exceeded");
    assert_eq!(store.state.groups[0].name, "initial");
    assert_eq!(store.accounting.persistence_failures_total, 1);
    assert_eq!(store.accounting.durable_file_bytes, durable);
}

#[test]
fn groups_keep_what_is_known_of_unchanged_rules() {
    let mut store = open_store(false, test_store_limits());
    apply(&mut store, vec![sample_alert_group("alerts", "HighUsage")]).expect("it should apply");
    let (id, fingerprint) = configured_runtime_identity(&store);
    update(&mut store, vec![(id.clone(), alert_runtime_update(fingerprint, 1))])
        .expect("it should update");
    apply(&mut store, vec![sample_alert_group("alerts", "HighUsage")]).expect("the same groups");
    assert_eq!(store.state.runtime.get(&id).expect("it is known").alert_instances.len(), 1);
    let mut changed = sample_alert_group("alerts", "HighUsage");
    changed.interval_secs = 61;
    apply(&mut store, vec![changed]).expect("a changed group");
    let known = store.state.runtime.get(&id).expect("it is known");
    assert!(known.alert_instances.is_empty());
    assert_ne!(known.fingerprint, fingerprint);
    apply(&mut store, Vec::new()).expect("no groups at all");
    assert_eq!(store.state.runtime.len(), 0);
}

#[test]
fn invalid_groups_are_told_apart() {
    let said = |change: &dyn Fn(&mut RuleGroupSpec)| {
        let mut group = sample_alert_group("alerts", "HighUsage");
        change(&mut group);
        apply(&mut open_store(false, test_store_limits()), vec![group])
            .expect_err("it should be refused")
            .message()
    };
    assert_eq!(said(&|group| group.name.clear()), "rules contain an invalid group");
    assert_eq!(said(&|group| group.interval_secs = 0), "rules contain an invalid group");
    assert_eq!(said(&|group| group.rules.clear()), "rules groups must not be empty");
    assert_eq!(
        said(&|group| group.labels.insert(TENANT_LABEL.to_string(), "x".to_string())),
        "rules contain an invalid label name"
    );
    assert_eq!(
        said(&|group| group.labels.insert("a".to_string(), String::new())),
        "rules contain an invalid label value"
    );
    assert_eq!(
        said(&|group| {
            let rule = group.rules[0].copied();
            group.rules.push(rule)
        }),
        "rules contain a duplicate rule identifier"
    );
    let alert = |change: &dyn Fn(&mut AlertRuleSpec)| {
        said(&|group| match &mut group.rules[0] {
            RuleSpec::Alert(spec) => change(spec),
            RuleSpec::Recording(_) => unreachable!("sample group is an alert"),
        })
    };
    assert_eq!(alert(&|spec| spec.expr = " \t".to_string()), "rules contain an empty expression");
    assert_eq!(alert(&|spec| spec.interval_secs = Some(0)), "rules contain an invalid alert rule");
    let mut store = open_store(false, test_store_limits());
    let groups = vec![sample_alert_group("alerts", "HighUsage")];
    let mut refused = checks(&groups);
    refused.tenants[0] = false;
    assert_eq!(
        store
            .apply_groups(groups, &refused, encode_state, written)
            .expect_err("the tenant is not valid")
            .message(),
        "rules contain an invalid tenant identifier"
    );
}

fn encode_status(snapshot: &RulesStatusSnapshot) -> Option<Vec<u8>> {
    let mut out = String::from("{\"status\":\"success\",\"data\":");
    out.push_str(&serde_json::to_string(&shown(snapshot)).expect("a text is valid JSON"));
    out.push('}');
    Some(out.into_bytes())
}

#[test]
fn status_output_limit_is_exact_and_caller_owned() {
    let group = || sample_recording_group("status", "status_recording");
    let apply_to = |runtime: &mut RulesRuntime| {
        let groups = vec![group()];
        let checks = checks(&groups);
        runtime.apply_groups(groups, &checks, true, encode_state, written)
    };
    let mut measured = open_runtime(test_store_limits());
    let mut measured_snapshot =
        apply_to(&mut measured).expect("measurement group should apply");
    // The limit is shown too: one of another length would change the encoded form.
    let padded = |snapshot: &RulesStatusSnapshot| {
        let mut bytes = encode_status(snapshot)?;
        bytes.resize(16 * 1024, b' ');
        Some(bytes)
    };
    let measured_body = measured
        .encode_success_snapshot(&mut measured_snapshot, &padded)
        .expect("measurement status should encode");
    assert!(measured_body.len() <= MAX_BODY_BYTES);
    let measured_json: serde_json::Value = serde_json::from_slice(&measured_body)
        .expect("measurement status should be valid JSON");
    assert_eq!(measured_json["status"], "success");
    let exact_output = measured.store.accounting.peak_snapshot_status_bytes as usize;

    let with = |max: usize| RulesStoreLimits {
        max_snapshot_status_bytes: max,
        ..test_store_limits()
    };
    let mut exact = open_runtime(with(exact_output));
    let mut snapshot =
        apply_to(&mut exact).expect("status snapshot allocation should pass");
    let body = exact
        .encode_success_snapshot(&mut snapshot, &padded)
        .expect("snapshot plus encoded response bytes N should pass");
    assert!(body.len() <= MAX_BODY_BYTES);
    assert_eq!(snapshot.metrics.peak_snapshot_status_bytes, exact_output as u64);

    let mut one_under = open_runtime(with(exact_output - 1));
    apply(&mut one_under.store, vec![group()])
        .expect("state publication should fit independently");
    let mut snapshot = one_under
        .snapshot(true)
        .expect("snapshot allocation should fit below the combined response peak");
    let error = one_under
        .encode_success_snapshot(&mut snapshot, &padded)
        .expect_err("snapshot plus encoded response bytes N-1 should fail");
    assert_eq!(error, RulesLimitSurface::SnapshotStatus.message());
    assert_eq!(one_under.store.accounting.snapshot_rejections_total, 1);
}

#[test]
fn a_status_settles_before_it_is_encoded() {
    let mut runtime = rich_status_projection_runtime();
    let mut snapshot = runtime.snapshot(true).expect("status should build");
    let measure =
        |snapshot: &RulesStatusSnapshot| encode_status(snapshot).map(|bytes| bytes.len());
    let first = runtime
        .prepare_success_snapshot_iteration_with_execution(&mut snapshot, &go_on, &measure)
        .expect("the first round should pass");
    assert_eq!(first, None);
    let mut len = None;
    for _ in 0..8 {
        len = runtime
            .prepare_success_snapshot_iteration_with_execution(&mut snapshot, &go_on, &measure)
            .expect("a round should pass");
        if len.is_some() {
            break;
        }
    }
    let len = len.expect("the counters settle");
    assert_eq!(Some(len), measure(&snapshot));
    assert!(runtime
        .finalize_success_snapshot_with_execution(&snapshot, len, &go_on)
        .expect("it fits"));
    assert!(runtime
        .prepare_success_snapshot_iteration_with_execution(&mut snapshot, &go_on, &|_shown: &RulesStatusSnapshot| {
            Some(MAX_BODY_BYTES + 1)
        })
        .is_err());
}

fn sample(metric: &str, labels: &[(&str, &str)], bits: u64, shown: &str) -> Sample {
    Sample {
        metric: metric.to_string(),
        labels: labels.iter().map(|(name, value)| Label::new(name, value)).collect(),
        value: PointValue::Number(bits),
        shown: shown.to_string(),
    }
}

fn evaluate(
    for_secs: u64,
    timestamp: i64,
    samples: Vec<Sample>,
    previous: PersistedRuleRuntimeState,
) -> PersistedRuleRuntimeState {
    let group = sample_alert_group("alerts", "HighCpu");
    let spec = AlertRuleSpec {
        alert: "HighCpu".to_string(),
        expr: "cpu_usage > 0.5".to_string(),
        interval_secs: None,
        for_secs,
        labels: texts(&[("severity", "page")]),
        annotations: KeyMap::new(),
    };
    evaluate_alert_rule(
        &mut RulesStoreAccounting::new(),
        &RulesRuntimeConfig::default(),
        TimestampPrecision::Milliseconds,
        &group,
        &spec,
        timestamp,
        PromqlValue::InstantVector(samples),
        previous,
        77,
        TENANT_LABEL,
        &key_of,
    )
    .expect("evaluation should succeed")
}

#[test]
fn alerts_wait_then_fire_then_clear() {
    let cpu = || vec![sample("cpu_usage", &[("host", "a")], 1, "1")];
    let pending = evaluate(60, 60_000, cpu(), PersistedRuleRuntimeState::fresh(1));
    assert_eq!(pending.alert_instances.len(), 1);
    assert_eq!(pending.alert_instances[0].state, AlertInstanceStatus::Pending);
    assert_eq!(
        pending.alert_instances[0].labels,
        vec![
            Label::new("alertname", "HighCpu"),
            Label::new("host", "a"),
            Label::new("severity", "page"),
        ]
    );
    assert_eq!(pending.last_success_unix_ms, Some(77));
    let firing = evaluate(60, 120_000, cpu(), pending);
    assert_eq!(firing.alert_instances[0].state, AlertInstanceStatus::Firing);
    assert_eq!(firing.alert_instances[0].active_since_timestamp, 60_000);
    assert_eq!(firing.alert_instances[0].firing_since_timestamp, Some(120_000));
    let still = evaluate(60, 180_000, cpu(), firing);
    assert_eq!(still.alert_instances[0].firing_since_timestamp, Some(120_000));
    assert_eq!(still.alert_instances[0].last_seen_timestamp, 180_000);
    let cleared = evaluate(60, 240_000, Vec::new(), still);
    assert!(cleared.alert_instances.is_empty());
    assert_eq!(cleared.last_sample_count, 0);
}

#[test]
fn alert_rule_recomputes_previous_instance_keys_from_labels() {
    fn legacy_alert_instance_key(metric: &str, labels: &[Label]) -> String {
        let mut key = metric.to_string();
        for label in labels {
            key.push('|');
            key.push_str(&label.name);
            key.push('=');
            key.push_str(&label.value);
        }
        key
    }

    let group = RuleGroupSpec {
        name: "alerts".to_string(),
        tenant_id: "team-a".to_string(),
        interval_secs: 60,
        labels: KeyMap::new(),
        rules: Vec::new(),
    };
    let spec = AlertRuleSpec {
        alert: "HighCpu".to_string(),
        expr: "cpu_usage > 0.5".to_string(),
        interval_secs: None,
        for_secs: 120,
        labels: KeyMap::new(),
        annotations: KeyMap::new(),
    };
    let previous_labels =
        vec![Label::new("alertname", "HighCpu"), Label::new("job", "api|zone=west")];
    let previous = PersistedRuleRuntimeState {
        fingerprint: 0,
        last_eval_timestamp: Some(120_000),
        last_eval_unix_ms: Some(120_000),
        last_success_unix_ms: Some(120_000),
        last_duration_ms: 0,
        last_error: None,
        last_sample_count: 1,
        last_recorded_rows: 0,
        last_outcome: Some(RuleEvaluationOutcome::Success),
        alert_instances: vec![AlertInstanceState {
            key: legacy_alert_instance_key("cpu_usage", &previous_labels),
            source_metric: "cpu_usage".to_string(),
            labels: previous_labels,
            active_since_timestamp: 60_000,
            last_seen_timestamp: 120_000,
            firing_since_timestamp: None,
            state: AlertInstanceStatus::Pending,
            sample_type: "scalar".to_string(),
            sample_value: Some("1".to_string()),
        }],
    };

    let state = evaluate_alert_rule(
        &mut RulesStoreAccounting::new(),
        &RulesRuntimeConfig::default(),
        TimestampPrecision::Milliseconds,
        &group,
        &spec,
        180_000,
        PromqlValue::InstantVector(vec![sample(
            "cpu_usage",
            &[("job", "api|zone=west")],
            1.0f64.to_bits(),
            "1",
        )]),
        previous,
        180_000,
        TENANT_LABEL,
        &key_of,
    )
    .expect("evaluation should succeed");

    assert_eq!(state.alert_instances.len(), 1);
    assert_eq!(state.alert_instances[0].state, AlertInstanceStatus::Firing);
    assert_eq!(state.alert_instances[0].active_since_timestamp, 60_000);
    assert_eq!(state.alert_instances[0].firing_since_timestamp, Some(180_000));
    assert_ne!(
        state.alert_instances[0].key,
        "cpu_usage|alertname=HighCpu|job=api|zone=west"
    );
}

#[test]
fn alert_values_and_limits_are_told_apart() {
    let group = sample_alert_group("alerts", "HighCpu");
    let spec = AlertRuleSpec {
        alert: "HighCpu".to_string(),
        expr: "up".to_string(),
        interval_secs: None,
        for_secs: 0,
        labels: KeyMap::new(),
        annotations: KeyMap::new(),
    };
    let run = |config: RulesRuntimeConfig, value: PromqlValue| {
        evaluate_alert_rule(
            &mut RulesStoreAccounting::new(),
            &config,
            TimestampPrecision::Seconds,
            &group,
            &spec,
            10,
            value,
            PersistedRuleRuntimeState::fresh(0),
            0,
            TENANT_LABEL,
            &key_of,
        )
    };
    let plain = RulesRuntimeConfig::default();
    assert_eq!(
        run(plain, PromqlValue::RangeVector),
        Err("alert rule must evaluate to a scalar or instant vector".to_string())
    );
    assert_eq!(
        run(plain, PromqlValue::Text),
        Err("alert rule cannot evaluate to a string".to_string())
    );
    let scalar = run(plain, PromqlValue::Scalar { value: PointValue::Number(1), shown: "1".to_string() })
        .expect("a scalar raises one alert");
    assert_eq!(scalar.alert_instances.len(), 1);
    assert_eq!(scalar.alert_instances[0].source_metric, "");
    assert_eq!(scalar.alert_instances[0].sample_type, "scalar");
    let two = || {
        PromqlValue::InstantVector(vec![
            sample("up", &[("a", "2")], 1, "1"),
            sample("up", &[("a", "1")], 1, "1"),
        ])
    };
    assert_eq!(
        run(RulesRuntimeConfig { max_alert_instances_per_rule: 1, ..plain }, two()),
        Err("alert rule result exceeds its finite instance limit".to_string())
    );
    let sorted = run(plain, two()).expect("two alerts");
    assert!(sorted.alert_instances[0].key < sorted.alert_instances[1].key);
    let with = |change: &dyn Fn(&mut RulesStoreLimits), value: PromqlValue| {
        let mut limits = test_store_limits();
        change(&mut limits);
        run(config_with(limits), value).expect_err("it should be refused")
    };
    let one = |labels: &[(&str, &str)]| {
        PromqlValue::InstantVector(vec![sample("up", labels, 1, "1")])
    };
    assert_eq!(
        with(&|limits| limits.max_name_bytes = 1, one(&[])),
        "alert rule output exceeds a finite state limit"
    );
    assert_eq!(
        with(&|limits| limits.max_labels_per_set = 1, one(&[("a", "b")])),
        "alert rule output exceeds a finite label-count limit"
    );
    assert_eq!(
        with(&|_limits| {}, one(&[("", "b")])),
        "alert rule output contains an invalid label"
    );
    assert_eq!(
        with(&|limits| limits.max_label_set_bytes = 17, one(&[("a", "b")])),
        "alert rule output exceeds a finite label-byte limit"
    );
    assert_eq!(
        with(&|limits| limits.max_runtime_update_transient_bytes = 1, one(&[("a", "b")])),
        RulesLimitSurface::RuntimeUpdate.message()
    );
    assert_eq!(
        with(&|_limits| {}, one(&[("__name__", "b")])),
        "rule output contains an invalid label name"
    );
}

#[test]
fn rows_are_recorded_with_merged_labels() {
    let mut group = sample_recording_group("recording", "job:up");
    group.labels = texts(&[("region", "eu"), ("team", "group")]);
    let spec = RecordingRuleSpec {
        record: "job:up".to_string(),
        expr: "up".to_string(),
        interval_secs: None,
        labels: texts(&[("team", "rule")]),
    };
    let rows = recording_rows(
        2,
        &group,
        &spec,
        60,
        PromqlValue::InstantVector(vec![sample(
            "up",
            &[("team", "sample"), ("region", "sample"), ("host", "a")],
            9,
            "1",
        )]),
        TENANT_LABEL,
    )
    .expect("one row");
    assert_eq!(rows.len(), 1);
    assert_eq!(rows[0].metric, "job:up");
    assert_eq!(
        rows[0].labels,
        vec![Label::new("host", "a"), Label::new("region", "eu"), Label::new("team", "rule")]
    );
    assert_eq!(rows[0].point.timestamp, 60);
    assert_eq!(rows[0].point.value, PointValue::Number(9));
    let said = |max: usize, value: PromqlValue| {
        recording_rows(max, &group, &spec, 60, value, TENANT_LABEL).expect_err("it is refused")
    };
    assert_eq!(
        said(0, PromqlValue::Scalar { value: PointValue::Number(1), shown: "1".to_string() }),
        "recording rule result exceeds its finite row limit"
    );
    assert_eq!(
        said(1, PromqlValue::RangeVector),
        "recording rule must evaluate to a scalar or instant vector"
    );
    assert_eq!(said(1, PromqlValue::Text), "recording rule cannot record string results");
    assert_eq!(
        merged_rule_labels(
            &vec![Label::new("a", " ")],
            &KeyMap::new(),
            &KeyMap::new(),
            TENANT_LABEL
        ),
        Err("rule output contains an invalid label value".to_string())
    );
}

fn started(runtime: &mut RulesRuntime, now: i64) -> RulesRun {
    match runtime.begin_run(true, now, now as u64) {
        RunStart::Started(run) => run,
        other => panic!("unexpected start {other:?}"),
    }
}

#[test]
fn a_recording_rule_claims_its_interval_before_it_is_evaluated() {
    let mut runtime = open_runtime(test_store_limits());
    apply(&mut runtime.store, vec![sample_recording_group("recording", "job:up")])
        .expect("it should apply");
    let (id, _) = configured_runtime_identity(&runtime.store);
    let mut run = started(&mut runtime, 61_234);
    assert_eq!(runtime.consider_rule(&mut run, encode_state, written), RuleStep::Evaluate);
    let claim = run.claimed.as_ref().expect("the rule is claimed");
    assert_eq!((claim.eval_timestamp, claim.rule_id.as_str()), (60_000, id.as_str()));
    let known = runtime.store.state.runtime.get(&id).expect("it is known");
    assert_eq!(known.last_eval_timestamp, Some(60_000));
    assert_eq!(known.last_outcome, Some(RuleEvaluationOutcome::Error));
    assert_eq!(
        known.last_error.as_deref(),
        Some("recording rule evaluation attempt checkpointed; final outcome pending")
    );
    // The outcome is never kept, and yet the interval is not evaluated again.
    drop(run);
    let mut again = started(&mut runtime, 119_999);
    assert_eq!(runtime.consider_rule(&mut again, encode_state, written), RuleStep::NotDue);
    assert_eq!(runtime.consider_rule(&mut again, encode_state, written), RuleStep::Done);
    let mut later = started(&mut runtime, 120_000);
    assert_eq!(runtime.consider_rule(&mut later, encode_state, written), RuleStep::Evaluate);
    let usage = later
        .finish_rule(Ok(alert_runtime_update(0, 0)), 3)
        .expect("the evaluation is recorded");
    assert_eq!(usage.operation, "recording_rule");
    assert_eq!(usage.tenant_id, "team-a");
    assert_eq!((usage.succeeded, usage.request_units), (true, 1));
    assert_eq!(usage.duration_nanos, 3_000_000);
    assert!(runtime.finish_run(later, encode_state, written));
    let known = runtime.store.state.runtime.get(&id).expect("it is known");
    assert_eq!(known.last_duration_ms, 3);
    assert_eq!(known.last_error, None);
    assert_eq!(runtime.metrics.scheduler_runs_total, 3);
    assert_eq!(runtime.metrics.evaluated_rules_total, 1);
}

#[test]
fn a_claim_that_cannot_be_kept_leaves_the_rule_unevaluated() {
    let limits = test_store_limits();
    let mut runtime = RulesRuntime::open_with_config(
        open_store(true, limits),
        TimestampPrecision::Milliseconds,
        false,
        config_with(limits),
    )
    .expect("it should open");
    apply(&mut runtime.store, vec![sample_recording_group("recording", "job:up")])
        .expect("it should apply");
    let mut run = started(&mut runtime, 60_000);
    assert_eq!(
        runtime.consider_rule(&mut run, encode_state, |_bytes: &Vec<u8>| {
            Err("disk full".to_string())
        }),
        RuleStep::NotClaimed
    );
    assert!(run.claimed.is_none());
    assert_eq!(run.last_error.as_deref(), Some("recording rule attempt checkpoint failed"));
    assert!(runtime.finish_run(run, encode_state, written));
    assert_eq!(runtime.metrics.evaluation_failures_total, 1);
    assert_eq!(runtime.metrics.evaluated_rules_total, 0);

    // A rule that was replaced meanwhile cannot be claimed either.
    let mut run = started(&mut runtime, 60_000);
    apply(&mut runtime.store, vec![sample_recording_group("recording", "job:other")])
        .expect("it should apply");
    assert_eq!(runtime.consider_rule(&mut run, encode_state, written), RuleStep::NotClaimed);
    assert_eq!(
        run.last_error.as_deref(),
        Some("recording rule attempt checkpoint was skipped")
    );
}

#[test]
fn a_failed_evaluation_is_kept_and_counted() {
    let mut runtime = open_runtime(test_store_limits());
    apply(&mut runtime.store, vec![sample_alert_group("alerts", "HighUsage")])
        .expect("it should apply");
    let (id, fingerprint) = configured_runtime_identity(&runtime.store);
    let mut run = started(&mut runtime, 60_000);
    assert_eq!(runtime.consider_rule(&mut run, encode_state, written), RuleStep::Evaluate);
    assert_eq!(runtime.store.state.runtime.get(&id).expect("known").last_eval_timestamp, None);
    let usage = run
        .finish_rule(Err("rules query evaluation failed".to_string()), 2)
        .expect("the evaluation is recorded");
    assert_eq!((usage.operation, usage.succeeded), ("alert_rule", false));
    assert_eq!(run.finish_rule(Err("again".to_string()), 2), None);
    let failures = RefCell::new(0usize);
    assert!(!RulesRuntime::finish_run(
        &mut {
            let mut durable = RulesRuntime::open_with_config(
                open_store(true, test_store_limits()),
                TimestampPrecision::Milliseconds,
                false,
                config_with(test_store_limits()),
            )
            .expect("it should open");
            apply(&mut durable.store, vec![sample_alert_group("alerts", "HighUsage")])
                .expect("it should apply");
            durable
        },
        {
            let mut other = started(&mut runtime, 60_000);
            runtime.consider_rule(&mut other, encode_state, written);
            other.finish_rule(Err("failed".to_string()), 1);
            other
        },
        encode_state,
        |_bytes: &Vec<u8>| {
            *failures.borrow_mut() += 1;
            Err("disk full".to_string())
        },
    ));
    assert_eq!(*failures.borrow(), 1);
    assert!(runtime.finish_run(run, encode_state, written));
    let known = runtime.store.state.runtime.get(&id).expect("it is known");
    assert_eq!(known.fingerprint, fingerprint);
    assert_eq!(known.last_eval_timestamp, Some(60_000));
    assert_eq!(known.last_error.as_deref(), Some("rules query evaluation failed"));
    assert_eq!(runtime.metrics.evaluation_failures_total, 1);
    assert_eq!(runtime.metrics.last_error.as_deref(), Some("rules query evaluation failed"));
    let shown = runtime.snapshot(true).expect("status should build");
    assert_eq!(shown.groups[0].rules[0].state, "error");
}

#[test]
fn runs_are_skipped_where_they_must_not_begin() {
    let mut runtime = open_runtime(RulesStoreLimits {
        max_snapshot_status_bytes: 1,
        ..test_store_limits()
    });
    match runtime.begin_run(false, 0, 5) {
        RunStart::NotLeader => {}
        other => panic!("unexpected start {other:?}"),
    }
    assert_eq!(runtime.metrics.scheduler_skipped_not_leader_total, 1);
    assert_eq!(runtime.metrics.last_run_unix_ms, Some(5));
    match runtime.begin_run(true, 0, 6) {
        RunStart::SnapshotFailed => {}
        other => panic!("unexpected start {other:?}"),
    }
    assert_eq!(runtime.metrics.last_error.as_deref(), Some("rules state snapshot failed"));
    assert!(runtime.try_acquire_run());
    assert!(!runtime.try_acquire_run());
    runtime.skip_inflight_run();
    assert_eq!(runtime.metrics.scheduler_skipped_inflight_total, 1);
    runtime.release_run();
    assert!(runtime.try_acquire_run());
}

#[test]
fn times_that_cannot_be_aligned_are_told() {
    assert!(can_align(0, 60) && can_align(-1, 60) && can_align(i64::MIN, 1));
    assert!(!can_align(i64::MIN, 60));
    assert!(can_align(i64::MIN + 60, 60));
    let mut runtime = open_runtime(test_store_limits());
    apply(&mut runtime.store, vec![sample_recording_group("recording", "job:up")])
        .expect("it should apply");
    let run = started(&mut runtime, 61_234);
    assert!(run.next_can_be_aligned(TimestampPrecision::Milliseconds));
    let early = RulesRun { now_timestamp: i64::MIN, ..run };
    assert!(!early.next_can_be_aligned(TimestampPrecision::Milliseconds));
}

#[test]
fn a_second_run_in_the_same_intervals_evaluates_nothing() {
    let mut runtime = open_durable_runtime(test_store_limits());
    apply(
        &mut runtime.store,
        vec![
            sample_recording_group("recording", "job:up"),
            sample_alert_group("alerts", "HighUsage"),
        ],
    )
    .expect("it should apply");
    let mut run = started(&mut runtime, 61_234);
    for (outcome, duration) in [(true, 3), (false, 4)] {
        assert_eq!(runtime.consider_rule(&mut run, encode_state, written), RuleStep::Evaluate);
        let kept = if outcome {
            Ok(alert_runtime_update(0, 0))
        } else {
            Err("the query failed".to_string())
        };
        run.finish_rule(kept, duration).expect("the evaluation is recorded");
    }
    assert_eq!(runtime.consider_rule(&mut run, encode_state, written), RuleStep::Done);
    assert!(runtime.finish_run(run, encode_state, written));
    let known = runtime.store.state.copied();

    let mut second = started(&mut runtime, 119_999);
    let unused_encode = |_state: &PersistedRulesStoreState, _over: &RuntimeMap| {
        panic!("nothing is encoded")
    };
    let unused_write = |_bytes: &Vec<u8>| panic!("nothing is written");
    for _ in 0..2 {
        assert_eq!(
            runtime.consider_rule(&mut second, unused_encode, unused_write),
            RuleStep::NotDue
        );
    }
    assert_eq!(
        runtime.consider_rule(&mut second, unused_encode, unused_write),
        RuleStep::Done
    );
    assert_eq!(second.evaluated_rules, 0);
    assert!(runtime.finish_run(second, unused_encode, unused_write));
    for index in 0..known.runtime.len() {
        let id = known.runtime.key_at(index);
        assert_eq!(runtime.store.state.runtime.get(id), Some(known.runtime.value_at(index)));
    }
    assert_eq!(runtime.metrics.evaluated_rules_total, 2);

    let mut third = started(&mut runtime, 120_000);
    assert_eq!(runtime.consider_rule(&mut third, encode_state, written), RuleStep::Evaluate);
}

#[test]
fn a_status_is_kept_as_the_bytes_it_is_measured_to_hold() {
    let mut runtime = open_runtime(RulesStoreLimits {
        max_snapshot_status_bytes: 1024 * 1024,
        ..test_store_limits()
    });
    let shown = |runtime: &mut RulesRuntime| runtime.snapshot(true).expect("it is shown");
    let charged = Cell::new(0u64);
    let note = |bytes: u64| {
        charged.set(bytes);
        Ok(())
    };
    let snapshot = shown(&mut runtime);
    let (_, reserved) = runtime
        .keep_status_snapshot(snapshot, 1024 * 1024, 9, 9, &go_on, &note)
        .expect("both limits are met exactly");
    assert_eq!((reserved, charged.get()), (9, 9));
    charged.set(0);
    let snapshot = shown(&mut runtime);
    let over = runtime
        .keep_status_snapshot(snapshot, 1024 * 1024 + 1, 9, 9, &go_on, &note)
        .err()
        .expect("the status is too long");
    assert!(matches!(over, RulesStatusProjectionError::StatusLimit));
    let snapshot = shown(&mut runtime);
    let over = runtime
        .keep_status_snapshot(snapshot, 1, 10, 9, &go_on, &note)
        .err()
        .expect("the charge is more than was reserved");
    assert!(matches!(over, RulesStatusProjectionError::Serialization(_)));
    assert_eq!(charged.get(), 0);
}

fn scaled(number: &str, unit: DurationUnit) -> Option<u64> {
    let number: f64 = number.parse().ok()?;
    let secs = match unit {
        DurationUnit::Milliseconds => number / 1_000.0,
        DurationUnit::Seconds => number,
        DurationUnit::Minutes => number * 60.0,
        DurationUnit::Hours => number * 3_600.0,
        DurationUnit::Days => number * 86_400.0,
        DurationUnit::Weeks => number * 604_800.0,
        DurationUnit::Years => number * 365.25 * 86_400.0,
        DurationUnit::Unknown => return Some(0),
    };
    if !secs.is_finite() || secs <= 0.0 {
        return None;
    }
    Some(secs.ceil() as u64)
}

#[test]
fn rules_apply_request_parses_duration_strings() {
    let request = RulesApplyRequest {
        groups: vec![RuleGroupInput {
            name: "example".to_string(),
            tenant_id: "team-a".to_string(),
            interval: Some(DurationInput::String("30s".to_string())),
            labels: KeyMap::new(),
            rules: vec![RuleInput::Alert {
                alert: "HighUsage".to_string(),
                expr: "up == 0".to_string(),
                interval: None,
                for_duration: Some(DurationInput::String("5m".to_string())),
                labels: KeyMap::new(),
                annotations: KeyMap::new(),
            }],
        }],
    };
    let groups = request.into_groups(&scaled).expect("request should parse");
    assert_eq!(groups[0].interval_secs, 30);
    match &groups[0].rules[0] {
        RuleSpec::Alert(spec) => assert_eq!(spec.for_secs, 300),
        other => panic!("expected alert rule, got {other:?}"),
    }
}

#[test]
fn durations_are_read_in_every_unit() {
    let read = |text: &str| DurationInput::String(text.to_string()).into_secs(&scaled);
    for (text, secs) in [
        (" 45 ", 45),
        ("+7", 7),
        ("1ms", 1),
        ("1001ms", 2),
        ("2s", 2),
        ("3h", 10_800),
        ("2d", 172_800),
        ("1w", 604_800),
        ("1y", 31_557_600),
        ("1.5h", 5_400),
        ("0.1s", 1),
        ("1e2s", 100),
        ("99999999999999999999y", u64::MAX),
    ] {
        assert_eq!(read(text), Ok(secs), "{text}");
        if text.ends_with(|unit: char| unit.is_ascii_alphabetic()) {
            let number = text.trim().trim_end_matches(|unit: char| unit.is_ascii_alphabetic());
            let unit = match &text.trim()[number.len()..] {
                "ms" => DurationUnit::Milliseconds,
                "s" => DurationUnit::Seconds,
                "h" => DurationUnit::Hours,
                "d" => DurationUnit::Days,
                "w" => DurationUnit::Weeks,
                _ => DurationUnit::Years,
            };
            assert_eq!(scaled(number, unit), Some(secs), "{text}");
        }
    }
    let said = |text: &str| read(text).expect_err("it should be refused");
    assert_eq!(said("  "), "empty duration value");
    assert_eq!(said("0"), "duration must be greater than zero");
    assert_eq!(said("0m"), "invalid rules duration");
    assert_eq!(said("x"), "invalid rules duration");
    assert_eq!(said("-5s"), "invalid rules duration");
    assert_eq!(said("infs"), "invalid rules duration");
    assert_eq!(said("5q"), "invalid rules duration unit");
    assert_eq!(said("ms"), "invalid rules duration");
    assert_eq!(
        DurationInput::Integer(0).into_secs(&scaled),
        Err("duration must be greater than zero".to_string())
    );
    assert_eq!(DurationInput::Integer(9).into_secs(&scaled), Ok(9));
    let request = RulesApplyRequest {
        groups: vec![RuleGroupInput {
            name: "example".to_string(),
            tenant_id: "team-a".to_string(),
            interval: None,
            labels: KeyMap::new(),
            rules: vec![RuleInput::Recording {
                record: "r".to_string(),
                expr: "e".to_string(),
                interval: Some(DurationInput::String("2m".to_string())),
                labels: texts(&[("a", "b")]),
            }],
        }],
    };
    let groups = request.into_groups(&scaled).expect("request should parse");
    assert_eq!(groups[0].interval_secs, 60);
    match &groups[0].rules[0] {
        RuleSpec::Recording(spec) => {
            assert_eq!(spec.interval_secs, Some(120));
            assert_eq!(spec.labels, texts(&[("a", "b")]));
        }
        other => panic!("expected recording rule, got {other:?}"),
    }
}

#[test]
fn the_environment_configures_the_runtime() {
    let env = |tick: EnvValue, rows: EnvValue, instances: EnvValue| RulesEnvironment {
        scheduler_tick_ms: tick,
        max_recording_rows_per_eval: rows,
        max_alert_instances_per_rule: instances,
    };
    let text = |value: &str| EnvValue::Text(value.to_string());
    assert_eq!(
        RulesRuntimeConfig::from_env(&env(EnvValue::Missing, EnvValue::Missing, EnvValue::Missing)),
        Ok(RulesRuntimeConfig::default())
    );
    let config =
        RulesRuntimeConfig::from_env(&env(text(" 250 "), text("+5"), text("7"))).expect("valid");
    assert_eq!(config.scheduler_tick_nanos, 250_000_000);
    assert_eq!(config.scheduler_tick_ms(), 250);
    assert_eq!(config.max_recording_rows_per_eval, 5);
    assert_eq!(config.max_alert_instances_per_rule, 7);
    let said = |tick: EnvValue, rows: EnvValue, instances: EnvValue| {
        RulesRuntimeConfig::from_env(&env(tick, rows, instances)).expect_err("it is refused")
    };
    assert_eq!(
        said(text("0"), EnvValue::Missing, EnvValue::Missing),
        "TSINK_RULES_SCHEDULER_TICK_MS must be greater than zero"
    );
    assert_eq!(
        said(EnvValue::Missing, text("many"), EnvValue::Missing),
        "TSINK_RULES_MAX_RECORDING_ROWS_PER_EVAL must be a positive integer"
    );
    assert_eq!(
        said(EnvValue::Missing, EnvValue::Missing, EnvValue::NotUnicode),
        "TSINK_RULES_MAX_ALERT_INSTANCES_PER_RULE must be valid UTF-8"
    );
    assert_eq!(
        said(EnvValue::Missing, EnvValue::Missing, text("10001")),
        "rules runtime alert limit exceeds the rules store alert limit"
    );
    assert_eq!(
        said(text("18446744073709551616"), EnvValue::Missing, EnvValue::Missing),
        "TSINK_RULES_SCHEDULER_TICK_MS must be a positive integer"
    );
}

#[test]
fn a_fingerprint_is_the_hash_of_the_definition() {
    // The published test vector for the hash.
    assert_eq!(fnv1a(&b"foobar".to_vec()), 0x85944171f73967e8);
    let mut group = sample_alert_group("al\"erts", "HighUsage");
    group.labels = texts(&[("b", "2"), ("a", "1")]);
    let rule = "{\"kind\":\"alert\",\"alert\":\"HighUsage\",\"expr\":\"source_metric > 0\",\
        \"intervalSecs\":null,\"forSecs\":0,\"labels\":{},\"annotations\":{}}";
    let definition = format!(
        "[{{\"name\":\"al\\\"erts\",\"tenantId\":\"team-a\",\"intervalSecs\":60,\
        \"labels\":{{\"a\":\"1\",\"b\":\"2\"}},\"rules\":[{rule}]}},{rule}]"
    );
    assert_eq!(
        rule_fingerprint(&group, &group.rules[0]),
        fnv1a(&definition.into_bytes())
    );
    let recording = sample_recording_group("g", "r");
    let rule = "{\"kind\":\"recording\",\"record\":\"r\",\"expr\":\"source_metric\",\
        \"intervalSecs\":null,\"labels\":{}}";
    let definition = format!(
        "[{{\"name\":\"g\",\"tenantId\":\"team-a\",\"intervalSecs\":60,\"labels\":{{}},\
        \"rules\":[{rule}]}},{rule}]"
    );
    assert_eq!(
        rule_fingerprint(&recording, &recording.rules[0]),
        fnv1a(&definition.into_bytes())
    );
    assert_eq!(rule_id(&recording, &recording.rules[0]), "team-a/g/recording/r");
}

#[test]
fn times_are_aligned_to_their_interval() {
    assert_eq!(align_eval_timestamp(119_999, 60_000), 60_000);
    assert_eq!(align_eval_timestamp(120_000, 60_000), 120_000);
    assert_eq!(align_eval_timestamp(-1, 60_000), -60_000);
    assert_eq!(align_eval_timestamp(-60_000, 60_000), -60_000);
    assert_eq!(align_eval_timestamp(7, 1), 7);
    assert_eq!(duration_units(60, TimestampPrecision::Milliseconds), 60_000);
    assert_eq!(duration_units(60, TimestampPrecision::Nanoseconds), 60_000_000_000);
    assert_eq!(duration_units(0, TimestampPrecision::Seconds), 1);
    assert_eq!(duration_units(u64::MAX, TimestampPrecision::Microseconds), 1);
}

#[test]
fn the_cluster_is_made_of_the_nodes_that_remain() {
    let node = |id: &str, removed: bool| ControlNode {
        id: id.to_string(),
        endpoint: format!("{id}:9311"),
        removed,
    };
    let membership = membership_from_control_state(
        "node-b",
        &vec![node("node-c", false), node("node-a", true), node("node-b", false)],
    )
    .expect("this node is a member");
    let ids: Vec<&str> = membership.nodes.iter().map(|node| node.id.as_str()).collect();
    assert_eq!(ids, ["node-b", "node-c"]);
    assert_eq!(
        membership_from_control_state("node-a", &vec![node("node-a", true)]),
        Err("local node 'node-a' missing from control-state membership".to_string())
    );
    assert_eq!(current_cluster_ring_version(None), 1);
    assert_eq!(current_cluster_ring_version(Some(0)), 1);
    assert_eq!(current_cluster_ring_version(Some(7)), 7);
    assert!(scheduler_enabled_here(false, Some(false)));
    assert!(!scheduler_enabled_here(true, Some(false)));
    assert!(scheduler_enabled_here(true, None));
}

#[test]
fn a_copy_of_the_durable_state_is_written_elsewhere() {
    let mut store = open_store(true, test_store_limits());
    apply(&mut store, vec![sample_recording_group("copy", "copied")]).expect("it should apply");
    let bytes = RefCell::new(Vec::new());
    store
        .snapshot_into(encode_state, |encoded: &Vec<u8>| {
            *bytes.borrow_mut() = encoded.clone();
            Ok(())
        })
        .expect("the copy is written");
    assert_eq!(
        Some(bytes.into_inner()),
        encode_state(&store.state, &KeyMap::new())
    );
    assert!(store.accounting.peak_snapshot_file_bytes > 0);
    assert_eq!(
        store.snapshot_into(encode_state, |_bytes: &Vec<u8>| Err("no space".to_string())),
        Err("failed to write rules snapshot".to_string())
    );
    assert_eq!(
        store.snapshot_into(
            |_state: &PersistedRulesStoreState, _over: &RuntimeMap| None,
            written
        ),
        Err("failed to encode rules durable state".to_string())
    );
    assert_eq!(store.snapshot().expect("the state is copied"), store.state);
}

/// Runs the rules that are due at a time, the values of their expressions given.
fn run_due_at(
    runtime: &mut RulesRuntime,
    now: i64,
    value_of: &dyn Fn(&str, i64) -> PromqlValue,
    rows: &mut Vec<Row>,
) {
    let file = RefCell::new(Vec::new());
    run_due_on(runtime, now, value_of, rows, encode_state, &file);
}

/// Runs the rules that are due at a time, the values of their expressions given, with the file that
/// the state is written to.
fn run_due_on(
    runtime: &mut RulesRuntime,
    now: i64,
    value_of: &dyn Fn(&str, i64) -> PromqlValue,
    rows: &mut Vec<Row>,
    encode: fn(&PersistedRulesStoreState, &RuntimeMap) -> Option<Vec<u8>>,
    file: &RefCell<Vec<u8>>,
) {
    let write = |bytes: &Vec<u8>| {
        *file.borrow_mut() = bytes.clone();
        Ok(())
    };
    let mut run = started(runtime, now);
    loop {
        match runtime.consider_rule(&mut run, encode, write) {
            RuleStep::Done => break,
            RuleStep::NotDue | RuleStep::NotClaimed => continue,
            RuleStep::Evaluate => {}
        }
        let claim = run.claimed.as_ref().expect("the rule is claimed");
        let timestamp = claim.eval_timestamp;
        let group = &run.groups[claim.place.0];
        let rule = &group.rules[claim.place.1];
        let value = value_of(rule_expr(rule), timestamp);
        let outcome = match rule {
            RuleSpec::Recording(spec) => {
                recording_rows(10, group, spec, timestamp, value, TENANT_LABEL).map(|recorded| {
                    let count = recorded.len();
                    rows.extend(recorded);
                    recorded_state(timestamp, now as u64, count)
                })
            }
            RuleSpec::Alert(spec) => evaluate_alert_rule(
                &mut runtime.store.accounting,
                &runtime.config,
                runtime.precision,
                group,
                spec,
                timestamp,
                value,
                claim.previous.copied(),
                now as u64,
                TENANT_LABEL,
                &key_of,
            ),
        };
        run.finish_rule(outcome, 1);
    }
    assert!(runtime.finish_run(run, encode, write));
}

fn object(fields: Vec<(&str, serde_json::Value)>) -> serde_json::Value {
    serde_json::Value::Object(
        fields.into_iter().map(|(name, value)| (name.to_string(), value)).collect(),
    )
}

fn opt_json<T: Into<serde_json::Value>>(value: Option<T>) -> serde_json::Value {
    value.map_or(serde_json::Value::Null, Into::into)
}

/// The durable file of a state with recording rules that have no labels.
fn encode_recording(state: &PersistedRulesStoreState, over: &RuntimeMap) -> Option<Vec<u8>> {
    let groups = state.groups.iter().map(|group| {
        let rules = group.rules.iter().map(|rule| match rule {
            RuleSpec::Recording(spec) => object(vec![
                ("record", spec.record.as_str().into()),
                ("expr", spec.expr.as_str().into()),
                ("interval_secs", opt_json(spec.interval_secs)),
            ]),
            RuleSpec::Alert(_) => panic!("only recording rules are written here"),
        });
        object(vec![
            ("name", group.name.as_str().into()),
            ("tenant_id", group.tenant_id.as_str().into()),
            ("interval_secs", group.interval_secs.into()),
            ("rules", serde_json::Value::Array(rules.collect())),
        ])
    });
    let runtime = (0..state.runtime.len()).map(|index| {
        let id = state.runtime.key_at(index);
        let known = over.get(id).unwrap_or(state.runtime.value_at(index));
        let outcome = match known.last_outcome {
            Some(RuleEvaluationOutcome::Success) => "success".into(),
            Some(RuleEvaluationOutcome::Error) => "error".into(),
            None => serde_json::Value::Null,
        };
        object(vec![
            ("id", id.as_str().into()),
            ("fingerprint", known.fingerprint.into()),
            ("last_eval_timestamp", opt_json(known.last_eval_timestamp)),
            ("last_eval_unix_ms", opt_json(known.last_eval_unix_ms)),
            ("last_success_unix_ms", opt_json(known.last_success_unix_ms)),
            ("last_duration_ms", known.last_duration_ms.into()),
            ("last_error", opt_json(known.last_error.clone())),
            ("last_sample_count", known.last_sample_count.into()),
            ("last_recorded_rows", known.last_recorded_rows.into()),
            ("last_outcome", outcome),
        ])
    });
    let file = object(vec![
        ("magic", "tsink-rules-store".into()),
        ("schema_version", 1.into()),
        ("groups", serde_json::Value::Array(groups.collect())),
        ("runtime", serde_json::Value::Array(runtime.collect())),
    ]);
    serde_json::to_vec(&file).ok()
}

fn decode_recording(bytes: &Vec<u8>) -> Result<PersistedRulesStore, RulesDecodeError> {
    let file: serde_json::Value =
        serde_json::from_slice(bytes).map_err(|_| RulesDecodeError::Malformed)?;
    let text = |value: &serde_json::Value| value.as_str().expect("a text").to_string();
    let number = |value: &serde_json::Value| value.as_u64().expect("a number");
    let list = |value: &serde_json::Value| value.as_array().expect("a list").clone();
    let mut runtime = KeyMap::new();
    for known in list(&file["runtime"]) {
        runtime.insert(
            text(&known["id"]),
            PersistedRuleRuntimeState {
                fingerprint: number(&known["fingerprint"]),
                last_eval_timestamp: known["last_eval_timestamp"].as_i64(),
                last_eval_unix_ms: known["last_eval_unix_ms"].as_u64(),
                last_success_unix_ms: known["last_success_unix_ms"].as_u64(),
                last_duration_ms: number(&known["last_duration_ms"]),
                last_error: known["last_error"].as_str().map(str::to_string),
                last_sample_count: number(&known["last_sample_count"]),
                last_recorded_rows: number(&known["last_recorded_rows"]),
                last_outcome: match known["last_outcome"].as_str() {
                    Some("success") => Some(RuleEvaluationOutcome::Success),
                    Some(_) => Some(RuleEvaluationOutcome::Error),
                    None => None,
                },
                alert_instances: Vec::new(),
            },
        );
    }
    let groups = list(&file["groups"])
        .iter()
        .map(|group| RuleGroupSpec {
            name: text(&group["name"]),
            tenant_id: text(&group["tenant_id"]),
            interval_secs: number(&group["interval_secs"]),
            labels: KeyMap::new(),
            rules: list(&group["rules"])
                .iter()
                .map(|rule| {
                    RuleSpec::Recording(RecordingRuleSpec {
                        record: text(&rule["record"]),
                        expr: text(&rule["expr"]),
                        interval_secs: rule["interval_secs"].as_u64(),
                        labels: KeyMap::new(),
                    })
                })
                .collect(),
        })
        .collect();
    Ok(PersistedRulesStore {
        magic: text(&file["magic"]),
        schema_version: number(&file["schema_version"]) as u16,
        state: PersistedRulesStoreState { groups, runtime },
    })
}

/// The runtime on the state of a file, as it is loaded after a restart.
fn reopened_on(file: &RefCell<Vec<u8>>, limits: RulesStoreLimits) -> RulesRuntime {
    let mut counters = RulesStoreAccounting::new();
    let loaded = load_rules_store_state(
        &limits,
        &mut counters,
        &Some(file.borrow().clone()),
        decode_recording,
        |groups: &Vec<RuleGroupSpec>| checks(groups),
    )
    .expect("what was written is loaded");
    assert_eq!(loaded.durable_file_bytes, file.borrow().len());
    let store = RulesStore::open_with_limits(
        true,
        limits,
        loaded.state,
        loaded.durable_file_bytes,
        loaded.startup_transient_bytes,
        counters,
    )
    .expect("the store should reopen");
    open_runtime_on(store, limits)
}

fn apply_on(runtime: &mut RulesRuntime, groups: Vec<RuleGroupSpec>, file: &RefCell<Vec<u8>>) {
    let checks = checks(&groups);
    runtime
        .store
        .apply_groups(groups, &checks, encode_recording, |bytes: &Vec<u8>| {
            *file.borrow_mut() = bytes.clone();
            Ok(())
        })
        .expect("rule config should apply");
}

#[test]
fn recording_rule_writes_rows_once_per_aligned_timestamp_and_persists_state() {
    let mut runtime = open_durable_runtime(test_store_limits());
    let file = RefCell::new(Vec::new());
    let group = || RuleGroupSpec {
        name: "recording".to_string(),
        tenant_id: "team-a".to_string(),
        interval_secs: 60,
        labels: KeyMap::new(),
        rules: vec![RuleSpec::Recording(RecordingRuleSpec {
            record: "recorded_metric".to_string(),
            expr: "source_metric{host=\"a\"}".to_string(),
            interval_secs: None,
            labels: KeyMap::new(),
        })],
    };
    apply_on(&mut runtime, vec![group()], &file);
    let value_of = |expr: &str, _timestamp: i64| {
        assert_eq!(expr, "source_metric{host=\"a\"}");
        PromqlValue::InstantVector(vec![sample(
            "source_metric",
            &[("host", "a")],
            2.5f64.to_bits(),
            "2.5",
        )])
    };
    let mut rows = Vec::new();
    run_due_on(&mut runtime, 60_000, &value_of, &mut rows, encode_recording, &file);
    run_due_on(&mut runtime, 60_001, &value_of, &mut rows, encode_recording, &file);
    assert_eq!(rows.len(), 1);
    assert_eq!(rows[0].metric, "recorded_metric");
    assert_eq!(rows[0].labels, vec![Label::new("host", "a")]);
    assert_eq!(rows[0].point.timestamp, 60_000);
    assert_eq!(rows[0].point.value, PointValue::Number(2.5f64.to_bits()));

    let mut reopened = reopened_on(&file, test_store_limits());
    assert_eq!(reopened.store.state.groups, runtime.store.state.groups);
    assert_eq!(reopened.store.state.runtime, runtime.store.state.runtime);
    run_due_on(&mut reopened, 60_500, &value_of, &mut rows, encode_recording, &file);
    assert_eq!(rows.len(), 1);
}

fn alert_group(expr: &str, for_secs: u64, labels: &[(&str, &str)]) -> RuleGroupSpec {
    RuleGroupSpec {
        name: "alerts".to_string(),
        tenant_id: "team-a".to_string(),
        interval_secs: 60,
        labels: KeyMap::new(),
        rules: vec![RuleSpec::Alert(AlertRuleSpec {
            alert: "HighCpu".to_string(),
            expr: expr.to_string(),
            interval_secs: None,
            for_secs,
            labels: texts(labels),
            annotations: KeyMap::new(),
        })],
    }
}

#[test]
fn alert_rule_tracks_pending_and_firing_then_clears() {
    let mut runtime = open_runtime(test_store_limits());
    let group = alert_group("cpu_usage{host=\"a\"} > 0.5", 60, &[("severity", "page")]);
    apply(&mut runtime.store, vec![group]).expect("alert config should apply");
    let value_of = |_expr: &str, timestamp: i64| {
        PromqlValue::InstantVector(if timestamp < 180_000 {
            vec![sample("cpu_usage", &[("host", "a")], 1.0f64.to_bits(), "1")]
        } else {
            Vec::new()
        })
    };
    let mut rows = Vec::new();
    run_due_at(&mut runtime, 60_000, &value_of, &mut rows);
    let pending = runtime.snapshot(true).expect("snapshot should load");
    assert_eq!(pending.groups[0].rules[0].state, "pending");
    assert_eq!(pending.groups[0].rules[0].alert_instances.len(), 1);
    assert_eq!(
        pending.groups[0].rules[0].alert_instances[0].state,
        AlertInstanceStatus::Pending
    );

    run_due_at(&mut runtime, 120_000, &value_of, &mut rows);
    let firing = runtime.snapshot(true).expect("snapshot should load");
    assert_eq!(firing.groups[0].rules[0].state, "firing");
    assert_eq!(firing.groups[0].rules[0].alert_instances[0].state, AlertInstanceStatus::Firing);

    run_due_at(&mut runtime, 180_000, &value_of, &mut rows);
    let cleared = runtime.snapshot(true).expect("snapshot should load");
    assert_eq!(cleared.groups[0].rules[0].state, "inactive");
    assert!(cleared.groups[0].rules[0].alert_instances.is_empty());
    assert!(rows.is_empty());
}

#[test]
fn alert_rule_tracks_delimiter_collision_instances_independently() {
    let alert_delimiter_job = "api|zone=west";
    let mut runtime = open_runtime(test_store_limits());
    apply(&mut runtime.store, vec![alert_group("cpu_usage > 0.5", 120, &[])])
        .expect("alert config should apply");
    let value_of = |_expr: &str, timestamp: i64| {
        let one = 1.0f64.to_bits();
        let mut samples = vec![sample("cpu_usage", &[("job", alert_delimiter_job)], one, "1")];
        if timestamp >= 120_000 {
            samples.push(sample("cpu_usage", &[("zone", "west"), ("job", "api")], one, "1"));
        }
        PromqlValue::InstantVector(samples)
    };
    let mut rows = Vec::new();
    run_due_at(&mut runtime, 60_000, &value_of, &mut rows);
    let first = runtime.snapshot(true).expect("snapshot should load");
    assert_eq!(first.groups[0].rules[0].state, "pending");
    assert_eq!(first.groups[0].rules[0].alert_instances.len(), 1);
    assert_eq!(first.groups[0].rules[0].alert_instances[0].active_since_timestamp, 60_000);

    run_due_at(&mut runtime, 120_000, &value_of, &mut rows);
    let second = runtime.snapshot(true).expect("snapshot should load");
    assert_eq!(second.groups[0].rules[0].state, "pending");
    assert_eq!(second.groups[0].rules[0].alert_instances.len(), 2);
    assert!(second.groups[0].rules[0]
        .alert_instances
        .iter()
        .all(|instance| instance.state == AlertInstanceStatus::Pending));

    run_due_at(&mut runtime, 180_000, &value_of, &mut rows);
    let third = runtime.snapshot(true).expect("snapshot should load");
    let instances = &third.groups[0].rules[0].alert_instances;
    assert_eq!(third.groups[0].rules[0].state, "firing");
    assert_eq!(instances.len(), 2);
    let of_job = |job: &str| {
        instances
            .iter()
            .find(|instance| {
                instance.labels.iter().any(|label| label.name == "job" && label.value == job)
            })
            .expect("the instance should exist")
    };
    let delimiter_instance = of_job(alert_delimiter_job);
    assert_eq!(delimiter_instance.state, AlertInstanceStatus::Firing);
    assert_eq!(delimiter_instance.active_since_timestamp, 60_000);
    assert_eq!(delimiter_instance.firing_since_timestamp, Some(180_000));
    let plain_instance = of_job("api");
    assert_eq!(plain_instance.state, AlertInstanceStatus::Pending);
    assert_eq!(plain_instance.active_since_timestamp, 120_000);
    assert_eq!(plain_instance.firing_since_timestamp, None);
}

#[test]
fn a_run_is_triggered_unless_one_is_under_way() {
    let mut runtime = open_runtime(test_store_limits());
    assert_eq!(runtime.trigger_run(), Ok(()));
    assert_eq!(runtime.trigger_run(), Err(RulesRunTriggerError::AlreadyRunning));
    let shown = runtime.finish_triggered_run(true).expect("status should build");
    assert!(shown.cluster_leader);
    assert_eq!(runtime.trigger_run(), Ok(()));

    let mut small =
        open_runtime(RulesStoreLimits { max_snapshot_status_bytes: 1, ..test_store_limits() });
    assert_eq!(small.trigger_run(), Ok(()));
    match small.finish_triggered_run(true) {
        Err(RulesRunTriggerError::Snapshot(message)) => {
            assert_eq!(message, RulesLimitSurface::SnapshotStatus.message());
        }
        other => panic!("unexpected outcome {:?}", other.err()),
    }
    assert!(!small.run_inflight);
}

#[test]
fn what_is_measured_decides_on_the_limits() {
    let limits = test_store_limits();
    let mut runtime = open_runtime(limits);
    let snapshot = runtime.snapshot(true).expect("status should build");
    let seen = runtime.store.accounting.peak_snapshot_status_bytes as usize;
    match runtime.hold_length(&snapshot, 0, MAX_BODY_BYTES + 1) {
        Err(RulesStatusProjectionError::StatusLimit) => {}
        other => panic!("unexpected outcome {other:?}"),
    }
    match runtime.hold_length(&snapshot, limits.max_snapshot_status_bytes, 1) {
        Err(RulesStatusProjectionError::StatusLimit) => {}
        other => panic!("unexpected outcome {other:?}"),
    }
    assert_eq!(runtime.store.accounting.snapshot_rejections_total, 2);
    assert_eq!(
        runtime.store.accounting.peak_snapshot_status_bytes,
        limits.max_snapshot_status_bytes as u64 + 64 + 4
    );

    let mut runtime = open_runtime(limits);
    let snapshot = runtime.snapshot(true).expect("status should build");
    assert_eq!(runtime.hold_length(&snapshot, 0, 1), Ok(Some(1)));
    assert_eq!(runtime.hold_length(&snapshot, seen, 1), Ok(None));
    assert_eq!(
        runtime.store.accounting.peak_snapshot_status_bytes,
        seen as u64 + 64 + 4
    );
    assert_eq!(runtime.hold_room(&snapshot, 0, 1), Ok(false));

    let group = sample_alert_group("alerts", "HighCpu");
    let RuleSpec::Alert(spec) = &group.rules[0] else {
        panic!("the rule alerts");
    };
    let mut counters = RulesStoreAccounting::new();
    let config = config_with(limits);
    let mut evaluated = |known_bytes: usize| {
        evaluate_measured_samples(
            &mut counters,
            &config,
            TimestampPrecision::Milliseconds,
            &group,
            spec,
            60_000,
            Vec::new(),
            PersistedRuleRuntimeState::fresh(1),
            known_bytes,
            7,
            TENANT_LABEL,
            &key_of,
        )
    };
    assert!(evaluated(limits.max_runtime_update_transient_bytes).is_ok());
    assert_eq!(
        evaluated(limits.max_runtime_update_transient_bytes + 1).err().as_deref(),
        Some(RulesLimitSurface::RuntimeUpdate.message())
    );
    assert_eq!(counters.runtime_update_rejections_total, 1);
}

#[test]
fn a_claimed_interval_is_not_due_after_a_restart() {
    let limits = test_store_limits();
    let mut runtime = open_durable_runtime(limits);
    let file = RefCell::new(Vec::new());
    apply_on(&mut runtime, vec![sample_recording_group("recording", "job:up")], &file);
    let (id, _) = configured_runtime_identity(&runtime.store);
    let keep = |bytes: &Vec<u8>| {
        *file.borrow_mut() = bytes.clone();
        Ok(())
    };
    let mut run = started(&mut runtime, 61_234);
    assert_eq!(runtime.consider_rule(&mut run, encode_recording, keep), RuleStep::Evaluate);
    // The server stops before the outcome is kept.
    drop(run);
    let mut reopened = reopened_on(&file, limits);
    assert_eq!(reopened.store.state.runtime, runtime.store.state.runtime);
    let known = reopened.store.state.runtime.get(&id).expect("the claim was written");
    assert_eq!(known.last_eval_timestamp, Some(60_000));
    let mut again = started(&mut reopened, 119_999);
    assert_eq!(reopened.consider_rule(&mut again, encode_recording, keep), RuleStep::NotDue);
    let mut later = started(&mut reopened, 120_000);
    assert_eq!(reopened.consider_rule(&mut later, encode_recording, keep), RuleStep::Evaluate);
}

#[test]
fn the_first_wrong_duration_is_told() {
    let text = |value: &str| Some(DurationInput::String(value.to_string()));
    let alert = |interval: &str, wait: &str| RuleInput::Alert {
        alert: "HighUsage".to_string(),
        expr: "up".to_string(),
        interval: text(interval),
        for_duration: text(wait),
        labels: KeyMap::new(),
        annotations: KeyMap::new(),
    };
    let group = |interval: &str, rules: Vec<RuleInput>| RuleGroupInput {
        name: "group".to_string(),
        tenant_id: "team-a".to_string(),
        interval: text(interval),
        labels: KeyMap::new(),
        rules,
    };
    let said = |groups: Vec<RuleGroupInput>| {
        RulesApplyRequest { groups }.into_groups(&scaled).expect_err("a duration is wrong")
    };
    let (empty, zero, unit) =
        ("empty duration value", "duration must be greater than zero", "invalid rules duration unit");
    assert_eq!(said(vec![group("0", vec![alert("", "1q")])]), zero);
    assert_eq!(said(vec![group("1m", vec![alert("", "1q")])]), empty);
    assert_eq!(said(vec![group("1m", vec![alert("1m", "1q"), alert("", "1m")])]), unit);
    assert_eq!(
        said(vec![group("1m", vec![alert("1m", "1m")]), group("0", Vec::new()), group("", Vec::new())]),
        zero
    );
}

#[test]
fn a_runtime_begins_with_counters_that_have_counted_nothing() {
    let mut runtime = open_runtime(test_store_limits());
    let shown = runtime.snapshot(true).expect("it is shown");
    assert_eq!(shown.metrics.scheduler_runs_total, 0);
    assert_eq!(shown.metrics.scheduler_skipped_not_leader_total, 0);
    assert_eq!(shown.metrics.scheduler_skipped_inflight_total, 0);
    assert_eq!(shown.metrics.evaluated_rules_total, 0);
    assert_eq!(shown.metrics.evaluation_failures_total, 0);
    assert_eq!(shown.metrics.recording_rows_written_total, 0);
    assert_eq!(shown.metrics.last_run_unix_ms, None);
    assert_eq!(shown.metrics.last_error, None);
}

#[test]
fn a_status_that_was_stopped_leaves_everything_as_it_was() {
    let mut runtime = rich_status_projection_runtime();
    let (mut snapshot, charged) = runtime
        .status_snapshot_with_execution(true, &go_on, grant, &grant)
        .expect("the status should be shown");
    assert!(charged > 0);
    let before = runtime.store.accounting;
    let expired = || Err(QueryBudgetError::DeadlineExceeded);
    let never = |_bytes: u64| panic!("nothing is charged for a query that was stopped");
    let stopped = |outcome: Option<RulesStatusProjectionError>| match outcome {
        Some(RulesStatusProjectionError::QueryBudget(QueryBudgetError::DeadlineExceeded)) => {}
        other => panic!("unexpected outcome {other:?}"),
    };
    stopped(runtime.status_snapshot_with_execution(true, &expired, never, &never).err());
    let text = shown(&snapshot);
    stopped(
        runtime
            .prepare_success_snapshot_iteration_with_execution(
                &mut snapshot,
                &expired,
                &|_shown: &RulesStatusSnapshot| panic!("nothing is measured"),
            )
            .err(),
    );
    assert_eq!(shown(&snapshot), text);
    stopped(runtime.finalize_success_snapshot_with_execution(&snapshot, 1, &expired).err());
    assert_eq!(runtime.store.accounting, before);
    assert_eq!(
        runtime.metrics_snapshot_with_execution(true, &expired),
        Err(QueryBudgetError::DeadlineExceeded)
    );
    stopped(runtime.keep_status_snapshot(snapshot, 1, 1, 1, &expired, &never).err());
}

#[test]
fn both_forms_of_the_status_agree_but_for_the_peak() {
    let mut runtime = rich_status_projection_runtime();
    let plain = runtime.snapshot(true).expect("the rules should be shown");
    let (mut accounted, _) = runtime
        .status_snapshot_with_execution(true, &go_on, grant, &grant)
        .expect("the rules should be shown again");
    accounted.metrics.peak_snapshot_status_bytes = plain.metrics.peak_snapshot_status_bytes;
    assert_eq!(shown(&accounted), shown(&plain));
}
