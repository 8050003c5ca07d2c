//! What the counters and records of the rules tell: refusals, peaks, evaluations, and what a file
//! must hold to be loaded.

use vstd::layout;
use vstd::prelude::*;

use crate::ordered;
use crate::rules::acceptance;
use crate::rules::accounting::RulesLimitSurface;
use crate::rules::accounting::RulesStoreAccounting;
use crate::rules::alert;
use crate::rules::evaluation;
use crate::rules::labels;
use crate::rules::limits::RulesRuntimeConfig;
use crate::rules::limits::RulesStoreLimits;
use crate::rules::load;
use crate::rules::load::LoadedRulesStoreState;
use crate::rules::load::PersistedRulesStore;
use crate::rules::recording;
use crate::rules::recording::Sample;
use crate::rules::status;
use crate::rules::status::RuleCounts;
use crate::rules::status::RuntimeMetricsView;
use crate::rules::types::AlertRuleView;
use crate::rules::types::PersistedRuleRuntimeState;
use crate::rules::types::RuleEvaluationOutcome;
use crate::rules::types::RuleGroupView;
use crate::rules::types::RulesStateView;
use crate::rules::types::RuntimeView;
use crate::rules::validate;
use crate::rules::validate::ChecksView;
use crate::series::Label;
use crate::stable;

verus! {

/// Whether one counter grew by one, unless it stood at its end.
pub open spec fn one_more(before: u64, after: u64) -> bool {
    after == before + 1 || before == u64::MAX && after == u64::MAX
}

/// Whether a peak is what it was or what was seen, whichever is more.
pub open spec fn rose_to(before: u64, after: u64, seen: u64) -> bool {
    after >= before && after >= seen && (after == before || after == seen)
}

/// A refusal is counted once in all and once under what was refused: the start, an update, a
/// snapshot, and else a replacement. Nothing else changes.
pub proof fn lemma_refusal_counted(before: RulesStoreAccounting, surface: RulesLimitSurface)
    ensures
        ({
            let after = before.rejected(surface);
            let starting = surface is Startup;
            let updating = surface is RuntimeUpdate;
            let showing = surface is SnapshotStatus || surface is SnapshotFile;
            &&& one_more(before.limit_rejections_total, after.limit_rejections_total)
            &&& if starting {
                one_more(before.startup_rejections_total, after.startup_rejections_total)
            } else {
                after.startup_rejections_total == before.startup_rejections_total
            }
            &&& if updating {
                one_more(
                    before.runtime_update_rejections_total,
                    after.runtime_update_rejections_total,
                )
            } else {
                after.runtime_update_rejections_total == before.runtime_update_rejections_total
            }
            &&& if showing {
                one_more(before.snapshot_rejections_total, after.snapshot_rejections_total)
            } else {
                after.snapshot_rejections_total == before.snapshot_rejections_total
            }
            &&& if !starting && !updating && !showing {
                one_more(before.replacement_rejections_total, after.replacement_rejections_total)
            } else {
                after.replacement_rejections_total == before.replacement_rejections_total
            }
            &&& after.persistence_failures_total == before.persistence_failures_total
            &&& after.retained_state_bytes == before.retained_state_bytes
            &&& after.peak_retained_state_bytes == before.peak_retained_state_bytes
            &&& after.durable_file_bytes == before.durable_file_bytes
            &&& after.peak_startup_transient_bytes == before.peak_startup_transient_bytes
            &&& after.peak_replacement_transient_bytes == before.peak_replacement_transient_bytes
            &&& after.peak_runtime_update_transient_bytes
                == before.peak_runtime_update_transient_bytes
            &&& after.peak_snapshot_status_bytes == before.peak_snapshot_status_bytes
            &&& after.peak_snapshot_file_bytes == before.peak_snapshot_file_bytes
        }),
{
}

/// Bytes that are held are seen in the peak of what they are held for and in no other.
pub proof fn lemma_peak_seen(
    before: RulesStoreAccounting,
    surface: RulesLimitSurface,
    bytes: usize,
)
    ensures
        ({
            let after = before.observed(surface, bytes);
            let seen = bytes as u64;
            &&& if surface is Startup {
                rose_to(
                    before.peak_startup_transient_bytes,
                    after.peak_startup_transient_bytes,
                    seen,
                )
            } else {
                after.peak_startup_transient_bytes == before.peak_startup_transient_bytes
            }
            &&& if surface is Replacement {
                rose_to(
                    before.peak_replacement_transient_bytes,
                    after.peak_replacement_transient_bytes,
                    seen,
                )
            } else {
                after.peak_replacement_transient_bytes == before.peak_replacement_transient_bytes
            }
            &&& if surface is RuntimeUpdate {
                rose_to(
                    before.peak_runtime_update_transient_bytes,
                    after.peak_runtime_update_transient_bytes,
                    seen,
                )
            } else {
                after.peak_runtime_update_transient_bytes
                    == before.peak_runtime_update_transient_bytes
            }
            &&& if surface is SnapshotStatus {
                rose_to(before.peak_snapshot_status_bytes, after.peak_snapshot_status_bytes, seen)
            } else {
                after.peak_snapshot_status_bytes == before.peak_snapshot_status_bytes
            }
            &&& if surface is SnapshotFile {
                rose_to(before.peak_snapshot_file_bytes, after.peak_snapshot_file_bytes, seen)
            } else {
                after.peak_snapshot_file_bytes == before.peak_snapshot_file_bytes
            }
            &&& after.limit_rejections_total == before.limit_rejections_total
            &&& after.startup_rejections_total == before.startup_rejections_total
            &&& after.replacement_rejections_total == before.replacement_rejections_total
            &&& after.runtime_update_rejections_total == before.runtime_update_rejections_total
            &&& after.snapshot_rejections_total == before.snapshot_rejections_total
            &&& after.persistence_failures_total == before.persistence_failures_total
            &&& after.retained_state_bytes == before.retained_state_bytes
            &&& after.peak_retained_state_bytes == before.peak_retained_state_bytes
            &&& after.durable_file_bytes == before.durable_file_bytes
        }),
{
}

/// A state that is kept is told by its bytes, by the most that were kept, and by those of its file
/// where one was written; refusals and the other peaks stay as they were.
pub proof fn lemma_kept_state_told(
    before: RulesStoreAccounting,
    retained: usize,
    durable: Option<usize>,
)
    ensures
        ({
            let after = before.published(retained, durable);
            &&& after.retained_state_bytes == retained
            &&& rose_to(
                before.peak_retained_state_bytes,
                after.peak_retained_state_bytes,
                retained as u64,
            )
            &&& durable matches Some(bytes) ==> after.durable_file_bytes == bytes
            &&& durable is None ==> after.durable_file_bytes == before.durable_file_bytes
            &&& after.limit_rejections_total == before.limit_rejections_total
            &&& after.persistence_failures_total == before.persistence_failures_total
            &&& after.peak_startup_transient_bytes == before.peak_startup_transient_bytes
            &&& after.peak_replacement_transient_bytes == before.peak_replacement_transient_bytes
            &&& after.peak_runtime_update_transient_bytes
                == before.peak_runtime_update_transient_bytes
            &&& after.peak_snapshot_status_bytes == before.peak_snapshot_status_bytes
            &&& after.peak_snapshot_file_bytes == before.peak_snapshot_file_bytes
        }),
{
}

/// The metrics that are given out are the counters, each under its own name.
pub proof fn lemma_metrics_given_out(
    runtime: RuntimeMetricsView,
    counts: RuleCounts,
    active: bool,
    accounting: RulesStoreAccounting,
)
    ensures
        ({
            let out = status::exposition(runtime, counts, active, accounting);
            let shown = status::shown_metrics(runtime, counts, active, accounting);
            &&& out.scheduler_runs_total == runtime.scheduler_runs_total
            &&& out.scheduler_skipped_not_leader_total == runtime.scheduler_skipped_not_leader_total
            &&& out.scheduler_skipped_inflight_total == runtime.scheduler_skipped_inflight_total
            &&& out.evaluated_rules_total == runtime.evaluated_rules_total
            &&& out.evaluation_failures_total == runtime.evaluation_failures_total
            &&& out.recording_rows_written_total == runtime.recording_rows_written_total
            &&& out.configured_groups == counts.configured_groups
            &&& out.configured_rules == counts.configured_rules
            &&& out.pending_alerts == counts.pending_alerts
            &&& out.firing_alerts == counts.firing_alerts
            &&& out.local_scheduler_active == active
            &&& out.retained_state_bytes == accounting.retained_state_bytes
            &&& out.peak_retained_state_bytes == accounting.peak_retained_state_bytes
            &&& out.durable_file_bytes == accounting.durable_file_bytes
            &&& out.peak_startup_transient_bytes == accounting.peak_startup_transient_bytes
            &&& out.peak_replacement_transient_bytes == accounting.peak_replacement_transient_bytes
            &&& out.peak_runtime_update_transient_bytes
                == accounting.peak_runtime_update_transient_bytes
            &&& out.peak_snapshot_status_bytes == accounting.peak_snapshot_status_bytes
            &&& out.peak_snapshot_file_bytes == accounting.peak_snapshot_file_bytes
            &&& out.limit_rejections_total == accounting.limit_rejections_total
            &&& out.startup_rejections_total == accounting.startup_rejections_total
            &&& out.replacement_rejections_total == accounting.replacement_rejections_total
            &&& out.runtime_update_rejections_total == accounting.runtime_update_rejections_total
            &&& out.snapshot_rejections_total == accounting.snapshot_rejections_total
            &&& out.persistence_failures_total == accounting.persistence_failures_total
            &&& shown.runtime == runtime
            &&& shown.counts == counts
            &&& shown.local_scheduler_active == active
            &&& shown.accounting == accounting
        }),
{
}

/// A recording rule that wrote rows is noted as a success of its time, with as many samples and
/// rows, and without alerts.
pub proof fn lemma_recording_noted(
    timestamp: i64,
    now_unix_ms: u64,
    rows: u64,
    state: PersistedRuleRuntimeState,
)
    requires
        state@ == recording::recorded_runtime(timestamp, now_unix_ms, rows),
    ensures
        state.last_eval_timestamp == Some(timestamp),
        state.last_eval_unix_ms == Some(now_unix_ms),
        state.last_success_unix_ms == Some(now_unix_ms),
        state.last_error is None,
        state.last_sample_count == rows,
        state.last_recorded_rows == rows,
        state.last_outcome == Some(RuleEvaluationOutcome::Success),
        state.alert_instances@.len() == 0,
{
    assert(state@.alert_instances.len() == 0);
}

/// A rules file is read where it is no longer than a file may be and no longer than what may be
/// taken at the start.
pub proof fn lemma_file_read(len: u64, limits: RulesStoreLimits)
    ensures
        load::file_problem(len, limits) is None <==> len <= limits.max_durable_file_bytes && len
            <= limits.max_startup_transient_bytes,
{
}

/// Rules that are loaded are the rules of the file: it is of this format and version, and its groups
/// may be the rules.
pub proof fn lemma_loaded_rules_are_those_of_the_file(
    limits: RulesStoreLimits,
    before: RulesStoreAccounting,
    len: usize,
    peak: usize,
    persisted: PersistedRulesStore,
    checks: ChecksView,
    checked_bytes: usize,
    kept_bytes: usize,
    loaded: LoadedRulesStoreState,
    after: RulesStoreAccounting,
)
    requires
        acceptance::well_kept(persisted.state@.groups),
        load::accepted_as(
            limits,
            before,
            len,
            peak,
            persisted,
            checks,
            checked_bytes,
            kept_bytes,
            Ok(loaded),
            after,
        ),
    ensures
        persisted.magic@ == "tsink-rules-store"@,
        persisted.schema_version == 1,
        loaded.state == persisted.state,
        loaded.durable_file_bytes == len,
        acceptance::acceptable(persisted.state@.groups, checks, limits),
        kept_bytes <= limits.max_total_retained_state_bytes,
        after == before,
{
    acceptance::lemma_groups_accepted(persisted.state@.groups, checks, limits);
}

proof fn lemma_samples_stand(
    group: RuleGroupView,
    spec: AlertRuleView,
    samples: Seq<Sample>,
    tenant_label: Seq<char>,
)
    requires
        ordered::listable::<String, Seq<char>>(group.labels),
        ordered::listable::<String, Seq<char>>(spec.labels),
    ensures
        alert::samples_problem(group, spec, samples, tenant_label) is None <==> forall|i: int|
            0 <= i < samples.len() ==> evaluation::labels_stand(
                #[trigger] samples[i],
                group.labels,
                spec.labels,
                tenant_label,
            ),
    decreases samples.len(),
{
    if samples.len() > 0 {
        let rest = samples.drop_last();
        let n = samples.len() - 1;
        lemma_samples_stand(group, spec, rest, tenant_label);
        evaluation::lemma_labels_taken(
            stable::views(samples[n].labels@),
            group.labels,
            spec.labels,
            tenant_label,
        );
        assert(labels::merged_problem(
            labels::merged(stable::views(samples[n].labels@), group.labels, spec.labels),
            tenant_label,
        ) is None <==> evaluation::labels_stand(
            samples[n],
            group.labels,
            spec.labels,
            tenant_label,
        ));
        if alert::samples_problem(group, spec, samples, tenant_label) is None {
            assert forall|i: int| 0 <= i < samples.len() implies evaluation::labels_stand(
                #[trigger] samples[i],
                group.labels,
                spec.labels,
                tenant_label,
            ) by {
                if i < n {
                    assert(rest[i] == samples[i]);
                }
            }
        }
        if forall|i: int|
            0 <= i < samples.len() ==> evaluation::labels_stand(
                #[trigger] samples[i],
                group.labels,
                spec.labels,
                tenant_label,
            ) {
            assert forall|i: int| 0 <= i < rest.len() implies evaluation::labels_stand(
                #[trigger] rest[i],
                group.labels,
                spec.labels,
                tenant_label,
            ) by {
                assert(rest[i] == samples[i]);
            }
            assert(evaluation::labels_stand(samples[n], group.labels, spec.labels, tenant_label));
        }
    }
}

/// An alert rule whose evaluation finds the memory that it needs succeeds exactly where there are no
/// more samples than alerts may be raised, each sample may raise one, and the labels that come of
/// each may stand.
pub proof fn lemma_alert_rule_evaluated<K: Fn(&str, &Vec<Label>) -> String>(
    key_of: K,
    config: RulesRuntimeConfig,
    group: RuleGroupView,
    spec: AlertRuleView,
    samples: Seq<Sample>,
    previous: RuntimeView,
    known_bytes: usize,
    timestamp: i64,
    wait: i64,
    now_unix_ms: u64,
    tenant_label: Seq<char>,
    before: RulesStoreAccounting,
    evaluated: Result<PersistedRuleRuntimeState, String>,
    after: RulesStoreAccounting,
)
    requires
        ordered::listable::<String, Seq<char>>(group.labels),
        ordered::listable::<String, Seq<char>>(spec.labels),
        alert::evaluated_as(
            key_of,
            config,
            group,
            spec,
            samples,
            previous,
            known_bytes,
            timestamp,
            wait,
            now_unix_ms,
            tenant_label,
            before,
            evaluated,
            after,
        ),
        config.store_limits.max_runtime_update_transient_bytes == usize::MAX,
    ensures
        evaluated is Ok <==> samples.len() <= config.max_alert_instances_per_rule && (forall|i: int|
            0 <= i < samples.len() ==> acceptance::may_alert(
                #[trigger] samples[i],
                group,
                spec,
                config.store_limits,
            )) && (forall|i: int|
            0 <= i < samples.len() ==> evaluation::labels_stand(
                #[trigger] samples[i],
                group.labels,
                spec.labels,
                tenant_label,
            )),
{
    acceptance::lemma_alert_samples_taken_up(config, group, spec, samples);
    lemma_samples_stand(group, spec, samples, tenant_label);
}

/// Whether a JSON text is within a string after so many bytes, and there behind a backslash.
pub open spec fn quoting(bytes: Seq<u8>, n: int) -> (bool, bool)
    decreases n,
{
    if n <= 0 {
        (false, false)
    } else {
        let (inside, escaped) = quoting(bytes, n - 1);
        let byte = bytes[n - 1];
        if !inside {
            (byte == 34, false)
        } else if escaped {
            (true, false)
        } else {
            (byte != 34, byte == 92)
        }
    }
}

/// How many objects and lists of a JSON text are open after so many bytes.
pub open spec fn open_after(bytes: Seq<u8>, n: int) -> int
    decreases n,
{
    if n <= 0 {
        0
    } else {
        let byte = bytes[n - 1];
        open_after(bytes, n - 1) + if quoting(bytes, n - 1).0 {
            0int
        } else if byte == 123 || byte == 91 {
            1int
        } else if byte == 125 || byte == 93 {
            -1int
        } else {
            0int
        }
    }
}

/// How many objects, lists, commas and colons there are outside of strings in so many bytes of a
/// JSON text.
pub open spec fn marks_in(bytes: Seq<u8>, n: int) -> nat
    decreases n,
{
    if n <= 0 {
        0
    } else {
        let byte = bytes[n - 1];
        marks_in(bytes, n - 1) + if !quoting(bytes, n - 1).0 && (byte == 123 || byte == 91 || byte
            == 44 || byte == 58) {
            1nat
        } else {
            0nat
        }
    }
}

/// Whether at every place so far no more is closed than was open, and no more than 64 are open.
pub open spec fn nests_well(bytes: Seq<u8>, n: int) -> bool {
    forall|k: int| 0 <= k <= n ==> 0 <= #[trigger] open_after(bytes, k) <= 64
}

proof fn lemma_scanned(bytes: Seq<u8>, n: int)
    requires
        0 <= n <= bytes.len(),
        bytes.len() <= usize::MAX,
    ensures
        load::scan_bytes(bytes.take(n)) is Ok <==> nests_well(bytes, n),
        load::scan_bytes(bytes.take(n)) matches Ok(scan) ==> scan.depth == open_after(bytes, n)
            && scan.structural_values == marks_in(bytes, n) && (scan.in_string, scan.escaped)
            == quoting(bytes, n),
        marks_in(bytes, n) <= n,
    decreases n,
{
    if n > 0 {
        lemma_scanned(bytes, n - 1);
        assert(bytes.take(n).drop_last() =~= bytes.take(n - 1));
        assert(bytes.take(n).last() == bytes[n - 1]);
        if nests_well(bytes, n) {
            assert forall|k: int| 0 <= k <= n - 1 implies 0 <= #[trigger] open_after(bytes, k)
                <= 64 by {}
            assert(0 <= open_after(bytes, n) <= 64);
        } else if nests_well(bytes, n - 1) {
            let k = choose|k: int|
                0 <= k <= n && !(0 <= #[trigger] open_after(bytes, k) <= 64);
            assert(k == n);
        }
    } else {
        assert(bytes.take(0) =~= Seq::empty());
        assert(open_after(bytes, 0) == 0);
    }
}

/// A rules file is handed on to be decoded exactly where its objects and lists are closed as they
/// were opened, at no place more than 64 of them are open, and no string is left open. What decoding
/// it may take is then twice its bytes and room for each object, list, comma and colon.
pub proof fn lemma_file_handed_on(bytes: Seq<u8>)
    requires
        bytes.len() <= usize::MAX,
    ensures
        ({
            let n = bytes.len() as int;
            let upper = n * 2 + marks_in(bytes, n) * (64 + layout::size_of::<serde_json::Value>());
            &&& load::preflight(bytes) is Ok <==> nests_well(bytes, n) && open_after(bytes, n) == 0
                && quoting(bytes, n) == (false, false)
            &&& load::preflight(bytes) matches Ok(bound) ==> bound == upper || upper > usize::MAX
                && bound == usize::MAX
        }),
{
    let n = bytes.len() as int;
    assert(bytes.take(n) =~= bytes);
    lemma_scanned(bytes, n);
}

/// A loaded or kept state is fine exactly where its groups may be the rules, no more is known than
/// there may be rules, and what is known of each stands under a name that is not too long and may be
/// taken up.
pub proof fn lemma_state_fine(state: RulesStateView, checks: ChecksView, limits: RulesStoreLimits)
    requires
        acceptance::well_kept(state.groups),
        ordered::listable::<String, RuntimeView>(state.runtime),
        limits.max_name_bytes * 3 + 32 <= usize::MAX,
    ensures
        validate::state_problem(state, checks, limits) is None <==> acceptance::acceptable(
            state.groups,
            checks,
            limits,
        ) && state.runtime.dom().len() <= limits.max_rules_total && forall|id: Seq<char>| #[trigger]
            state.runtime.contains_key(id) ==> acceptance::bytes_in(id) <= limits.max_name_bytes * 3
                + 32 && validate::runtime_problem(state.runtime[id], limits) is None,
{
    let entries = ordered::listing::<String, RuntimeView>(state.runtime);
    acceptance::lemma_groups_accepted(state.groups, checks, limits);
    ordered::lemma_listing_len::<String, RuntimeView>(state.runtime);
    ordered::lemma_listable::<String, RuntimeView>(state.runtime);
    lemma_entries_fine(entries, limits);
    assert forall|i: int| 0 <= i < entries.len() implies state.runtime.contains_key(
        (#[trigger] entries[i]).0,
    ) && state.runtime[entries[i].0] == entries[i].1 by {
        ordered::lemma_keyed_map_at::<String, RuntimeView>(entries, i);
    }
    assert forall|id: Seq<char>| #[trigger] state.runtime.contains_key(id) implies exists|i: int|
        0 <= i < entries.len() && (#[trigger] entries[i]).0 == id by {
        let at = choose|i: int| ordered::key_stands::<String, RuntimeView>(entries, id, i);
        assert(ordered::holds_key::<String, RuntimeView>(entries, id));
        assert(entries[at].0 == id);
    }
}

spec fn entry_fine(entry: (Seq<char>, RuntimeView), limits: RulesStoreLimits) -> bool {
    acceptance::bytes_in(entry.0) <= limits.max_name_bytes * 3 + 32 && validate::runtime_problem(
        entry.1,
        limits,
    ) is None
}

proof fn lemma_entries_fine(entries: Seq<(Seq<char>, RuntimeView)>, limits: RulesStoreLimits)
    requires
        limits.max_name_bytes * 3 + 32 <= usize::MAX,
    ensures
        validate::entries_problem(entries, limits) is None <==> forall|i: int|
            0 <= i < entries.len() ==> entry_fine(#[trigger] entries[i], limits),
    decreases entries.len(),
{
    if entries.len() > 0 {
        let rest = entries.drop_last();
        let n = entries.len() - 1;
        lemma_entries_fine(rest, limits);
        if validate::entries_problem(entries, limits) is None {
            assert forall|i: int| 0 <= i < entries.len() implies entry_fine(
                #[trigger] entries[i],
                limits,
            ) by {
                if i < n {
                    assert(rest[i] == entries[i]);
                }
            }
        }
        if forall|i: int| 0 <= i < entries.len() ==> entry_fine(#[trigger] entries[i], limits) {
            assert forall|i: int| 0 <= i < rest.len() implies entry_fine(
                #[trigger] rest[i],
                limits,
            ) by {
                assert(rest[i] == entries[i]);
            }
            assert(entry_fine(entries[n], limits));
        }
    }
}

} // verus!
