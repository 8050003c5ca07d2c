//! The rules runtime: the store, the scheduler's counters, and what is shown of both.

use vstd::prelude::*;

use crate::budget;
use crate::budget::QueryBudgetError;
use crate::ordered;
use crate::rules::accounting::Held;
use crate::rules::accounting::RulesLimitSurface;
use crate::rules::accounting::RulesStoreAccounting;
use crate::rules::limits::RulesRuntimeConfig;
use crate::rules::limits::RulesStoreLimits;
use crate::rules::replace;
use crate::rules::shown;
use crate::rules::status;
use crate::rules::status::RuleCounts;
use crate::rules::status::RuleGroupStatusSnapshot;
use crate::rules::status::RulesRuntimeMetrics;
use crate::rules::status::RulesStatusSnapshot;
use crate::rules::status::RulesStatusView;
use crate::rules::store::RulesApplyError;
use crate::rules::store::RulesStore;
use crate::rules::time::TimestampPrecision;
use crate::rules::types::AlertInstanceState;
use crate::rules::types::AlertInstanceStatus;
use crate::rules::types::PersistedRulesStoreState;
use crate::rules::types::RuleGroupSpec;
use crate::rules::types::RuntimeMap;
use crate::rules::types::RuntimeView;
use crate::rules::upper;
use crate::rules::validate;
use crate::rules::validate::RuleChecks;
use crate::sizes;
use crate::stable;
use crate::text;

verus! {

/// The rules runtime: its store, the unit of timestamps, whether it is part of a cluster, what it
/// is held to, the counters of its scheduler, and whether a run is under way.
#[derive(Debug)]
pub struct RulesRuntime {
    pub store: RulesStore,
    pub precision: TimestampPrecision,
    pub cluster_enabled: bool,
    pub config: RulesRuntimeConfig,
    pub metrics: RulesRuntimeMetrics,
    pub run_inflight: bool,
}

/// Why the status of rules cannot be shown.
#[derive(Debug, PartialEq, Eq)]
pub enum RulesStatusProjectionError {
    QueryBudget(QueryBudgetError),
    StatusLimit,
    Serialization(&'static str),
}

fn count_alerts<C: Fn() -> Result<(), QueryBudgetError>>(
    instances: &Vec<AlertInstanceState>,
    checkpoint: &C,
) -> (found: Result<(u64, u64), QueryBudgetError>)
    requires
        call_requires(*checkpoint, ()),
    ensures
        match found {
            Ok((pending, firing)) => {
                &&& pending == sizes::sat64(
                    status::count_in_state(
                        stable::views(instances@),
                        AlertInstanceStatus::Pending,
                    ) as int,
                )
                &&& firing == sizes::sat64(
                    status::count_in_state(
                        stable::views(instances@),
                        AlertInstanceStatus::Firing,
                    ) as int,
                )
            },
            Err(error) => budget::may_stop(*checkpoint, error),
        },
        budget::never_stops(*checkpoint) ==> found is Ok,
        budget::always_stops(*checkpoint) && instances@.len() > 0 ==> found is Err,
{
    let ghost all = stable::views(instances@);
    let mut pending: u64 = 0;
    let mut firing: u64 = 0;
    let mut i: usize = 0;
    assert(all.subrange(0, 0) =~= Seq::empty());
    while i < instances.len()
        invariant
            call_requires(*checkpoint, ()),
            budget::always_stops(*checkpoint) ==> i == 0,
            i <= instances@.len(),
            all == stable::views(instances@),
            pending == sizes::sat64(
                status::count_in_state(
                    all.subrange(0, i as int),
                    AlertInstanceStatus::Pending,
                ) as int,
            ),
            firing == sizes::sat64(
                status::count_in_state(
                    all.subrange(0, i as int),
                    AlertInstanceStatus::Firing,
                ) as int,
            ),
        decreases instances@.len() - i,
    {
        proof {
            assert(all.subrange(0, i as int + 1).drop_last() =~= all.subrange(0, i as int));
        }
        match checkpoint() {
            Err(error) => {
                return Err(error);
            },
            Ok(_) => {},
        }
        match instances[i].state {
            AlertInstanceStatus::Pending => {
                pending = pending.saturating_add(1);
            },
            AlertInstanceStatus::Firing => {
                firing = firing.saturating_add(1);
            },
        }
        i = i + 1;
    }
    assert(all.subrange(0, i as int) =~= all);
    Ok((pending, firing))
}

fn count_all_alerts<C: Fn() -> Result<(), QueryBudgetError>>(
    runtime: &RuntimeMap,
    checkpoint: &C,
) -> (found: Result<(u64, u64), QueryBudgetError>)
    requires
        call_requires(*checkpoint, ()),
    ensures
        match found {
            Ok((pending, firing)) => {
                let entries = ordered::listing::<String, RuntimeView>(runtime@);
                &&& pending == sizes::sat64(
                    status::alerts_in_state(entries, AlertInstanceStatus::Pending) as int,
                )
                &&& firing == sizes::sat64(
                    status::alerts_in_state(entries, AlertInstanceStatus::Firing) as int,
                )
            },
            Err(error) => budget::may_stop(*checkpoint, error),
        },
        budget::never_stops(*checkpoint) ==> found is Ok,
        budget::always_stops(*checkpoint) && ordered::listing::<String, RuntimeView>(runtime@).len() > 0 ==> found is Err,
{
    let count = runtime.len();
    let ghost all = runtime.entries();
    proof {
        ordered::lemma_listing::<String, RuntimeView>(all);
        assert(all.subrange(0, 0) =~= Seq::empty());
    }
    let mut pending: u64 = 0;
    let mut firing: u64 = 0;
    let mut i: usize = 0;
    while i < count
        invariant
            call_requires(*checkpoint, ()),
            budget::always_stops(*checkpoint) ==> i == 0,
            i <= count,
            count == all.len(),
            all == runtime.entries(),
            pending == sizes::sat64(
                status::alerts_in_state(
                    all.subrange(0, i as int),
                    AlertInstanceStatus::Pending,
                ) as int,
            ),
            firing == sizes::sat64(
                status::alerts_in_state(
                    all.subrange(0, i as int),
                    AlertInstanceStatus::Firing,
                ) as int,
            ),
        decreases count - i,
    {
        proof {
            assert(all.subrange(0, i as int + 1).drop_last() =~= all.subrange(0, i as int));
        }
        match checkpoint() {
            Err(error) => {
                return Err(error);
            },
            Ok(_) => {},
        }
        match count_alerts(&runtime.value_at(i).alert_instances, checkpoint) {
            Err(error) => {
                return Err(error);
            },
            Ok((waiting, raised)) => {
                pending = pending.saturating_add(waiting);
                firing = firing.saturating_add(raised);
            },
        }
        i = i + 1;
    }
    assert(all.subrange(0, i as int) =~= all);
    Ok((pending, firing))
}

/// How many groups, rules, waiting alerts and firing alerts a state has.
pub fn count_rules<C: Fn() -> Result<(), QueryBudgetError>>(
    state: &PersistedRulesStoreState,
    checkpoint: &C,
) -> (counts: Result<RuleCounts, QueryBudgetError>)
    requires
        call_requires(*checkpoint, ()),
    ensures
        match counts {
            Ok(found) => found == status::counts_of(state@),
            Err(error) => budget::may_stop(*checkpoint, error),
        },
        budget::never_stops(*checkpoint) ==> counts is Ok,
        budget::always_stops(*checkpoint) && (state@.groups.len() > 0 || ordered::listing::<
            String,
            RuntimeView,
        >(state@.runtime).len() > 0) ==> counts is Err,
{
    let (pending_alerts, firing_alerts) = match count_all_alerts(&state.runtime, checkpoint) {
        Err(error) => {
            return Err(error);
        },
        Ok(found) => found,
    };
    let ghost all = stable::views(state.groups@);
    let mut configured_rules: u64 = 0;
    let mut i: usize = 0;
    assert(all.subrange(0, 0) =~= Seq::empty());
    while i < state.groups.len()
        invariant
            call_requires(*checkpoint, ()),
            budget::always_stops(*checkpoint) ==> i == 0,
            i <= state.groups@.len(),
            all == stable::views(state.groups@),
            configured_rules == sizes::sat64(
                status::rules_in(all.subrange(0, i as int)) as int,
            ),
        decreases state.groups@.len() - i,
    {
        proof {
            assert(all.subrange(0, i as int + 1).drop_last() =~= all.subrange(0, i as int));
        }
        match checkpoint() {
            Err(error) => {
                return Err(error);
            },
            Ok(_) => {},
        }
        configured_rules = configured_rules.saturating_add(state.groups[i].rules.len() as u64);
        i = i + 1;
    }
    assert(all.subrange(0, i as int) =~= all);
    Ok(
        RuleCounts {
            configured_groups: state.groups.len() as u64,
            configured_rules,
            pending_alerts,
            firing_alerts,
        },
    )
}

fn show_groups<C: Fn() -> Result<(), QueryBudgetError>>(
    state: &PersistedRulesStoreState,
    checkpoint: &C,
) -> (shown: Result<Vec<RuleGroupStatusSnapshot>, QueryBudgetError>)
    requires
        call_requires(*checkpoint, ()),
    ensures
        match shown {
            Ok(groups) => stable::views(groups@) == status::shown_groups(
                state@.groups,
                state@.runtime,
            ),
            Err(error) => budget::may_stop(*checkpoint, error),
        },
        budget::never_stops(*checkpoint) ==> shown is Ok,
        budget::always_stops(*checkpoint) && state@.groups.len() > 0 ==> shown is Err,
{
    let mut groups: Vec<RuleGroupStatusSnapshot> = Vec::with_capacity(state.groups.len());
    let mut i: usize = 0;
    while i < state.groups.len()
        invariant
            call_requires(*checkpoint, ()),
            budget::always_stops(*checkpoint) ==> i == 0,
            i <= state.groups@.len(),
            groups@.len() == i,
            forall|k: int|
                0 <= k < i ==> (#[trigger] groups@[k])@ == status::shown_group(
                    state.groups@[k]@,
                    state.runtime@,
                ),
        decreases state.groups@.len() - i,
    {
        match checkpoint() {
            Err(error) => {
                return Err(error);
            },
            Ok(_) => {},
        }
        groups.push(status::build_group_snapshot(&state.groups[i], &state.runtime));
        i = i + 1;
    }
    assert(stable::views(groups@) =~= status::shown_groups(state@.groups, state@.runtime));
    Ok(groups)
}

/// A status held against its limit before it is made, and after.
pub open spec fn held_status(
    limits: RulesStoreLimits,
    before: RulesStoreAccounting,
    upper: usize,
    actual: usize,
) -> Held {
    Held::start(before).then_on(
        RulesLimitSurface::SnapshotStatus,
        upper,
        limits.max_snapshot_status_bytes,
    ).then_on(RulesLimitSurface::SnapshotStatus, actual, limits.max_snapshot_status_bytes)
}

/// What is shown of the rules, given whether the scheduler is active here.
pub open spec fn status_of(runtime: RulesRuntime, leader: bool) -> RulesStatusView {
    RulesStatusView {
        scheduler_tick_ms: runtime.config.tick_ms(),
        max_recording_rows_per_eval: runtime.config.max_recording_rows_per_eval,
        max_alert_instances_per_rule: runtime.config.max_alert_instances_per_rule,
        store_limits: runtime.config.store_limits,
        cluster_enabled: runtime.cluster_enabled,
        cluster_leader: leader,
        metrics: status::shown_metrics(
            runtime.metrics@,
            status::counts_of(runtime.store.state@),
            leader,
            runtime.store.accounting,
        ),
        groups: status::shown_groups(
            runtime.store.state@.groups,
            runtime.store.state@.runtime,
        ),
    }
}

/// Whether a status that is held against its limit comes out like this.
pub open spec fn shown_as(
    held: Held,
    shown: Result<RulesStatusSnapshot, String>,
    after: RulesStoreAccounting,
) -> bool {
    &&& after == held.counters
    &&& match held.over {
        None => shown is Ok,
        Some(surface) => shown matches Err(message) && message@ == surface.message_text(),
    }
}

/// Whether a status may come out like this, with the counters after it. What it is measured to hold
/// is the allocator's choice.
pub open spec fn may_be_shown(
    before: RulesRuntime,
    leader: bool,
    shown: Result<RulesStatusSnapshot, String>,
    after: RulesStoreAccounting,
) -> bool {
    exists|actual: usize|
        actual >= sizes::sat_size(shown::shown_cost(status_of(before, leader)) as int)
            && #[trigger] shown_as(
            held_status(
                before.config.store_limits,
                before.store.accounting,
                sizes::sat_size(
                    upper::status_upper(before.store.state@, before.metrics@.last_error) as int,
                ),
                actual,
            ),
            shown,
            after,
        )
}

/// Whether all but the store is as it was, and the store is kept and held to its limits as it was.
pub open spec fn only_store_changed(before: RulesRuntime, after: RulesRuntime) -> bool {
    &&& after == (RulesRuntime { store: after.store, ..before })
    &&& after.store.durable == before.store.durable
    &&& after.store.limits == before.store.limits
}

/// Whether all but the counters of the store is as it was.
pub open spec fn only_counted(before: RulesRuntime, after: RulesRuntime) -> bool {
    after == (RulesRuntime {
        store: RulesStore { accounting: after.store.accounting, ..before.store },
        ..before
    })
}

/// A status with the counters of the store in it.
pub open spec fn refreshed(shown: RulesStatusView, counters: RulesStoreAccounting) -> RulesStatusView {
    RulesStatusView {
        metrics: status::RulesMetricsView {
            accounting: RulesStoreAccounting {
                peak_snapshot_status_bytes: counters.peak_snapshot_status_bytes,
                snapshot_rejections_total: counters.snapshot_rejections_total,
                limit_rejections_total: counters.limit_rejections_total,
                ..shown.metrics.accounting
            },
            ..shown.metrics
        },
        ..shown
    }
}

/// A status with the counters of the store in it.
pub(crate) fn refresh(snapshot: &mut RulesStatusSnapshot, accounting: &RulesStoreAccounting)
    ensures
        final(snapshot)@ == refreshed(old(snapshot)@, *accounting),
{
    snapshot.metrics.peak_snapshot_status_bytes = accounting.peak_snapshot_status_bytes;
    snapshot.metrics.snapshot_rejections_total = accounting.snapshot_rejections_total;
    snapshot.metrics.limit_rejections_total = accounting.limit_rejections_total;
}

impl RulesRuntime {
    /// A runtime on a store, with a configuration that is checked.
    pub fn open_with_config(
        store: RulesStore,
        precision: TimestampPrecision,
        cluster_enabled: bool,
        config: RulesRuntimeConfig,
    ) -> (runtime: Result<RulesRuntime, String>)
        ensures
            match config.problem() {
                Some(problem) => runtime matches Err(message) && message@ == problem,
                None => runtime matches Ok(opened) && opened.store == store && opened.precision
                    == precision && opened.cluster_enabled == cluster_enabled && opened.config
                    == config && !opened.run_inflight && opened.metrics@
                    == status::fresh_metrics(),
            },
    {
        match config.validate() {
            Err(message) => Err(message),
            Ok(config) => Ok(
                RulesRuntime {
                    store,
                    precision,
                    cluster_enabled,
                    config,
                    metrics: RulesRuntimeMetrics::new(),
                    run_inflight: false,
                },
            ),
        }
    }

    /// What is shown of the rules, given whether the scheduler is active here.
    pub fn snapshot(&mut self, leader: bool) -> (shown: Result<RulesStatusSnapshot, String>)
        ensures
            only_counted(*old(self), *final(self)),
            match shown {
                Ok(snapshot) => {
                    &&& snapshot@ == status_of(*final(self), leader)
                    &&& final(self).store.accounting.only_peaks_rose(old(self).store.accounting)
                    &&& sizes::sat_size(
                        upper::status_upper(
                            old(self).store.state@,
                            old(self).metrics@.last_error,
                        ) as int,
                    ) <= old(self).config.store_limits.max_snapshot_status_bytes
                },
                Err(message) => {
                    &&& message@ == RulesLimitSurface::SnapshotStatus.message_text()
                    &&& old(self).config.store_limits.max_snapshot_status_bytes < usize::MAX
                    &&& final(self).store.accounting.rejected_once(
                        old(self).store.accounting,
                        RulesLimitSurface::SnapshotStatus,
                    )
                },
            },
            sizes::sat_size(
                upper::status_upper(old(self).store.state@, old(self).metrics@.last_error) as int,
            ) > old(self).config.store_limits.max_snapshot_status_bytes ==> shown is Err,
            may_be_shown(*old(self), leader, shown, final(self).store.accounting),
    {
        let go_on = || -> (answer: Result<(), QueryBudgetError>)
            ensures
                answer is Ok,
            { Ok(()) };
        proof {
            assert(budget::never_stops(go_on));
        }
        let limit = self.config.store_limits.max_snapshot_status_bytes;
        let upper = match upper::modeled_rules_status_output_upper_bytes_with_execution(
            &self.store.state,
            &self.metrics,
            &go_on,
        ) {
            Ok((upper, _)) => upper,
            Err(_) => usize::MAX,
        };
        let ghost before = *self;
        let ghost limits = self.config.store_limits;
        match self.store.accounting.enforce_limit(RulesLimitSurface::SnapshotStatus, upper, limit) {
            Err(error) => {
                let refused: Result<RulesStatusSnapshot, String> = Err(error.message());
                proof {
                    assert(shown_as(
                        held_status(limits, before.store.accounting, upper, usize::MAX),
                        refused,
                        self.store.accounting,
                    ));
                    assert(sizes::sat_size(shown::shown_cost(status_of(before, leader)) as int)
                        <= usize::MAX);
                }
                return refused;
            },
            Ok(_) => {},
        }
        let shown = project(self, leader, &go_on);
        let mut snapshot = match shown {
            Ok(snapshot) => snapshot,
            Err(_) => {
                return Err(text::owned("rules status was not shown"));
            },
        };
        let actual = match shown::modeled_rules_status_actual_bytes_with_execution(&snapshot, &go_on) {
            Ok((actual, _)) => actual,
            Err(_) => usize::MAX,
        };
        let ghost held = held_status(limits, before.store.accounting, upper, actual);
        proof {
            assert(shown::shown_cost(snapshot@) == shown::shown_cost(status_of(before, leader)));
        }
        match self.store.accounting.enforce_limit(
            RulesLimitSurface::SnapshotStatus,
            actual,
            limit,
        ) {
            Err(error) => {
                let refused: Result<RulesStatusSnapshot, String> = Err(error.message());
                proof {
                    assert(shown_as(held, refused, self.store.accounting));
                }
                return refused;
            },
            Ok(_) => {},
        }
        refresh(&mut snapshot, &self.store.accounting);
        proof {
            assert(shown_as(held, Ok(snapshot), self.store.accounting));
        }
        Ok(snapshot)
    }

    /// Replaces all groups, and tells what is shown of the rules then.
    pub fn apply_groups<
        E: FnOnce(&PersistedRulesStoreState, &RuntimeMap) -> Option<Vec<u8>>,
        W: FnOnce(&Vec<u8>) -> Result<(), String>,
    >(
        &mut self,
        groups: Vec<RuleGroupSpec>,
        checks: &RuleChecks,
        leader: bool,
        encode: E,
        write: W,
    ) -> (applied: Result<RulesStatusSnapshot, RulesApplyError>)
        requires
            forall|state: &PersistedRulesStoreState, over: &RuntimeMap|
                replace::groups_writable(old(self).store, stable::views(groups@), checks@)
                    && state@ == replace::replaced(old(self).store.state@, stable::views(groups@))
                    && over@ == Map::<Seq<char>, RuntimeView>::empty() ==> #[trigger] call_requires(
                    encode,
                    (state, over),
                ),
            forall|bytes: &Vec<u8>|
                replace::writes_groups(
                    old(self).store,
                    stable::views(groups@),
                    checks@,
                    encode,
                    *bytes,
                ) ==> #[trigger] call_requires(write, (bytes,)),
        ensures
            only_store_changed(*old(self), *final(self)),
            validate::ever_valid(old(self).store.state@, old(self).store.limits)
                ==> validate::ever_valid(final(self).store.state@, old(self).store.limits),
            match applied {
                Ok(snapshot) => {
                    &&& final(self).store.state@ == replace::replaced(
                        old(self).store.state@,
                        stable::views(groups@),
                    )
                    &&& snapshot@ == status_of(*final(self), leader)
                    &&& exists|between: RulesStore| #[trigger]
                        replace::may_be_applied(
                            old(self).store,
                            stable::views(groups@),
                            checks@,
                            encode,
                            write,
                            Ok(()),
                            between,
                        ) && may_be_shown(
                            (RulesRuntime { store: between, ..*old(self) }),
                            leader,
                            Ok(snapshot),
                            final(self).store.accounting,
                        )
                },
                Err(RulesApplyError::Internal(message)) => {
                    &&& final(self).store.state@ == replace::replaced(
                        old(self).store.state@,
                        stable::views(groups@),
                    )
                    &&& message@ == RulesLimitSurface::SnapshotStatus.message_text()
                    &&& exists|between: RulesStore| #[trigger]
                        replace::may_be_applied(
                            old(self).store,
                            stable::views(groups@),
                            checks@,
                            encode,
                            write,
                            Ok(()),
                            between,
                        ) && may_be_shown(
                            (RulesRuntime { store: between, ..*old(self) }),
                            leader,
                            Err(message),
                            final(self).store.accounting,
                        )
                },
                Err(error) => {
                    &&& final(self).store.state == old(self).store.state
                    &&& replace::may_be_applied(
                        old(self).store,
                        stable::views(groups@),
                        checks@,
                        encode,
                        write,
                        Err(error),
                        final(self).store,
                    )
                    &&& replace::apply_refusal(
                        old(self).store,
                        stable::views(groups@),
                        checks@,
                        encode,
                        write,
                        error,
                        final(self).store.accounting,
                    )
                },
            },
    {
        let ghost before = *self;
        match self.store.apply_groups(groups, checks, encode, write) {
            Err(error) => {
                return Err(error);
            },
            Ok(done) => {
                proof {
                    assert(done == ());
                }
            },
        }
        proof {
            assert(replace::may_be_applied(
                before.store,
                stable::views(groups@),
                checks@,
                encode,
                write,
                Ok(()),
                self.store,
            ));
            assert(RulesRuntime { store: self.store, ..before } == *self);
        }
        match self.snapshot(leader) {
            Ok(snapshot) => Ok(snapshot),
            Err(message) => Err(RulesApplyError::Internal(message)),
        }
    }
}

/// What is shown of the rules as the counters are now.
pub(crate) fn project<C: Fn() -> Result<(), QueryBudgetError>>(
    runtime: &RulesRuntime,
    leader: bool,
    checkpoint: &C,
) -> (shown: Result<RulesStatusSnapshot, QueryBudgetError>)
    requires
        call_requires(*checkpoint, ()),
    ensures
        match shown {
            Ok(snapshot) => snapshot@ == status_of(*runtime, leader),
            Err(error) => budget::may_stop(*checkpoint, error),
        },
        budget::never_stops(*checkpoint) ==> shown is Ok,
        budget::always_stops(*checkpoint) ==> shown is Err,
{
    let counts = match count_rules(&runtime.store.state, checkpoint) {
        Err(error) => {
            return Err(error);
        },
        Ok(counts) => counts,
    };
    let groups = match show_groups(&runtime.store.state, checkpoint) {
        Err(error) => {
            return Err(error);
        },
        Ok(groups) => groups,
    };
    match checkpoint() {
        Err(error) => {
            return Err(error);
        },
        Ok(_) => {},
    }
    Ok(
        RulesStatusSnapshot {
            scheduler_tick_ms: runtime.config.scheduler_tick_ms(),
            max_recording_rows_per_eval: runtime.config.max_recording_rows_per_eval,
            max_alert_instances_per_rule: runtime.config.max_alert_instances_per_rule,
            store_limits: runtime.config.store_limits,
            cluster_enabled: runtime.cluster_enabled,
            cluster_leader: leader,
            metrics: status::metrics_snapshot(
                &runtime.metrics,
                counts,
                leader,
                &runtime.store.accounting,
            ),
            groups,
        },
    )
}

} // verus!
