//! The scheduler: which rules are due, what is claimed before a rule is evaluated, and what is kept
//! of its evaluation.

use vstd::prelude::*;

use crate::ordered;
use crate::ordered::Copied;
use crate::rules::accounting::Held;
use crate::rules::accounting::RulesLimitSurface;
use crate::rules::accounting::RulesStoreAccounting;
use crate::rules::accounting::RulesStoreError;
use crate::rules::copies;
use crate::rules::fingerprint;
use crate::rules::model;
use crate::rules::persist;
use crate::rules::runs;
use crate::rules::runs::RunPoint;
use crate::rules::runtime;
use crate::rules::runtime::RulesRuntime;
use crate::rules::status::RulesStatusSnapshot;
use crate::rules::status::RuntimeMetricsView;
use crate::rules::time;
use crate::rules::time::TimestampPrecision;
use crate::rules::types;
use crate::rules::types::PersistedRuleRuntimeState;
use crate::rules::types::PersistedRulesStoreState;
use crate::rules::types::RuleEvaluationOutcome;
use crate::rules::types::RuleGroupSpec;
use crate::rules::types::RuleGroupView;
use crate::rules::types::RuleSpec;
use crate::rules::types::RuleView;
use crate::rules::types::RuntimeMap;
use crate::rules::types::RuntimeView;
use crate::rules::update;
use crate::rules::update::RuntimeUpdate;
use crate::rules::upper;
use crate::rules::validate;
use crate::sizes;
use crate::stable;
use crate::text;

verus! {

/// A rule that is being evaluated: where it stands, its identifier and fingerprint, the time it is
/// evaluated for, and what is known of it.
#[derive(Debug)]
pub struct Claim {
    pub place: (usize, usize),
    pub rule_id: String,
    pub fingerprint: u64,
    pub eval_timestamp: i64,
    pub previous: PersistedRuleRuntimeState,
}

/// A run of the scheduler over the rules as they were when it began.
#[derive(Debug)]
pub struct RulesRun {
    pub groups: Vec<RuleGroupSpec>,
    pub runtime: RuntimeMap,
    /// Where the rules stand: each group's place with each of its rules' places.
    pub places: Vec<(usize, usize)>,
    pub next: usize,
    pub now_timestamp: i64,
    pub now_unix_ms: u64,
    pub updates: Vec<RuntimeUpdate>,
    pub evaluated_rules: u64,
    pub evaluation_failures: u64,
    pub recording_rows_written: u64,
    pub last_error: Option<String>,
    pub claimed: Option<Claim>,
}

/// Where the rules of groups stand.
pub open spec fn places_of(groups: Seq<RuleGroupView>) -> Seq<(usize, usize)>
    decreases groups.len(),
{
    if groups.len() == 0 {
        Seq::empty()
    } else {
        places_of(groups.drop_last()) + Seq::new(
            groups.last().rules.len(),
            |r: int| ((groups.len() - 1) as usize, r as usize),
        )
    }
}

impl RulesRun {
    /// Whether the places and the claim, if there is one, are on the rules, and the next place is
    /// among them or behind the last.
    pub open spec fn well_formed(self) -> bool {
        &&& self.claimed matches Some(claim) ==> claim.place.0 < self.groups@.len()
            && claim.place.1 < self.groups@[claim.place.0 as int].rules@.len()
        &&& self.next <= self.places@.len()
        &&& forall|i: int|
            0 <= i < self.places@.len() ==> (#[trigger] self.places@[i]).0 < self.groups@.len()
                && self.places@[i].1 < self.groups@[self.places@[i].0 as int].rules@.len()
    }

    /// The group of the next rule.
    pub open spec fn next_group(self) -> RuleGroupView {
        self.groups@[self.places@[self.next as int].0 as int]@
    }

    /// The next rule.
    pub open spec fn next_rule(self) -> RuleView {
        self.groups@[self.places@[self.next as int].0 as int].rules@[self.places@[
            self.next as int
        ].1 as int]@
    }

    /// The identifier of the next rule.
    pub open spec fn next_id(self) -> Seq<char> {
        types::id_of(self.next_group(), self.next_rule())
    }

    /// The fingerprint of the next rule.
    pub open spec fn next_fingerprint(self) -> u64 {
        fingerprint::fingerprint_of(self.next_group(), self.next_rule())
    }

    /// What was known of the next rule when the run began.
    pub open spec fn next_known(self) -> RuntimeView {
        if self.runtime@.contains_key(self.next_id()) {
            self.runtime@[self.next_id()]
        } else {
            types::fresh_runtime(self.next_fingerprint())
        }
    }

    /// Whether the time that the next rule is evaluated for, if there is one, can be told as a
    /// timestamp. From time zero on it always can.
    pub open spec fn next_alignable(self, precision: TimestampPrecision) -> bool {
        self.next < self.places@.len() ==> time::aligned(
            self.now_timestamp as int,
            time::units_in(
                types::interval_of(self.next_group(), self.next_rule()),
                precision,
            ) as int,
        ) >= i64::MIN
    }

    /// The time that the next rule is evaluated for.
    pub open spec fn next_timestamp(self, precision: TimestampPrecision) -> i64 {
        time::aligned(
            self.now_timestamp as int,
            time::units_in(
                types::interval_of(self.next_group(), self.next_rule()),
                precision,
            ) as int,
        ) as i64
    }

    /// Whether the next rule is due: it was not evaluated for this time or a later one.
    pub open spec fn next_due(self, precision: TimestampPrecision) -> bool {
        match self.next_known().last_eval_timestamp {
            Some(last) => last < self.next_timestamp(precision),
            None => true,
        }
    }

    /// What is known of the next rule once its interval is claimed.
    pub open spec fn next_claim(self, precision: TimestampPrecision) -> RuntimeView {
        attempt(
            self.next_known(),
            self.next_fingerprint(),
            self.next_timestamp(precision),
            self.now_unix_ms,
        )
    }

    /// The update by which the interval of the next rule is claimed.
    pub open spec fn next_updates(self, precision: TimestampPrecision) -> Seq<
        (Seq<char>, RuntimeView),
    > {
        seq![(self.next_id(), self.next_claim(precision))]
    }

    /// Whether nothing differs but how far the run has come, what is claimed and what is counted.
    pub open spec fn same_rules(self, before: RulesRun) -> bool {
        &&& self.groups == before.groups
        &&& self.runtime == before.runtime
        &&& self.places == before.places
        &&& self.now_timestamp == before.now_timestamp
        &&& self.now_unix_ms == before.now_unix_ms
        &&& self.recording_rows_written == before.recording_rows_written
        &&& self.updates == before.updates
    }
}

/// What is said of a recording rule between claiming an interval and its outcome.
pub open spec fn attempt(
    previous: RuntimeView,
    fingerprint: u64,
    timestamp: i64,
    now_unix_ms: u64,
) -> RuntimeView {
    RuntimeView {
        fingerprint,
        last_eval_timestamp: Some(timestamp),
        last_eval_unix_ms: Some(now_unix_ms),
        last_duration_ms: 0,
        last_error: Some(
            "recording rule evaluation attempt checkpointed; final outcome pending"@,
        ),
        last_sample_count: 0,
        last_recorded_rows: 0,
        last_outcome: Some(RuleEvaluationOutcome::Error),
        alert_instances: Seq::empty(),
        ..previous
    }
}

/// What is known of a recording rule whose interval is claimed.
pub fn recording_rule_attempt_state(
    previous: PersistedRuleRuntimeState,
    fingerprint: u64,
    aligned_eval_timestamp: i64,
    attempt_unix_ms: u64,
) -> (claimed: PersistedRuleRuntimeState)
    ensures
        claimed@ == attempt(previous@, fingerprint, aligned_eval_timestamp, attempt_unix_ms),
{
    let claimed = PersistedRuleRuntimeState {
        fingerprint,
        last_eval_timestamp: Some(aligned_eval_timestamp),
        last_eval_unix_ms: Some(attempt_unix_ms),
        last_success_unix_ms: previous.last_success_unix_ms,
        last_duration_ms: 0,
        last_error: Some(
            text::owned("recording rule evaluation attempt checkpointed; final outcome pending"),
        ),
        last_sample_count: 0,
        last_recorded_rows: 0,
        last_outcome: Some(RuleEvaluationOutcome::Error),
        alert_instances: Vec::new(),
    };
    assert(claimed@.alert_instances =~= Seq::empty());
    claimed
}

/// Why a run that was asked for came to nothing.
#[derive(Debug, PartialEq, Eq)]
pub enum RulesRunTriggerError {
    AlreadyRunning,
    /// What is shown of the rules after the run cannot be told.
    Snapshot(String),
}

/// How a run begins.
#[derive(Debug)]
pub enum RunStart {
    /// The scheduler is active elsewhere.
    NotLeader,
    /// The state could not be copied.
    SnapshotFailed,
    /// The run is under way.
    Started(RulesRun),
}

/// What is to be done with a rule.
#[derive(Debug, Clone, Copy, PartialEq, Eq, Structural)]
pub enum RuleStep {
    /// Nothing: it is not due.
    NotDue,
    /// Nothing: its interval could not be claimed.
    NotClaimed,
    /// Evaluate it; the claim says for what.
    Evaluate,
    /// Nothing: there are no more rules.
    Done,
}

/// What is recorded of the use of an evaluation.
#[derive(Debug, PartialEq, Eq)]
pub struct UsageRecord {
    pub tenant_id: String,
    pub operation: &'static str,
    pub succeeded: bool,
    pub request_units: u64,
    pub result_units: u64,
    pub rows: u64,
    pub duration_nanos: u64,
}

/// Where the rules of groups stand.
fn rule_places(groups: &Vec<RuleGroupSpec>) -> (places: Vec<(usize, usize)>)
    ensures
        places@ == places_of(stable::views(groups@)),
        forall|i: int|
            0 <= i < places@.len() ==> (#[trigger] places@[i]).0 < groups@.len() && places@[i].1
                < groups@[places@[i].0 as int].rules@.len(),
{
    let ghost all = stable::views(groups@);
    let mut places: Vec<(usize, usize)> = Vec::new();
    let mut g: usize = 0;
    proof {
        assert(all.subrange(0, 0) =~= Seq::empty());
        assert(places@ =~= places_of(all.subrange(0, 0)));
    }
    while g < groups.len()
        invariant
            g <= groups@.len(),
            all == stable::views(groups@),
            places@ == places_of(all.subrange(0, g as int)),
            forall|i: int|
                0 <= i < places@.len() ==> (#[trigger] places@[i]).0 < groups@.len() && places@[i].1
                    < groups@[places@[i].0 as int].rules@.len(),
        decreases groups@.len() - g,
    {
        let ghost start = places@;
        let ghost through = all.subrange(0, g as int + 1);
        let ghost own = Seq::new(
            groups@[g as int].rules@.len(),
            |r: int| ((through.len() - 1) as usize, r as usize),
        );
        let mut r: usize = 0;
        proof {
            assert(through.drop_last() =~= all.subrange(0, g as int));
            assert(own.subrange(0, 0) =~= Seq::empty());
            assert(start + own.subrange(0, 0) =~= start);
        }
        while r < groups[g].rules.len()
            invariant
                g < groups@.len(),
                r <= groups@[g as int].rules@.len(),
                through.len() == g + 1,
                own == Seq::new(
                    groups@[g as int].rules@.len(),
                    |k: int| ((through.len() - 1) as usize, k as usize),
                ),
                places@ == start + own.subrange(0, r as int),
                forall|i: int|
                    0 <= i < places@.len() ==> (#[trigger] places@[i]).0 < groups@.len()
                        && places@[i].1 < groups@[places@[i].0 as int].rules@.len(),
            decreases groups@[g as int].rules@.len() - r,
        {
            places.push((g, r));
            proof {
                assert(own.subrange(0, r as int + 1) =~= own.subrange(0, r as int).push(
                    own[r as int],
                ));
                assert(places@ =~= start + own.subrange(0, r as int + 1));
            }
            r = r + 1;
        }
        proof {
            assert(own.subrange(0, r as int) =~= own);
            assert(through.last() == groups@[g as int]@);
            assert(places@ =~= places_of(through));
        }
        g = g + 1;
    }
    assert(all.subrange(0, g as int) =~= all);
    places
}

/// Whether all but the counters of the store, its state and the counters of the scheduler is as it
/// was.
pub open spec fn same_setup(before: RulesRuntime, after: RulesRuntime) -> bool {
    &&& after.precision == before.precision
    &&& after.cluster_enabled == before.cluster_enabled
    &&& after.config == before.config
    &&& after.run_inflight == before.run_inflight
    &&& after.store.durable == before.store.durable
    &&& after.store.limits == before.store.limits
}

/// Whether a run begins like this, once the copy of the state was held against its limit.
pub open spec fn begun_as(held: Held, start: RunStart, after: RulesStoreAccounting) -> bool {
    &&& after == held.counters
    &&& start is Started <==> held.over is None
}

impl RulesRuntime {
    /// Marks a run as under way, unless one is.
    pub fn try_acquire_run(&mut self) -> (acquired: bool)
        ensures
            acquired == !old(self).run_inflight,
            final(self).run_inflight,
            *final(self) == (RulesRuntime { run_inflight: true, ..*old(self) }),
    {
        if self.run_inflight {
            return false;
        }
        self.run_inflight = true;
        true
    }

    /// Marks that no run is under way.
    pub fn release_run(&mut self)
        ensures
            *final(self) == (RulesRuntime { run_inflight: false, ..*old(self) }),
    {
        self.run_inflight = false;
    }

    /// Takes up a run that was asked for, unless one is under way.
    pub fn trigger_run(&mut self) -> (taken: Result<(), RulesRunTriggerError>)
        ensures
            if old(self).run_inflight {
                &&& taken == Err::<(), RulesRunTriggerError>(RulesRunTriggerError::AlreadyRunning)
                &&& *final(self) == *old(self)
            } else {
                &&& taken is Ok
                &&& *final(self) == (RulesRuntime { run_inflight: true, ..*old(self) })
            },
    {
        if self.try_acquire_run() {
            Ok(())
        } else {
            Err(RulesRunTriggerError::AlreadyRunning)
        }
    }

    /// Ends a run that was asked for, and tells what is shown of the rules then, given whether the
    /// scheduler is active here.
    pub fn finish_triggered_run(&mut self, leader: bool) -> (shown: Result<
        RulesStatusSnapshot,
        RulesRunTriggerError,
    >)
        ensures
            runtime::only_counted(
                (RulesRuntime { run_inflight: false, ..*old(self) }),
                *final(self),
            ),
            match shown {
                Ok(snapshot) => {
                    &&& snapshot@ == runtime::status_of(*final(self), leader)
                    &&& final(self).store.accounting.only_peaks_rose(old(self).store.accounting)
                },
                Err(error) => {
                    &&& error matches RulesRunTriggerError::Snapshot(message) && message@
                        == RulesLimitSurface::SnapshotStatus.message_text()
                    &&& old(self).config.store_limits.max_snapshot_status_bytes < usize::MAX
                    &&& final(self).store.accounting.rejected_once(
                        old(self).store.accounting,
                        RulesLimitSurface::SnapshotStatus,
                    )
                },
            },
            sizes::sat_size(
                upper::status_upper(
                    old(self).store.state@,
                    old(self).metrics@.last_error,
                ) as int,
            ) > old(self).config.store_limits.max_snapshot_status_bytes ==> shown is Err,
            runtime::may_be_shown(
                *old(self),
                leader,
                match shown {
                    Ok(snapshot) => Ok(snapshot),
                    Err(RulesRunTriggerError::Snapshot(message)) => Err(message),
                    Err(RulesRunTriggerError::AlreadyRunning) => arbitrary(),
                },
                final(self).store.accounting,
            ),
    {
        let shown = self.snapshot(leader);
        self.release_run();
        match shown {
            Ok(snapshot) => Ok(snapshot),
            Err(message) => Err(RulesRunTriggerError::Snapshot(message)),
        }
    }

    /// Counts a run that was skipped because one was under way.
    pub fn skip_inflight_run(&mut self)
        ensures
            final(self).store == old(self).store,
            same_setup(*old(self), *final(self)),
            final(self).metrics@ == (RuntimeMetricsView {
                scheduler_skipped_inflight_total: sizes::sat64(
                    old(self).metrics@.scheduler_skipped_inflight_total + 1,
                ),
                ..old(self).metrics@
            }),
    {
        self.metrics.scheduler_skipped_inflight_total =
        self.metrics.scheduler_skipped_inflight_total.saturating_add(1);
    }

    /// Begins a run at a time, given whether the scheduler is active here.
    pub fn begin_run(&mut self, leader: bool, now_timestamp: i64, now_unix_ms: u64) -> (start:
        RunStart)
        ensures
            same_setup(*old(self), *final(self)),
            final(self).store.state == old(self).store.state,
            final(self).store.accounting.at_least(old(self).store.accounting),
            ({
                let counted = RuntimeMetricsView {
                    scheduler_runs_total: sizes::sat64(
                        old(self).metrics@.scheduler_runs_total + 1,
                    ),
                    last_run_unix_ms: Some(now_unix_ms),
                    ..old(self).metrics@
                };
                match start {
                    RunStart::NotLeader => {
                        &&& !leader
                        &&& final(self).store == old(self).store
                        &&& final(self).metrics@ == (RuntimeMetricsView {
                            scheduler_skipped_not_leader_total: sizes::sat64(
                                counted.scheduler_skipped_not_leader_total + 1,
                            ),
                            ..counted
                        })
                    },
                    RunStart::SnapshotFailed => {
                        &&& leader
                        &&& old(self).store.limits.max_snapshot_status_bytes < usize::MAX
                        &&& final(self).metrics@ == (RuntimeMetricsView {
                            last_error: Some("rules state snapshot failed"@),
                            ..counted
                        })
                    },
                    RunStart::Started(run) => {
                        &&& leader
                        &&& final(self).metrics@ == counted
                        &&& run.well_formed()
                        &&& stable::views(run.groups@) == old(self).store.state@.groups
                        &&& run.runtime@ == old(self).store.state@.runtime
                        &&& run.places@ == places_of(old(self).store.state@.groups)
                        &&& run.next == 0
                        &&& run.now_timestamp == now_timestamp
                        &&& run.now_unix_ms == now_unix_ms
                        &&& run.updates@.len() == 0
                        &&& run.evaluated_rules == 0
                        &&& run.evaluation_failures == 0
                        &&& run.recording_rows_written == 0
                        &&& run.last_error is None
                        &&& run.claimed is None
                    },
                }
            }),
            leader ==> exists|state_bytes: usize, copy_bytes: usize|
                model::state_measures(old(self).store.state@, state_bytes)
                    && model::state_measures(old(self).store.state@, copy_bytes)
                    && begun_as(
                    #[trigger] copies::held_copy(
                        old(self).store.limits,
                        old(self).store.accounting,
                        state_bytes,
                        copy_bytes,
                    ),
                    start,
                    final(self).store.accounting,
                ),
    {
        self.metrics.scheduler_runs_total = self.metrics.scheduler_runs_total.saturating_add(1);
        self.metrics.last_run_unix_ms = Some(now_unix_ms);
        if !leader {
            self.metrics.scheduler_skipped_not_leader_total =
            self.metrics.scheduler_skipped_not_leader_total.saturating_add(1);
            return RunStart::NotLeader;
        }
        match self.store.snapshot() {
            Err(_) => {
                self.metrics.last_error = Some(text::owned("rules state snapshot failed"));
                RunStart::SnapshotFailed
            },
            Ok(state) => {
                let PersistedRulesStoreState { groups, runtime } = state;
                let places = rule_places(&groups);
                RunStart::Started(
                    RulesRun {
                        groups,
                        runtime,
                        places,
                        next: 0,
                        now_timestamp,
                        now_unix_ms,
                        updates: Vec::new(),
                        evaluated_rules: 0,
                        evaluation_failures: 0,
                        recording_rows_written: 0,
                        last_error: None,
                        claimed: None,
                    },
                )
            },
        }
    }
}

/// One update for a rule that is there is accepted, and any other is not.
proof fn lemma_one_update(
    id: Seq<char>,
    runtime: RuntimeView,
    current: Map<Seq<char>, RuntimeView>,
)
    ensures
        ({
            let taken = update::accepted(seq![(id, runtime)], current);
            let listed = ordered::listing::<String, RuntimeView>(taken);
            if update::update_fits(current, id, runtime) {
                &&& taken == Map::<Seq<char>, RuntimeView>::empty().insert(id, runtime)
                &&& listed.len() == 1
                &&& current.union_prefer_right(taken) == current.insert(id, runtime)
            } else {
                &&& taken == Map::<Seq<char>, RuntimeView>::empty()
                &&& listed.len() == 0
                &&& current.union_prefer_right(taken) == current
            }
        }),
{
    let updates = seq![(id, runtime)];
    let none = Seq::<(Seq<char>, RuntimeView)>::empty();
    assert(updates.drop_last() =~= none);
    assert(update::accepted(none, current) == Map::<Seq<char>, RuntimeView>::empty());
    let taken = update::accepted(updates, current);
    if update::update_fits(current, id, runtime) {
        assert(ordered::keyed_map::<String, RuntimeView>(none) =~= Map::empty());
        assert(none.push((id, runtime)) =~= updates);
        ordered::lemma_keyed_map_push::<String, RuntimeView>(none, id, runtime);
        ordered::lemma_listing::<String, RuntimeView>(updates);
        assert(current.union_prefer_right(taken) =~= current.insert(id, runtime));
    } else {
        assert(ordered::keyed_map::<String, RuntimeView>(none) =~= Map::empty());
        ordered::lemma_listing::<String, RuntimeView>(none);
        assert(current.union_prefer_right(taken) =~= current);
    }
}

/// Whether a rule records.
pub open spec fn records(rule: RuleView) -> bool {
    rule is Recording
}

/// Whether a claim is that of the next rule of a run.
pub open spec fn claims_next(
    run: RulesRun,
    precision: TimestampPrecision,
    claim: Claim,
    previous: RuntimeView,
) -> bool {
    &&& claim.place == run.places@[run.next as int]
    &&& claim.rule_id@ == run.next_id()
    &&& claim.fingerprint == run.next_fingerprint()
    &&& claim.eval_timestamp == run.next_timestamp(precision)
    &&& claim.previous@ == previous
}

/// What is said of a rule whose interval could not be claimed: the update failed, or was skipped.
pub open spec fn not_claimed_text(applied: Result<usize, RulesStoreError>) -> Seq<char> {
    match applied {
        Err(_) => "recording rule attempt checkpoint failed"@,
        Ok(_) => "recording rule attempt checkpoint was skipped"@,
    }
}

/// Whether the next rule of a run claims its interval durably: there is one, it is due and records,
/// and the claim may be written.
pub open spec fn claims_durably(runtime: RulesRuntime, run: RulesRun) -> bool {
    &&& run.next < run.places@.len()
    &&& run.next_due(runtime.precision)
    &&& records(run.next_rule())
    &&& update::updates_writable(runtime.store, run.next_updates(runtime.precision))
}

impl RulesRuntime {
    fn next_timestamp_of(&self, run: &RulesRun, group: &RuleGroupSpec, rule: &RuleSpec) -> (timestamp:
        i64)
        requires
            time::aligned(
                run.now_timestamp as int,
                time::units_in(types::interval_of(group@, rule@), self.precision) as int,
            ) >= i64::MIN,
        ensures
            timestamp == time::aligned(
                run.now_timestamp as int,
                time::units_in(types::interval_of(group@, rule@), self.precision) as int,
            ),
    {
        let interval = time::duration_units(
            types::rule_interval_secs(group, rule),
            self.precision,
        );
        time::align_eval_timestamp(run.now_timestamp, interval)
    }

    /// Takes up the next rule of a run. A rule that records claims its interval durably before it
    /// may be evaluated, so that no interval is recorded twice; `encode` encodes a state and
    /// `write` writes it, where the store is on disk. For a rule that is not due, or that does not
    /// record, neither is called.
    pub fn consider_rule<
        E: FnOnce(&PersistedRulesStoreState, &RuntimeMap) -> Option<Vec<u8>>,
        W: FnOnce(&Vec<u8>) -> Result<(), String>,
    >(&mut self, run: &mut RulesRun, encode: E, write: W) -> (step: RuleStep)
        requires
            old(run).well_formed(),
            old(run).next_alignable(old(self).precision),
            forall|state: &PersistedRulesStoreState, over: &RuntimeMap|
                claims_durably(*old(self), *old(run)) && state@ == old(self).store.state@ && over@
                    == update::accepted(
                    old(run).next_updates(old(self).precision),
                    old(self).store.state@.runtime,
                ) ==> #[trigger] call_requires(encode, (state, over)),
            forall|bytes: &Vec<u8>|
                claims_durably(*old(self), *old(run)) && update::writes_updates(
                    old(self).store,
                    old(run).next_updates(old(self).precision),
                    encode,
                    *bytes,
                ) ==> #[trigger] call_requires(write, (bytes,)),
        ensures
            final(run).well_formed(),
            final(run).same_rules(*old(run)),
            same_setup(*old(self), *final(self)),
            final(self).metrics == old(self).metrics,
            final(self).store.accounting.at_least(old(self).store.accounting),
            final(self).store.state.groups == old(self).store.state.groups,
            validate::stays_valid(
                old(self).store.state@,
                final(self).store.state@,
                old(self).store.limits,
            ),
            runs::takes_up(
                (RunPoint { runtime: old(self).store.state@.runtime, run: *old(run) }),
                (RunPoint { runtime: final(self).store.state@.runtime, run: *final(run) }),
                old(self).precision,
                step,
            ),
            step is Done <==> old(run).next == old(run).places@.len(),
            step is Done ==> *final(run) == *old(run) && final(self).store == old(self).store,
            !(step is Done) ==> final(run).next == old(run).next + 1,
            step is NotDue <==> !(step is Done) && !old(run).next_due(old(self).precision),
            !(step is Done) && !(step is NotDue) && records(old(run).next_rule()) ==> exists|
                applied: Result<usize, RulesStoreError>,
            | #[trigger]
                update::may_be_updated(
                    old(self).store,
                    old(run).next_updates(old(self).precision),
                    encode,
                    write,
                    applied,
                    final(self).store.accounting,
                ) && (step is Evaluate <==> applied == Ok::<usize, RulesStoreError>(1)) && (
                step is NotClaimed ==> text::opt_text(final(run).last_error) == Some(
                    not_claimed_text(applied),
                )),
            !(step is Done) && !(step is NotDue) && records(old(run).next_rule())
                && update::update_fits(
                old(self).store.state@.runtime,
                old(run).next_id(),
                old(run).next_claim(old(self).precision),
            ) && update::no_update_refused(
                old(self).store,
                old(run).next_updates(old(self).precision),
                encode,
                write,
            ) ==> step is Evaluate,
            match step {
                RuleStep::Done => true,
                RuleStep::NotDue => {
                    &&& final(self).store == old(self).store
                    &&& final(run).claimed is None
                    &&& final(run).evaluated_rules == old(run).evaluated_rules
                    &&& final(run).evaluation_failures == old(run).evaluation_failures
                    &&& final(run).last_error == old(run).last_error
                },
                RuleStep::Evaluate => {
                    let known = old(run).next_known();
                    let claimed = old(run).next_claim(old(self).precision);
                    &&& final(run).evaluated_rules == sizes::sat64(old(run).evaluated_rules + 1)
                    &&& final(run).evaluation_failures == old(run).evaluation_failures
                    &&& final(run).last_error == old(run).last_error
                    &&& final(run).claimed matches Some(claim) && claims_next(
                        *old(run),
                        old(self).precision,
                        claim,
                        if records(old(run).next_rule()) {
                            claimed
                        } else {
                            known
                        },
                    )
                    &&& if records(old(run).next_rule()) {
                        &&& update::update_fits(
                            old(self).store.state@.runtime,
                            old(run).next_id(),
                            claimed,
                        )
                        &&& final(self).store.state@.runtime == old(
                            self,
                        ).store.state@.runtime.insert(old(run).next_id(), claimed)
                        &&& old(self).store.durable ==> persist::written(
                            encode,
                            write,
                            old(self).store.state@,
                            Map::<Seq<char>, RuntimeView>::empty().insert(
                                old(run).next_id(),
                                claimed,
                            ),
                            final(self).store.accounting.durable_file_bytes as nat,
                        )
                    } else {
                        final(self).store == old(self).store
                    }
                },
                RuleStep::NotClaimed => {
                    let claimed = old(run).next_claim(old(self).precision);
                    &&& records(old(run).next_rule())
                    &&& final(self).store.state@ == old(self).store.state@
                    &&& final(run).claimed is None
                    &&& final(run).evaluated_rules == old(run).evaluated_rules
                    &&& final(run).evaluation_failures == sizes::sat64(
                        old(run).evaluation_failures + 1,
                    )
                    &&& if update::update_fits(
                        old(self).store.state@.runtime,
                        old(run).next_id(),
                        claimed,
                    ) {
                        text::opt_text(final(run).last_error) == Some(
                            "recording rule attempt checkpoint failed"@,
                        )
                    } else {
                        text::opt_text(final(run).last_error) == Some(
                            "recording rule attempt checkpoint was skipped"@,
                        ) || text::opt_text(final(run).last_error) == Some(
                            "recording rule attempt checkpoint failed"@,
                        )
                    }
                },
            },
    {
        if run.next == run.places.len() {
            return RuleStep::Done;
        }
        let place = run.places[run.next];
        let ghost start = *run;
        let group = &run.groups[place.0];
        let rule = &group.rules[place.1];
        let id = types::rule_id(group, rule);
        let fingerprint = fingerprint::rule_fingerprint(group, rule);
        let previous = match run.runtime.get(&id) {
            Some(known) => known.copied(),
            None => PersistedRuleRuntimeState::fresh(fingerprint),
        };
        let timestamp = self.next_timestamp_of(run, group, rule);
        let recording = match rule {
            RuleSpec::Recording(_) => true,
            RuleSpec::Alert(_) => false,
        };
        proof {
            assert(place == start.places@[start.next as int]);
            assert(group@ == start.next_group());
            assert(rule@ == start.next_rule());
            assert(previous@ == start.next_known());
            assert(timestamp == start.next_timestamp(self.precision));
        }
        run.next = run.next + 1;
        run.claimed = None;
        let due = match previous.last_eval_timestamp {
            Some(last) => last < timestamp,
            None => true,
        };
        if !due {
            return RuleStep::NotDue;
        }
        if !recording {
            run.evaluated_rules = run.evaluated_rules.saturating_add(1);
            run.claimed = Some(
                Claim { place, rule_id: id, fingerprint, eval_timestamp: timestamp, previous },
            );
            return RuleStep::Evaluate;
        }
        let claimed = recording_rule_attempt_state(
            previous,
            fingerprint,
            timestamp,
            run.now_unix_ms,
        );
        let ghost claim_view = claimed@;
        let mut updates: Vec<RuntimeUpdate> = Vec::with_capacity(1);
        updates.push((text::owned(id.as_str()), claimed.copied()));
        proof {
            assert(update::update_views(updates@) =~= seq![(id@, claim_view)]);
            assert(seq![(id@, claim_view)] == start.next_updates(self.precision));
            lemma_one_update(id@, claim_view, self.store.state@.runtime);
        }
        let ghost before = self.store;
        let applied = self.store.apply_runtime_updates(updates, encode, write);
        proof {
            assert(update::may_be_updated(
                before,
                seq![(id@, claim_view)],
                encode,
                write,
                applied,
                self.store.accounting,
            ));
        }
        match applied {
            Err(_) => {
                run.evaluation_failures = run.evaluation_failures.saturating_add(1);
                run.last_error = Some(text::owned("recording rule attempt checkpoint failed"));
                RuleStep::NotClaimed
            },
            Ok(count) => {
                if count == 1 {
                    run.evaluated_rules = run.evaluated_rules.saturating_add(1);
                    run.claimed = Some(
                        Claim {
                            place,
                            rule_id: id,
                            fingerprint,
                            eval_timestamp: timestamp,
                            previous: claimed,
                        },
                    );
                    RuleStep::Evaluate
                } else {
                    run.evaluation_failures = run.evaluation_failures.saturating_add(1);
                    run.last_error = Some(
                        text::owned("recording rule attempt checkpoint was skipped"),
                    );
                    RuleStep::NotClaimed
                }
            },
        }
    }
}

/// What is kept of an evaluation that succeeded.
pub open spec fn succeeded(
    outcome: RuntimeView,
    fingerprint: u64,
    duration_ms: u64,
) -> RuntimeView {
    RuntimeView { fingerprint, last_duration_ms: duration_ms, ..outcome }
}

/// What is kept of an evaluation that failed.
pub open spec fn failed(
    previous: RuntimeView,
    fingerprint: u64,
    timestamp: i64,
    now_unix_ms: u64,
    duration_ms: u64,
    message: Seq<char>,
) -> RuntimeView {
    RuntimeView {
        fingerprint,
        last_eval_timestamp: Some(timestamp),
        last_eval_unix_ms: Some(now_unix_ms),
        last_duration_ms: duration_ms,
        last_error: Some(message),
        last_outcome: Some(RuleEvaluationOutcome::Error),
        ..previous
    }
}

/// The word for the evaluation of a rule.
pub open spec fn operation_of(rule: RuleView) -> Seq<char> {
    match rule {
        RuleView::Recording(_) => "recording_rule"@,
        RuleView::Alert(_) => "alert_rule"@,
    }
}

impl RulesRun {
    /// Whether the time that the next rule is evaluated for, if there is one, can be told as a
    /// timestamp.
    pub fn next_can_be_aligned(&self, precision: TimestampPrecision) -> (answer: bool)
        requires
            self.well_formed(),
        ensures
            answer == self.next_alignable(precision),
    {
        if self.next == self.places.len() {
            return true;
        }
        let place = self.places[self.next];
        let group = &self.groups[place.0];
        let interval = time::duration_units(
            types::rule_interval_secs(group, &group.rules[place.1]),
            precision,
        );
        time::can_align(self.now_timestamp, interval)
    }

    /// Keeps how the evaluation of the claimed rule came out, and tells what is to be recorded of
    /// it. Without a claim nothing is kept.
    pub fn finish_rule(
        &mut self,
        outcome: Result<PersistedRuleRuntimeState, String>,
        duration_ms: u64,
    ) -> (usage: Option<UsageRecord>)
        requires
            old(self).well_formed(),
        ensures
            final(self).well_formed(),
            final(self).claimed is None,
            final(self).groups == old(self).groups,
            final(self).runtime == old(self).runtime,
            final(self).places == old(self).places,
            final(self).next == old(self).next,
            final(self).now_timestamp == old(self).now_timestamp,
            final(self).now_unix_ms == old(self).now_unix_ms,
            final(self).evaluated_rules == old(self).evaluated_rules,
            old(self).claimed is Some ==> runs::keeps_outcome(
                *old(self),
                *final(self),
                outcome,
                duration_ms,
            ),
            match old(self).claimed {
                None => {
                    &&& usage is None
                    &&& final(self).updates == old(self).updates
                    &&& final(self).evaluation_failures == old(self).evaluation_failures
                    &&& final(self).recording_rows_written == old(self).recording_rows_written
                    &&& final(self).last_error == old(self).last_error
                },
                Some(claim) => {
                    let group = old(self).groups@[claim.place.0 as int];
                    let rule = group.rules@[claim.place.1 as int];
                    &&& usage matches Some(record) && record.tenant_id@ == group@.tenant_id
                        && record.operation@ == operation_of(rule@) && record.succeeded
                        == (outcome is Ok) && record.request_units == 1 && record.duration_nanos
                        == sizes::sat64(duration_ms * 1000000) && (record.result_units, record.rows)
                        == match outcome {
                        Ok(state) => (state.last_sample_count, state.last_recorded_rows),
                        Err(_) => (0u64, 0u64),
                    }
                    &&& match outcome {
                        Ok(state) => {
                            &&& update::update_views(final(self).updates@) == update::update_views(
                                old(self).updates@,
                            ).push(
                                (
                                    claim.rule_id@,
                                    succeeded(state@, claim.fingerprint, duration_ms),
                                ),
                            )
                            &&& final(self).recording_rows_written == sizes::sat64(
                                old(self).recording_rows_written + state.last_recorded_rows,
                            )
                            &&& final(self).evaluation_failures == old(self).evaluation_failures
                            &&& final(self).last_error == old(self).last_error
                        },
                        Err(message) => {
                            &&& update::update_views(final(self).updates@) == update::update_views(
                                old(self).updates@,
                            ).push(
                                (
                                    claim.rule_id@,
                                    failed(
                                        claim.previous@,
                                        claim.fingerprint,
                                        claim.eval_timestamp,
                                        old(self).now_unix_ms,
                                        duration_ms,
                                        message@,
                                    ),
                                ),
                            )
                            &&& final(self).recording_rows_written == old(
                                self,
                            ).recording_rows_written
                            &&& final(self).evaluation_failures == sizes::sat64(
                                old(self).evaluation_failures + 1,
                            )
                            &&& text::opt_text(final(self).last_error) == Some(message@)
                        },
                    }
                },
            },
    {
        let mut taken: Option<Claim> = None;
        core::mem::swap(&mut self.claimed, &mut taken);
        let claim = match taken {
            None => {
                return None;
            },
            Some(claim) => claim,
        };
        let group = &self.groups[claim.place.0];
        let operation = match &group.rules[claim.place.1] {
            RuleSpec::Recording(_) => "recording_rule",
            RuleSpec::Alert(_) => "alert_rule",
        };
        let tenant_id = text::owned(group.tenant_id.as_str());
        let duration_nanos = sizes::times64(duration_ms, 1000000);
        let ghost before = self.updates@;
        match outcome {
            Ok(outcome_state) => {
                let mut state = outcome_state;
                state.fingerprint = claim.fingerprint;
                state.last_duration_ms = duration_ms;
                let result_units = state.last_sample_count;
                let rows = state.last_recorded_rows;
                self.recording_rows_written = self.recording_rows_written.saturating_add(rows);
                let update = (claim.rule_id, state);
                proof {
                    assert(update::update_views(before.push(update)) =~= update::update_views(
                        before,
                    ).push((update.0@, update.1@)));
                }
                self.updates.push(update);
                Some(
                    UsageRecord {
                        tenant_id,
                        operation,
                        succeeded: true,
                        request_units: 1,
                        result_units,
                        rows,
                        duration_nanos,
                    },
                )
            },
            Err(message) => {
                let mut state = claim.previous;
                state.fingerprint = claim.fingerprint;
                state.last_eval_timestamp = Some(claim.eval_timestamp);
                state.last_eval_unix_ms = Some(self.now_unix_ms);
                state.last_duration_ms = duration_ms;
                state.last_error = Some(text::owned(message.as_str()));
                state.last_outcome = Some(RuleEvaluationOutcome::Error);
                let update = (claim.rule_id, state);
                proof {
                    assert(update::update_views(before.push(update)) =~= update::update_views(
                        before,
                    ).push((update.0@, update.1@)));
                }
                self.updates.push(update);
                self.evaluation_failures = self.evaluation_failures.saturating_add(1);
                self.last_error = Some(message);
                Some(
                    UsageRecord {
                        tenant_id,
                        operation,
                        succeeded: false,
                        request_units: 1,
                        result_units: 0,
                        rows: 0,
                        duration_nanos,
                    },
                )
            },
        }
    }
}

impl RulesRuntime {
    /// Ends a run: what is known of its rules is updated, and its counts are added up. Whether the
    /// update failed is told.
    pub fn finish_run<
        E: FnOnce(&PersistedRulesStoreState, &RuntimeMap) -> Option<Vec<u8>>,
        W: FnOnce(&Vec<u8>) -> Result<(), String>,
    >(&mut self, run: RulesRun, encode: E, write: W) -> (kept: bool)
        requires
            forall|state: &PersistedRulesStoreState, over: &RuntimeMap|
                update::updates_writable(old(self).store, update::update_views(run.updates@))
                    && state@ == old(self).store.state@ && over@ == update::accepted(
                    update::update_views(run.updates@),
                    old(self).store.state@.runtime,
                ) ==> #[trigger] call_requires(encode, (state, over)),
            forall|bytes: &Vec<u8>|
                update::writes_updates(
                    old(self).store,
                    update::update_views(run.updates@),
                    encode,
                    *bytes,
                ) ==> #[trigger] call_requires(write, (bytes,)),
        ensures
            same_setup(*old(self), *final(self)),
            final(self).store.state.groups == old(self).store.state.groups,
            final(self).store.accounting.at_least(old(self).store.accounting),
            validate::stays_valid(
                old(self).store.state@,
                final(self).store.state@,
                old(self).store.limits,
            ),
            kept ==> final(self).store.state@.runtime == old(
                self,
            ).store.state@.runtime.union_prefer_right(
                update::accepted(update::update_views(run.updates@), old(self).store.state@.runtime),
            ),
            exists|applied: Result<usize, RulesStoreError>| #[trigger]
                update::may_be_updated(
                    old(self).store,
                    update::update_views(run.updates@),
                    encode,
                    write,
                    applied,
                    final(self).store.accounting,
                ) && kept == (applied is Ok),
            update::no_update_refused(
                old(self).store,
                update::update_views(run.updates@),
                encode,
                write,
            ) ==> kept,
            !kept ==> final(self).store.state == old(self).store.state && exists|
                error: RulesStoreError,
            | #[trigger]
                update::update_refusal(
                    old(self).store,
                    update::update_views(run.updates@),
                    encode,
                    write,
                    error,
                    final(self).store.accounting,
                ),
            ({
                let failures = if kept {
                    run.evaluation_failures
                } else {
                    sizes::sat64(run.evaluation_failures + 1)
                };
                final(self).metrics@ == (RuntimeMetricsView {
                    evaluated_rules_total: sizes::sat64(
                        old(self).metrics@.evaluated_rules_total + run.evaluated_rules,
                    ),
                    evaluation_failures_total: sizes::sat64(
                        old(self).metrics@.evaluation_failures_total + failures,
                    ),
                    recording_rows_written_total: sizes::sat64(
                        old(self).metrics@.recording_rows_written_total
                            + run.recording_rows_written,
                    ),
                    last_error: if kept {
                        text::opt_text(run.last_error)
                    } else {
                        Some("rules state persist failed"@)
                    },
                    ..old(self).metrics@
                })
            }),
    {
        let evaluated = run.evaluated_rules;
        let rows = run.recording_rows_written;
        let mut failures: u64 = run.evaluation_failures;
        let mut last_error = run.last_error;
        let ghost before = self.store;
        let ghost given = update::update_views(run.updates@);
        let applied = self.store.apply_runtime_updates(run.updates, encode, write);
        proof {
            assert(update::may_be_updated(
                before,
                given,
                encode,
                write,
                applied,
                self.store.accounting,
            ));
        }
        let kept = match applied {
            Ok(_) => true,
            Err(_) => {
                failures = failures.saturating_add(1);
                last_error = Some(text::owned("rules state persist failed"));
                false
            },
        };
        self.metrics.evaluated_rules_total =
        self.metrics.evaluated_rules_total.saturating_add(evaluated);
        self.metrics.evaluation_failures_total =
        self.metrics.evaluation_failures_total.saturating_add(failures);
        self.metrics.recording_rows_written_total =
        self.metrics.recording_rows_written_total.saturating_add(rows);
        self.metrics.last_error = last_error;
        kept
    }
}

/// An interval that was claimed is not due again: not in a run at the same time, nor in one at any
/// other time of the same interval, even where the outcome of the evaluation was never kept.
pub proof fn lemma_claimed_interval_not_due(
    run: RulesRun,
    precision: TimestampPrecision,
    previous: RuntimeView,
    fingerprint: u64,
    timestamp: i64,
    now_unix_ms: u64,
)
    requires
        run.runtime@.contains_key(run.next_id()),
        run.runtime@[run.next_id()] == attempt(previous, fingerprint, timestamp, now_unix_ms),
        run.next_timestamp(precision) <= timestamp,
    ensures
        !run.next_due(precision),
{
}

/// An evaluation that was kept, whether it succeeded or failed, is for the time it was claimed for,
/// so that the rule is not due again for that time.
pub proof fn lemma_kept_evaluation_not_due(
    run: RulesRun,
    precision: TimestampPrecision,
    kept: RuntimeView,
    timestamp: i64,
)
    requires
        run.runtime@.contains_key(run.next_id()),
        run.runtime@[run.next_id()] == kept,
        kept.last_eval_timestamp == Some(timestamp),
        run.next_timestamp(precision) <= timestamp,
    ensures
        !run.next_due(precision),
{
}

/// A rule that was never evaluated is due.
pub proof fn lemma_new_rule_due(run: RulesRun, precision: TimestampPrecision)
    requires
        !run.runtime@.contains_key(run.next_id()),
    ensures
        run.next_due(precision),
{
}

} // verus!
