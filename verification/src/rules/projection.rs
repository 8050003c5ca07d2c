//! Showing the rules within a query budget, and encoding what is shown.

use vstd::prelude::*;

use crate::budget;
use crate::budget::QueryBudgetError;
use crate::capacity;
use crate::rules::accounting::Held;
use crate::rules::accounting::RulesLimitSurface;
use crate::rules::accounting::RulesStoreAccounting;
use crate::rules::limits;
use crate::rules::model;
use crate::rules::runtime;
use crate::rules::runtime::RulesRuntime;
use crate::rules::runtime::RulesStatusProjectionError;
use crate::rules::shown;
use crate::rules::status;
use crate::rules::status::RulesExpositionSnapshot;
use crate::rules::status::RulesStatusSnapshot;
use crate::rules::status::RulesStatusView;
use crate::rules::store::RulesStore;
use crate::rules::upper;
use crate::sizes;
use crate::text;

verus! {

/// Whether a status within a query budget may come out like this, with the counters after it, when
/// it is measured to hold a number of bytes.
pub open spec fn status_comes_to<
    C: Fn() -> Result<(), QueryBudgetError>,
    R: FnOnce(u64) -> Result<(), QueryBudgetError>,
    Z: Fn(u64) -> Result<(), QueryBudgetError>,
>(
    before: RulesRuntime,
    leader: bool,
    checkpoint: C,
    reserve: R,
    resize: Z,
    actual: usize,
    shown: Result<(RulesStatusSnapshot, u64), RulesStatusProjectionError>,
    after: RulesStoreAccounting,
) -> bool {
    let most = upper::query_upper(before.store.state@, before.metrics@.last_error);
    let charge = charge_of(before, leader, actual);
    let held = held_at(before, actual);
    let said = model_bytes(before.metrics@.last_error);
    match shown {
        Ok((snapshot, reserved)) => {
            &&& snapshot@ == runtime::status_of(with_counters(before, after), leader)
            &&& held.over is None
            &&& after == held.counters
            &&& charge <= most
            &&& reserved == charge
            &&& budget::granted(reserve, said)
            &&& budget::granted(resize, most as u64)
            &&& budget::granted(resize, charge as u64)
        },
        Err(RulesStatusProjectionError::QueryBudget(refusal)) => {
            &&& after.only_peaks_rose(before.store.accounting)
            &&& {
                ||| budget::may_stop(checkpoint, refusal)
                ||| budget::refused(reserve, said, refusal)
                ||| budget::refused(resize, most as u64, refusal)
                ||| held.over is None && charge <= most && budget::refused(
                    resize,
                    charge as u64,
                    refusal,
                )
            }
        },
        Err(RulesStatusProjectionError::StatusLimit) => {
            &&& held.over is Some
            &&& after == held.counters
        },
        Err(RulesStatusProjectionError::Serialization(message)) => {
            &&& message@
                == "rules status retained-memory model exceeded its pre-allocation reservation"@
            &&& charge > most
            &&& after == before.store.accounting.observed(
                RulesLimitSurface::SnapshotStatus,
                upper_of(before),
            )
        },
    }
}

/// The most that a status is modeled to hold.
pub open spec fn upper_of(runtime: RulesRuntime) -> usize {
    sizes::sat_size(
        upper::status_upper(runtime.store.state@, runtime.metrics@.last_error) as int,
    )
}

/// Whether a status may be measured to hold a number of bytes: it holds at least what it takes
/// without spare room. How far it is above is the allocator's choice.
pub open spec fn measures(runtime: RulesRuntime, leader: bool, actual: usize) -> bool {
    actual >= sizes::sat_size(shown::shown_cost(runtime::status_of(runtime, leader)) as int)
}

/// What a query budget is charged for a status that is measured to hold a number of bytes.
pub open spec fn charge_of(runtime: RulesRuntime, leader: bool, actual: usize) -> usize {
    shown::query_charge(actual, runtime::status_of(runtime, leader))
}

/// A status held against its limit before it is made, and after, when it is measured to hold a
/// number of bytes.
pub open spec fn held_at(runtime: RulesRuntime, actual: usize) -> Held {
    runtime::held_status(
        runtime.config.store_limits,
        runtime.store.accounting,
        upper_of(runtime),
        actual,
    )
}

/// The bytes reserved for the last error of the scheduler before anything is copied.
pub open spec fn model_bytes(last_error: Option<Seq<char>>) -> u64 {
    sizes::sat_size(model::opt_text_cost(last_error) as int) as u64
}

impl RulesRuntime {
    /// What is shown of the rules, before it is held against its limit: with the bytes that it is
    /// measured to hold, those that a query budget is charged for it, and the most of these.
    #[verifier::spinoff_prover]
    #[verifier::rlimit(60)]
    fn make_status_snapshot<
        C: Fn() -> Result<(), QueryBudgetError>,
        R: FnOnce(u64) -> Result<(), QueryBudgetError>,
        Z: Fn(u64) -> Result<(), QueryBudgetError>,
    >(&mut self, leader: bool, checkpoint: &C, reserve: R, resize: &Z) -> (made: Result<
        (RulesStatusSnapshot, usize, usize, usize),
        RulesStatusProjectionError,
    >)
        requires
            call_requires(*checkpoint, ()),
            budget::may_pass(*checkpoint) ==> call_requires(
                reserve,
                (model_bytes(old(self).metrics@.last_error),),
            ),
            budget::may_pass(*checkpoint) && budget::granted(
                reserve,
                model_bytes(old(self).metrics@.last_error),
            ) && upper_of(*old(self)) <= old(self).config.store_limits.max_snapshot_status_bytes
                ==> call_requires(
                *resize,
                (upper::query_upper(old(self).store.state@, old(self).metrics@.last_error) as u64,),
            ),
        ensures
            runtime::only_counted(*old(self), *final(self)),
            match made {
                Ok((snapshot, actual, charge, most)) => {
                    &&& budget::may_pass(*checkpoint)
                    &&& upper_of(*old(self))
                        <= old(self).config.store_limits.max_snapshot_status_bytes
                    &&& snapshot@ == runtime::status_of(*final(self), leader)
                    &&& measures(*old(self), leader, actual)
                    &&& charge == charge_of(*old(self), leader, actual)
                    &&& most == upper::query_upper(
                        old(self).store.state@,
                        old(self).metrics@.last_error,
                    )
                    &&& final(self).store.accounting == old(self).store.accounting.observed(
                        RulesLimitSurface::SnapshotStatus,
                        upper_of(*old(self)),
                    )
                    &&& budget::granted(reserve, model_bytes(old(self).metrics@.last_error))
                    &&& budget::granted(*resize, most as u64)
                },
                Err(error) => {
                    &&& !(error is Serialization)
                    &&& status_comes_to(
                        *old(self),
                        leader,
                        *checkpoint,
                        reserve,
                        *resize,
                        usize::MAX,
                        Err(error),
                        final(self).store.accounting,
                    )
                },
            },
            budget::never_stops(*checkpoint) && budget::always_grants(reserve) && upper_of(
                *old(self),
            ) > old(self).config.store_limits.max_snapshot_status_bytes ==> made matches Err(
                RulesStatusProjectionError::StatusLimit,
            ),
            budget::never_stops(*checkpoint) && budget::always_grants(reserve)
                && budget::always_grants(*resize) ==> !(made matches Err(
                RulesStatusProjectionError::QueryBudget(_),
            )),
            budget::always_stops(*checkpoint) ==> {
                &&& made matches Err(RulesStatusProjectionError::QueryBudget(error))
                    && budget::may_stop(*checkpoint, error)
                &&& final(self).store.accounting == old(self).store.accounting
            },
    {
        let ghost before = *self;
        match checkpoint() {
            Err(error) => {
                return Err(RulesStatusProjectionError::QueryBudget(error));
            },
            Ok(_) => {},
        }
        let said = match &self.metrics.last_error {
            Some(message) => model::modeled_string_clone_upper_bytes(message.as_str()),
            None => 0,
        };
        match reserve(said as u64) {
            Err(error) => {
                return Err(RulesStatusProjectionError::QueryBudget(error));
            },
            Ok(_) => {},
        }
        match checkpoint() {
            Err(error) => {
                return Err(RulesStatusProjectionError::QueryBudget(error));
            },
            Ok(_) => {},
        }
        let limit = self.config.store_limits.max_snapshot_status_bytes;
        let (upper, query) =
            match upper::modeled_rules_status_output_upper_bytes_with_execution(
            &self.store.state,
            &self.metrics,
            checkpoint,
        ) {
            Err(error) => {
                return Err(RulesStatusProjectionError::QueryBudget(error));
            },
            Ok(found) => found,
        };
        match self.store.accounting.enforce_limit(RulesLimitSurface::SnapshotStatus, upper, limit) {
            Err(_) => {
                proof {
                    assert(held_at(before, usize::MAX).over is Some);
                }
                return Err(RulesStatusProjectionError::StatusLimit);
            },
            Ok(_) => {},
        }
        match resize(query as u64) {
            Err(error) => {
                proof {
                    assert(budget::refused(*resize, query as u64, error));
                }
                return Err(RulesStatusProjectionError::QueryBudget(error));
            },
            Ok(_) => {},
        }
        let snapshot = match runtime::project(self, leader, checkpoint) {
            Err(error) => {
                return Err(RulesStatusProjectionError::QueryBudget(error));
            },
            Ok(snapshot) => snapshot,
        };
        let (actual, held) =
            match shown::modeled_rules_status_actual_bytes_with_execution(
            &snapshot,
            checkpoint,
        ) {
            Err(error) => {
                return Err(RulesStatusProjectionError::QueryBudget(error));
            },
            Ok(found) => found,
        };
        proof {
            assert(shown::shown_cost(snapshot@) == shown::shown_cost(
                runtime::status_of(before, leader),
            ));
            assert(measures(before, leader, actual));
            assert(held == charge_of(before, leader, actual));
        }
        Ok((snapshot, actual, held, query))
    }

    /// What is shown of the rules, within a query budget: `checkpoint` asks whether to go on,
    /// `reserve` reserves what the last error takes, and `resize` changes that to the most that the
    /// status can take, before anything of it is copied, and then to what it took.
    #[verifier::spinoff_prover]
    #[verifier::rlimit(60)]
    pub fn status_snapshot_with_execution<
        C: Fn() -> Result<(), QueryBudgetError>,
        R: FnOnce(u64) -> Result<(), QueryBudgetError>,
        Z: Fn(u64) -> Result<(), QueryBudgetError>,
    >(&mut self, leader: bool, checkpoint: &C, reserve: R, resize: &Z) -> (shown: Result<
        (RulesStatusSnapshot, u64),
        RulesStatusProjectionError,
    >)
        requires
            call_requires(*checkpoint, ()),
            budget::may_pass(*checkpoint) ==> call_requires(
                reserve,
                (model_bytes(old(self).metrics@.last_error),),
            ),
            forall|bytes: u64|
                budget::may_pass(*checkpoint) && budget::granted(reserve, model_bytes(old(self).metrics@.last_error)) && upper_of(
                    *old(self),
                ) <= old(self).config.store_limits.max_snapshot_status_bytes && bytes
                    <= upper::query_upper(
                    old(self).store.state@,
                    old(self).metrics@.last_error,
                ) ==> #[trigger] call_requires(*resize, (bytes,)),
        ensures
            runtime::only_counted(*old(self), *final(self)),
            exists|actual: usize|
                measures(*old(self), leader, actual) && #[trigger] status_comes_to(
                    *old(self),
                    leader,
                    *checkpoint,
                    reserve,
                    *resize,
                    actual,
                    shown,
                    final(self).store.accounting,
                ),
            shown matches Ok((snapshot, _)) ==> snapshot@ == runtime::status_of(
                *final(self),
                leader,
            ) && final(self).store.accounting.only_peaks_rose(old(self).store.accounting),
            budget::never_stops(*checkpoint) && budget::always_grants(reserve) && upper_of(
                *old(self),
            ) > old(self).config.store_limits.max_snapshot_status_bytes ==> shown matches Err(
                RulesStatusProjectionError::StatusLimit,
            ),
            budget::never_stops(*checkpoint) && budget::always_grants(reserve)
                && budget::always_grants(*resize) ==> !(shown matches Err(
                RulesStatusProjectionError::QueryBudget(_),
            )),
            budget::always_stops(*checkpoint) ==> {
                &&& shown matches Err(RulesStatusProjectionError::QueryBudget(error))
                    && budget::may_stop(*checkpoint, error)
                &&& final(self).store.accounting == old(self).store.accounting
            },
    {
        let ghost before = *self;
        let (snapshot, actual, charge, most) = match self.make_status_snapshot(
            leader,
            checkpoint,
            reserve,
            resize,
        ) {
            Err(error) => {
                proof {
                    assert(measures(before, leader, usize::MAX));
                }
                return Err(error);
            },
            Ok(made) => made,
        };
        let ghost between = *self;
        let kept = self.keep_status_snapshot(snapshot, actual, charge, most, checkpoint, resize);
        proof {
            let limit = before.config.store_limits.max_snapshot_status_bytes;
            assert(held_at(before, actual).over is Some <==> actual > limit);
            assert(actual > limit ==> held_at(before, actual).counters
                == between.store.accounting.observed(
                RulesLimitSurface::SnapshotStatus,
                actual,
            ).rejected(RulesLimitSurface::SnapshotStatus));
            assert(actual <= limit ==> held_at(before, actual).counters
                == between.store.accounting.observed(RulesLimitSurface::SnapshotStatus, actual));
            assert(with_counters(before, self.store.accounting) == *self);
            assert(status_comes_to(
                before,
                leader,
                *checkpoint,
                reserve,
                *resize,
                actual,
                kept,
                self.store.accounting,
            ));
        }
        kept
    }

    /// Holds a status, which is measured to hold a number of bytes and to be charged as another,
    /// against the most that was reserved for it and against its limit, and charges it to a query
    /// budget: `resize` changes what is reserved to the charge, and `checkpoint` asks whether to go
    /// on.
    pub fn keep_status_snapshot<
        C: Fn() -> Result<(), QueryBudgetError>,
        Z: Fn(u64) -> Result<(), QueryBudgetError>,
    >(
        &mut self,
        snapshot: RulesStatusSnapshot,
        actual: usize,
        charge: usize,
        most: usize,
        checkpoint: &C,
        resize: &Z,
    ) -> (kept: Result<(RulesStatusSnapshot, u64), RulesStatusProjectionError>)
        requires
            call_requires(*checkpoint, ()),
            charge <= most && actual <= old(self).config.store_limits.max_snapshot_status_bytes
                && budget::may_pass(*checkpoint) ==> call_requires(*resize, (charge as u64,)),
        ensures
            runtime::only_counted(*old(self), *final(self)),
            ({
                let limit = old(self).config.store_limits.max_snapshot_status_bytes;
                let seen = old(self).store.accounting.observed(
                    RulesLimitSurface::SnapshotStatus,
                    actual,
                );
                if charge > most {
                    &&& kept matches Err(RulesStatusProjectionError::Serialization(message))
                        && message@
                        == "rules status retained-memory model exceeded its pre-allocation reservation"@
                    &&& final(self).store.accounting == old(self).store.accounting
                } else if actual > limit {
                    &&& kept matches Err(RulesStatusProjectionError::StatusLimit)
                    &&& final(self).store.accounting == seen.rejected(
                        RulesLimitSurface::SnapshotStatus,
                    )
                } else {
                    &&& final(self).store.accounting == seen
                    &&& match kept {
                        Ok((shown, reserved)) => {
                            &&& shown@ == runtime::refreshed(snapshot@, seen)
                            &&& reserved == charge
                            &&& budget::granted(*resize, charge as u64)
                        },
                        Err(error) => error matches RulesStatusProjectionError::QueryBudget(refusal)
                            && (budget::may_stop(*checkpoint, refusal) || budget::refused(
                            *resize,
                            charge as u64,
                            refusal,
                        )),
                    }
                    &&& budget::never_stops(*checkpoint) && budget::always_grants(*resize)
                        ==> kept is Ok
                    &&& budget::always_stops(*checkpoint) ==> (kept matches Err(
                        RulesStatusProjectionError::QueryBudget(refusal),
                    ) && budget::may_stop(*checkpoint, refusal))
                }
            }),
    {
        let mut snapshot = snapshot;
        if charge > most {
            return Err(
                RulesStatusProjectionError::Serialization(
                    "rules status retained-memory model exceeded its pre-allocation reservation",
                ),
            );
        }
        let limit = self.config.store_limits.max_snapshot_status_bytes;
        match self.store.accounting.enforce_limit(
            RulesLimitSurface::SnapshotStatus,
            actual,
            limit,
        ) {
            Err(_) => {
                return Err(RulesStatusProjectionError::StatusLimit);
            },
            Ok(_) => {},
        }
        match checkpoint() {
            Err(error) => {
                return Err(RulesStatusProjectionError::QueryBudget(error));
            },
            Ok(_) => {},
        }
        runtime::refresh(&mut snapshot, &self.store.accounting);
        match resize(charge as u64) {
            Err(error) => {
                proof {
                    assert(budget::refused(*resize, charge as u64, error));
                }
                return Err(RulesStatusProjectionError::QueryBudget(error));
            },
            Ok(_) => {},
        }
        match checkpoint() {
            Err(error) => {
                return Err(RulesStatusProjectionError::QueryBudget(error));
            },
            Ok(_) => {},
        }
        Ok((snapshot, charge as u64))
    }

    /// The counters for exposition, given whether the scheduler is active here. Nothing of the
    /// groups is copied.
    pub fn metrics_snapshot_with_execution<C: Fn() -> Result<(), QueryBudgetError>>(
        &self,
        leader: bool,
        checkpoint: &C,
    ) -> (shown: Result<RulesExpositionSnapshot, QueryBudgetError>)
        requires
            call_requires(*checkpoint, ()),
        ensures
            match shown {
                Ok(snapshot) => snapshot == (RulesExpositionSnapshot {
                    scheduler_tick_ms: self.config.tick_ms(),
                    max_recording_rows_per_eval: self.config.max_recording_rows_per_eval,
                    max_alert_instances_per_rule: self.config.max_alert_instances_per_rule,
                    store_limits: self.config.store_limits,
                    metrics: status::exposition(
                        self.metrics@,
                        status::counts_of(self.store.state@),
                        leader,
                        self.store.accounting,
                    ),
                }),
                Err(error) => budget::may_stop(*checkpoint, error),
            },
            budget::never_stops(*checkpoint) ==> shown is Ok,
            budget::always_stops(*checkpoint) ==> (shown matches Err(error) && budget::may_stop(
                *checkpoint,
                error,
            )),
    {
        match checkpoint() {
            Err(error) => {
                return Err(error);
            },
            Ok(_) => {},
        }
        let counts = match runtime::count_rules(&self.store.state, checkpoint) {
            Err(error) => {
                return Err(error);
            },
            Ok(counts) => counts,
        };
        match checkpoint() {
            Err(error) => {
                return Err(error);
            },
            Ok(_) => {},
        }
        Ok(
            RulesExpositionSnapshot {
                scheduler_tick_ms: self.config.scheduler_tick_ms(),
                max_recording_rows_per_eval: self.config.max_recording_rows_per_eval,
                max_alert_instances_per_rule: self.config.max_alert_instances_per_rule,
                store_limits: self.config.store_limits,
                metrics: status::exposition_metrics(
                    &self.metrics,
                    counts,
                    leader,
                    &self.store.accounting,
                ),
            },
        )
    }
}

/// Whether a status may be measured as a number of bytes.
pub open spec fn may_measure<M: Fn(&RulesStatusSnapshot) -> Option<usize>>(
    measure: M,
    shown: RulesStatusView,
    len: usize,
) -> bool {
    exists|given: RulesStatusSnapshot|
        given@ == shown && #[trigger] call_ensures(measure, (&given,), Some(len))
}

/// Whether a status may not be measured.
pub open spec fn may_not_measure<M: Fn(&RulesStatusSnapshot) -> Option<usize>>(
    measure: M,
    shown: RulesStatusView,
) -> bool {
    exists|given: RulesStatusSnapshot|
        given@ == shown && #[trigger] call_ensures(measure, (&given,), None::<usize>)
}

/// Whether a number of bytes has room for a status without spare room.
pub open spec fn holds_status(bytes: usize, shown: RulesStatusView) -> bool {
    bytes >= sizes::sat_size(shown::shown_cost(shown) as int)
}

/// A status that is measured to hold a number of bytes held against its limit, together with so
/// many bytes for its encoded form.
pub open spec fn held_with(runtime: RulesRuntime, bytes: usize, encoded_bytes: int) -> Held {
    Held::start(runtime.store.accounting).then_on(
        RulesLimitSurface::SnapshotStatus,
        sizes::sat_size(bytes + sizes::sat_size(encoded_bytes)),
        runtime.config.store_limits.max_snapshot_status_bytes,
    )
}

/// Whether a status shows the highest number of bytes that the counters have seen on its surface.
pub open spec fn shows_peak(shown: RulesStatusView, counters: RulesStoreAccounting) -> bool {
    shown.metrics.accounting.peak_snapshot_status_bytes == counters.peak_snapshot_status_bytes
}

/// Whether a status that is measured to hold a number of bytes, and to be of a length when it is
/// encoded, comes out like this.
pub open spec fn prepared_as(
    before: RulesRuntime,
    shown: RulesStatusView,
    bytes: usize,
    len: usize,
    prepared: Result<Option<usize>, RulesStatusProjectionError>,
    after: RulesStoreAccounting,
) -> bool {
    let held = held_with(before, bytes, model::grown_list_cost::<u8>(len as nat) as int);
    if len > limits::MAX_BODY_BYTES {
        &&& prepared matches Err(RulesStatusProjectionError::StatusLimit)
        &&& after == before.store.accounting.rejected(RulesLimitSurface::SnapshotStatus)
    } else if held.over is Some {
        &&& prepared matches Err(RulesStatusProjectionError::StatusLimit)
        &&& after == held.counters
    } else {
        &&& prepared == Ok::<Option<usize>, RulesStatusProjectionError>(
            if shows_peak(shown, held.counters) {
                Some(len)
            } else {
                None
            },
        )
        &&& after == held.counters
    }
}

/// Whether a status that is measured to hold a number of bytes settles like this, with the room
/// that its encoded form has.
pub open spec fn settled_as(
    before: RulesRuntime,
    shown: RulesStatusView,
    bytes: usize,
    room: usize,
    settled: Result<bool, RulesStatusProjectionError>,
    after: RulesStoreAccounting,
) -> bool {
    let held = held_with(before, bytes, model::allocation(room as nat) as int);
    &&& after == held.counters
    &&& if held.over is Some {
        settled matches Err(RulesStatusProjectionError::StatusLimit)
    } else {
        settled == Ok::<bool, RulesStatusProjectionError>(shows_peak(shown, held.counters))
    }
}

/// Whether a status may be encoded like this, or not at all.
pub open spec fn may_encode<E: Fn(&RulesStatusSnapshot) -> Option<Vec<u8>>>(
    encode: E,
    shown: RulesStatusView,
    outcome: Option<Vec<u8>>,
) -> bool {
    exists|given: RulesStatusSnapshot|
        given@ == shown && #[trigger] call_ensures(encode, (&given,), outcome)
}

/// What comes of a round of encoding a status.
pub enum Round {
    /// It is over a limit.
    Refused,
    /// A counter that it shows was raised.
    Again,
    /// It shows the counters as they are.
    Settled,
}

/// What comes of a round of encoding a status that is measured to hold a number of bytes, where its
/// encoded form has a length and room, with the counters after it.
pub open spec fn round_of(
    before: RulesRuntime,
    shown: RulesStatusView,
    bytes: usize,
    len: usize,
    room: usize,
) -> (Round, RulesStoreAccounting) {
    let first = held_with(before, bytes, model::grown_list_cost::<u8>(len as nat) as int);
    let second = first.then_on(
        RulesLimitSurface::SnapshotStatus,
        sizes::sat_size(bytes + sizes::sat_size(model::allocation(room as nat) as int)),
        before.config.store_limits.max_snapshot_status_bytes,
    );
    if len > limits::MAX_BODY_BYTES {
        (
            Round::Refused,
            before.store.accounting.rejected(RulesLimitSurface::SnapshotStatus),
        )
    } else if first.over is Some {
        (Round::Refused, first.counters)
    } else if !shows_peak(shown, first.counters) {
        (Round::Again, first.counters)
    } else if second.over is Some {
        (Round::Refused, second.counters)
    } else if !shows_peak(shown, second.counters) {
        (Round::Again, second.counters)
    } else {
        (Round::Settled, second.counters)
    }
}

/// Whether a round of encoding a status may come out like this, with the counters after it. What
/// the status is measured to hold, and the room of its encoded form, is the allocator's choice.
pub open spec fn round_comes_to<E: Fn(&RulesStatusSnapshot) -> Option<Vec<u8>>>(
    encode: E,
    before: RulesRuntime,
    shown: RulesStatusView,
    encoded: Vec<u8>,
    round: Round,
    after: RulesStoreAccounting,
) -> bool {
    &&& may_encode(encode, shown, Some(encoded))
    &&& exists|bytes: usize, room: usize|
        holds_status(bytes, shown) && room >= encoded@.len() && #[trigger] round_of(
            before,
            shown,
            bytes,
            encoded@.len() as usize,
            room,
        ) == (round, after)
}

/// Whether encoding a status may end in a round like this, with the counters after it.
pub open spec fn ends<E: Fn(&RulesStatusSnapshot) -> Option<Vec<u8>>>(
    encode: E,
    before: RulesRuntime,
    shown: RulesStatusView,
    encoded: Result<Vec<u8>, String>,
    after: RulesStoreAccounting,
) -> bool {
    match encoded {
        Ok(bytes) => round_comes_to(encode, before, shown, bytes, Round::Settled, after),
        Err(message) => {
            ||| message@ == "failed to measure bounded rules JSON"@ && may_encode(
                encode,
                shown,
                None,
            ) && after == before.store.accounting
            ||| message@ == RulesLimitSurface::SnapshotStatus.message_text() && exists|
                bytes: Vec<u8>,
            | #[trigger]
                round_comes_to(encode, before, shown, bytes, Round::Refused, after)
        },
    }
}

/// Whether encoding a status may go on after a round, with the counters after it.
pub open spec fn goes_on<E: Fn(&RulesStatusSnapshot) -> Option<Vec<u8>>>(
    encode: E,
    before: RulesRuntime,
    shown: RulesStatusView,
    after: RulesStoreAccounting,
) -> bool {
    exists|bytes: Vec<u8>| #[trigger]
        round_comes_to(encode, before, shown, bytes, Round::Again, after)
}

/// The runtime with other counters of its store.
pub open spec fn with_counters(
    runtime: RulesRuntime,
    counters: RulesStoreAccounting,
) -> RulesRuntime {
    RulesRuntime { store: RulesStore { accounting: counters, ..runtime.store }, ..runtime }
}

/// Whether encoding a status in so many rounds may come out like this, with the status and the
/// counters after it: each round shows the counters as they are, and the first that raises none of
/// those that it shows is the last.
pub open spec fn encoded_as<E: Fn(&RulesStatusSnapshot) -> Option<Vec<u8>>>(
    encode: E,
    before: RulesRuntime,
    first: RulesStatusView,
    rounds: nat,
    encoded: Result<Vec<u8>, String>,
    last: RulesStatusView,
    after: RulesStoreAccounting,
) -> bool
    decreases rounds,
{
    let shown = runtime::refreshed(first, before.store.accounting);
    if rounds == 0 {
        &&& encoded matches Err(message) && message@
            == "rules snapshot/status accounting did not stabilize"@
        &&& last == first
        &&& after == before.store.accounting
    } else {
        ||| last == shown && ends(encode, before, shown, encoded, after)
        ||| exists|between: RulesStoreAccounting| #[trigger]
            goes_on(encode, before, shown, between) && encoded_as(
                encode,
                with_counters(before, between),
                shown,
                (rounds - 1) as nat,
                encoded,
                last,
                after,
            )
    }
}

impl RulesRuntime {
    /// Puts the counters of the store into a status and holds its encoded length, which `measure`
    /// finds, against the limits. The length is told once the counters no longer change by it.
    pub fn prepare_success_snapshot_iteration_with_execution<
        C: Fn() -> Result<(), QueryBudgetError>,
        M: Fn(&RulesStatusSnapshot) -> Option<usize>,
    >(&mut self, snapshot: &mut RulesStatusSnapshot, checkpoint: &C, measure: &M) -> (prepared: Result<
        Option<usize>,
        RulesStatusProjectionError,
    >)
        requires
            call_requires(*checkpoint, ()),
            forall|given: &RulesStatusSnapshot|
                budget::may_pass(*checkpoint) ==> #[trigger] call_requires(*measure, (given,)),
        ensures
            runtime::only_counted(*old(self), *final(self)),
            ({
                let shown = runtime::refreshed(old(snapshot)@, old(self).store.accounting);
                match prepared {
                    Err(RulesStatusProjectionError::QueryBudget(error)) => {
                        &&& budget::may_stop(*checkpoint, error)
                        &&& final(self).store.accounting == old(self).store.accounting
                        &&& final(snapshot)@ == old(snapshot)@ || final(snapshot)@ == shown
                    },
                    Err(RulesStatusProjectionError::Serialization(message)) => {
                        &&& message@ == "failed to measure bounded rules JSON"@
                        &&& may_not_measure(*measure, shown)
                        &&& final(self).store.accounting == old(self).store.accounting
                        &&& final(snapshot)@ == shown
                    },
                    _ => {
                        &&& final(snapshot)@ == shown
                        &&& exists|bytes: usize, len: usize|
                            holds_status(bytes, shown) && may_measure(*measure, shown, len)
                                && #[trigger] prepared_as(
                                *old(self),
                                shown,
                                bytes,
                                len,
                                prepared,
                                final(self).store.accounting,
                            )
                    },
                }
            }),
            budget::never_stops(*checkpoint) ==> !(prepared matches Err(
                RulesStatusProjectionError::QueryBudget(_),
            )),
            budget::always_stops(*checkpoint) ==> {
                &&& prepared matches Err(RulesStatusProjectionError::QueryBudget(error))
                    && budget::may_stop(*checkpoint, error)
                &&& final(snapshot)@ == old(snapshot)@
            },
    {
        match checkpoint() {
            Err(error) => {
                return Err(RulesStatusProjectionError::QueryBudget(error));
            },
            Ok(_) => {},
        }
        runtime::refresh(snapshot, &self.store.accounting);
        let ghost before = *self;
        let ghost shown = snapshot@;
        proof {
            assert(shown == runtime::refreshed(old(snapshot)@, old(self).store.accounting));
        }
        let (bytes, _) = match shown::modeled_rules_status_actual_bytes_with_execution(
            snapshot,
            checkpoint,
        ) {
            Err(error) => {
                return Err(RulesStatusProjectionError::QueryBudget(error));
            },
            Ok(found) => found,
        };
        let len = match measure(snapshot) {
            None => {
                proof {
                    assert(call_ensures(*measure, (&*snapshot,), None::<usize>));
                    assert(may_not_measure(*measure, shown));
                }
                return Err(
                    RulesStatusProjectionError::Serialization(
                        "failed to measure bounded rules JSON",
                    ),
                );
            },
            Some(len) => len,
        };
        proof {
            assert(call_ensures(*measure, (&*snapshot,), Some(len)));
            assert(may_measure(*measure, snapshot@, len));
        }
        let prepared = self.hold_length(snapshot, bytes, len);
        proof {
            assert(prepared_as(before, shown, bytes, len, prepared, self.store.accounting));
        }
        prepared
    }

    /// Holds a status that is measured to hold a number of bytes, and to be of a length when it is
    /// encoded, against the limits.
    pub fn hold_length(&mut self, snapshot: &RulesStatusSnapshot, bytes: usize, len: usize) -> (prepared:
        Result<Option<usize>, RulesStatusProjectionError>)
        ensures
            runtime::only_counted(*old(self), *final(self)),
            prepared_as(
                *old(self),
                snapshot@,
                bytes,
                len,
                prepared,
                final(self).store.accounting,
            ),
    {
        if len > limits::MAX_BODY_BYTES {
            self.store.accounting.reject(RulesLimitSurface::SnapshotStatus);
            return Err(RulesStatusProjectionError::StatusLimit);
        }
        match self.store.accounting.enforce_limit(
            RulesLimitSurface::SnapshotStatus,
            bytes.saturating_add(model::modeled_vec_clone_upper_bytes::<u8>(len)),
            self.config.store_limits.max_snapshot_status_bytes,
        ) {
            Err(_) => {
                return Err(RulesStatusProjectionError::StatusLimit);
            },
            Ok(_) => {},
        }
        if self.store.accounting.peak_snapshot_status_bytes
            == snapshot.metrics.peak_snapshot_status_bytes {
            Ok(Some(len))
        } else {
            Ok(None)
        }
    }

    /// Holds a status that is measured to hold a number of bytes, with the room that its encoded
    /// form has, against the limits.
    pub fn hold_room(&mut self, snapshot: &RulesStatusSnapshot, bytes: usize, room: usize) -> (settled:
        Result<bool, RulesStatusProjectionError>)
        ensures
            runtime::only_counted(*old(self), *final(self)),
            settled_as(
                *old(self),
                snapshot@,
                bytes,
                room,
                settled,
                final(self).store.accounting,
            ),
    {
        match self.store.accounting.enforce_limit(
            RulesLimitSurface::SnapshotStatus,
            bytes.saturating_add(model::modeled_allocation_bytes(room)),
            self.config.store_limits.max_snapshot_status_bytes,
        ) {
            Err(_) => {
                return Err(RulesStatusProjectionError::StatusLimit);
            },
            Ok(_) => {},
        }
        Ok(
            self.store.accounting.peak_snapshot_status_bytes
                == snapshot.metrics.peak_snapshot_status_bytes,
        )
    }

    /// Holds a status and the room of its encoded form against the limits, and tells whether the
    /// counters in it are still those of the store.
    pub fn finalize_success_snapshot_with_execution<C: Fn() -> Result<(), QueryBudgetError>>(
        &mut self,
        snapshot: &RulesStatusSnapshot,
        encoded_capacity: usize,
        checkpoint: &C,
    ) -> (settled: Result<bool, RulesStatusProjectionError>)
        requires
            call_requires(*checkpoint, ()),
        ensures
            runtime::only_counted(*old(self), *final(self)),
            match settled {
                Err(RulesStatusProjectionError::QueryBudget(error)) => {
                    &&& budget::may_stop(*checkpoint, error)
                    &&& final(self).store.accounting == old(self).store.accounting
                },
                _ => exists|bytes: usize|
                    holds_status(bytes, snapshot@) && #[trigger] settled_as(
                        *old(self),
                        snapshot@,
                        bytes,
                        encoded_capacity,
                        settled,
                        final(self).store.accounting,
                    ),
            },
            budget::never_stops(*checkpoint) ==> !(settled matches Err(
                RulesStatusProjectionError::QueryBudget(_),
            )),
            budget::always_stops(*checkpoint) ==> (settled matches Err(
                RulesStatusProjectionError::QueryBudget(error),
            ) && budget::may_stop(*checkpoint, error)),
    {
        match checkpoint() {
            Err(error) => {
                return Err(RulesStatusProjectionError::QueryBudget(error));
            },
            Ok(_) => {},
        }
        let (bytes, _) = match shown::modeled_rules_status_actual_bytes_with_execution(
            snapshot,
            checkpoint,
        ) {
            Err(error) => {
                return Err(RulesStatusProjectionError::QueryBudget(error));
            },
            Ok(found) => found,
        };
        self.hold_room(snapshot, bytes, encoded_capacity)
    }

    /// Encodes a status with the counters of the store in it. Encoding it can raise a counter that
    /// it shows, so that it is tried again, up to eight times, until the counters no longer change.
    pub fn encode_success_snapshot<E: Fn(&RulesStatusSnapshot) -> Option<Vec<u8>>>(
        &mut self,
        snapshot: &mut RulesStatusSnapshot,
        encode: &E,
    ) -> (encoded: Result<Vec<u8>, String>)
        requires
            forall|given: &RulesStatusSnapshot| call_requires(*encode, (given,)),
        ensures
            runtime::only_counted(*old(self), *final(self)),
            final(self).store.accounting.at_least(old(self).store.accounting),
            encoded matches Ok(bytes) ==> {
                &&& bytes@.len() <= limits::MAX_BODY_BYTES
                &&& may_encode(*encode, final(snapshot)@, Some(bytes))
                &&& final(snapshot)@ == runtime::refreshed(old(snapshot)@, final(self).store.accounting)
                &&& final(self).store.accounting.only_peaks_rose(old(self).store.accounting)
            },
            encoded_as(
                *encode,
                *old(self),
                old(snapshot)@,
                8,
                encoded,
                final(snapshot)@,
                final(self).store.accounting,
            ),
    {
        self.encode_within(snapshot, encode, 8)
    }

    /// Encodes a status with the counters of the store in it, in so many rounds.
    fn encode_within<E: Fn(&RulesStatusSnapshot) -> Option<Vec<u8>>>(
        &mut self,
        snapshot: &mut RulesStatusSnapshot,
        encode: &E,
        rounds: usize,
    ) -> (encoded: Result<Vec<u8>, String>)
        requires
            forall|given: &RulesStatusSnapshot| call_requires(*encode, (given,)),
        ensures
            runtime::only_counted(*old(self), *final(self)),
            final(self).store.accounting.at_least(old(self).store.accounting),
            encoded matches Ok(bytes) ==> {
                &&& bytes@.len() <= limits::MAX_BODY_BYTES
                &&& may_encode(*encode, final(snapshot)@, Some(bytes))
                &&& final(snapshot)@ == runtime::refreshed(old(snapshot)@, final(self).store.accounting)
                &&& final(self).store.accounting.only_peaks_rose(old(self).store.accounting)
            },
            encoded_as(
                *encode,
                *old(self),
                old(snapshot)@,
                rounds as nat,
                encoded,
                final(snapshot)@,
                final(self).store.accounting,
            ),
        decreases rounds,
    {
        if rounds == 0 {
            return Err(text::owned("rules snapshot/status accounting did not stabilize"));
        }
        let ghost before = *self;
        let round = self.encode_round(snapshot, encode);
        match round {
            Ok(None) => {
                let ghost between = *self;
                proof {
                    assert(goes_on(*encode, before, snapshot@, between.store.accounting));
                    assert(with_counters(before, between.store.accounting) == between);
                }
                self.encode_within(snapshot, encode, rounds - 1)
            },
            Ok(Some(encoded)) => Ok(encoded),
            Err(message) => Err(message),
        }
    }

    /// Encodes a status with the counters of the store in it, and gives the bytes where that does
    /// not raise a counter that it shows.
    fn encode_round<E: Fn(&RulesStatusSnapshot) -> Option<Vec<u8>>>(
        &mut self,
        snapshot: &mut RulesStatusSnapshot,
        encode: &E,
    ) -> (round: Result<Option<Vec<u8>>, String>)
        requires
            forall|given: &RulesStatusSnapshot| call_requires(*encode, (given,)),
        ensures
            runtime::only_counted(*old(self), *final(self)),
            final(self).store.accounting.at_least(old(self).store.accounting),
            final(snapshot)@ == runtime::refreshed(old(snapshot)@, old(self).store.accounting),
            match round {
                Ok(None) => {
                    &&& goes_on(*encode, *old(self), final(snapshot)@, final(self).store.accounting)
                    &&& final(self).store.accounting.only_peaks_rose(old(self).store.accounting)
                },
                Ok(Some(bytes)) => {
                    &&& ends(
                        *encode,
                        *old(self),
                        final(snapshot)@,
                        Ok(bytes),
                        final(self).store.accounting,
                    )
                    &&& bytes@.len() <= limits::MAX_BODY_BYTES
                    &&& may_encode(*encode, final(snapshot)@, Some(bytes))
                    &&& final(snapshot)@ == runtime::refreshed(old(snapshot)@, final(self).store.accounting)
                    &&& final(self).store.accounting.only_peaks_rose(old(self).store.accounting)
                },
                Err(message) => ends(
                    *encode,
                    *old(self),
                    final(snapshot)@,
                    Err(message),
                    final(self).store.accounting,
                ),
            },
    {
        let go_on = || -> (answer: Result<(), QueryBudgetError>)
            ensures
                answer is Ok,
            { Ok(()) };
        proof {
            assert(budget::never_stops(go_on));
        }
        let ghost before = *self;
        runtime::refresh(snapshot, &self.store.accounting);
        let ghost shown = snapshot@;
        let (bytes, _) = match shown::modeled_rules_status_actual_bytes_with_execution(
            snapshot,
            &go_on,
        ) {
            Ok(found) => found,
            Err(_) => (usize::MAX, usize::MAX),
        };
        let outcome = encode(snapshot);
        proof {
            assert(call_ensures(*encode, (&*snapshot,), outcome));
            assert(may_encode(*encode, shown, outcome));
        }
        let encoded = match outcome {
            None => {
                return Err(text::owned("failed to measure bounded rules JSON"));
            },
            Some(encoded) => encoded,
        };
        let room = capacity::vec_capacity(&encoded);
        let ghost len = encoded@.len() as usize;
        let ghost came = round_of(before, shown, bytes, len, room);
        match self.hold_length(snapshot, bytes, encoded.len()) {
            Err(_) => {
                let message = text::owned(RulesLimitSurface::SnapshotStatus.message());
                proof {
                    assert(came == (Round::Refused, self.store.accounting));
                    assert(round_comes_to(
                        *encode,
                        before,
                        shown,
                        encoded,
                        Round::Refused,
                        self.store.accounting,
                    ));
                }
                return Err(message);
            },
            Ok(None) => {
                proof {
                    assert(came == (Round::Again, self.store.accounting));
                    assert(round_comes_to(
                        *encode,
                        before,
                        shown,
                        encoded,
                        Round::Again,
                        self.store.accounting,
                    ));
                }
                return Ok(None);
            },
            Ok(Some(_)) => {},
        }
        match self.hold_room(snapshot, bytes, room) {
            Err(_) => {
                let message = text::owned(RulesLimitSurface::SnapshotStatus.message());
                proof {
                    assert(came == (Round::Refused, self.store.accounting));
                    assert(round_comes_to(
                        *encode,
                        before,
                        shown,
                        encoded,
                        Round::Refused,
                        self.store.accounting,
                    ));
                }
                Err(message)
            },
            Ok(settled) => {
                if settled {
                    proof {
                        assert(came == (Round::Settled, self.store.accounting));
                        assert(round_comes_to(
                            *encode,
                            before,
                            shown,
                            encoded,
                            Round::Settled,
                            self.store.accounting,
                        ));
                    }
                    Ok(Some(encoded))
                } else {
                    proof {
                        assert(came == (Round::Again, self.store.accounting));
                        assert(round_comes_to(
                            *encode,
                            before,
                            shown,
                            encoded,
                            Round::Again,
                            self.store.accounting,
                        ));
                    }
                    Ok(None)
                }
            },
        }
    }
}

} // verus!
