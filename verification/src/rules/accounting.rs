//! The finite limits of the rules store and the counters kept of them.

use vstd::prelude::*;

use crate::sizes;
use crate::text;

verus! {

/// What a limit of the rules store is on.
#[derive(Debug, Clone, Copy, PartialEq, Eq, Structural)]
pub enum RulesLimitSurface {
    Configuration,
    RetainedState,
    DurableFile,
    Startup,
    Replacement,
    RuntimeUpdate,
    SnapshotStatus,
    SnapshotFile,
}

impl RulesLimitSurface {
    /// What is said of something that is over the limit.
    pub open spec fn message_text(self) -> Seq<char> {
        match self {
            RulesLimitSurface::Configuration => "rules configuration exceeds a finite store limit"@,
            RulesLimitSurface::RetainedState => {
                "rules retained state exceeds its finite byte limit"@
            },
            RulesLimitSurface::DurableFile => "rules durable state exceeds its finite file limit"@,
            RulesLimitSurface::Startup => "rules startup state exceeds its finite transient limit"@,
            RulesLimitSurface::Replacement => {
                "rules replacement exceeds its finite transient limit"@
            },
            RulesLimitSurface::RuntimeUpdate => {
                "rules runtime update exceeds its finite transient limit"@
            },
            RulesLimitSurface::SnapshotStatus => {
                "rules snapshot/status exceeds its finite output limit"@
            },
            RulesLimitSurface::SnapshotFile => {
                "rules snapshot file exceeds its finite transient limit"@
            },
        }
    }

    /// What is said of something that is over the limit.
    pub fn message(self) -> (message: &'static str)
        ensures
            message@ == self.message_text(),
    {
        match self {
            RulesLimitSurface::Configuration => "rules configuration exceeds a finite store limit",
            RulesLimitSurface::RetainedState => "rules retained state exceeds its finite byte limit",
            RulesLimitSurface::DurableFile => "rules durable state exceeds its finite file limit",
            RulesLimitSurface::Startup => "rules startup state exceeds its finite transient limit",
            RulesLimitSurface::Replacement => "rules replacement exceeds its finite transient limit",
            RulesLimitSurface::RuntimeUpdate => {
                "rules runtime update exceeds its finite transient limit"
            },
            RulesLimitSurface::SnapshotStatus => {
                "rules snapshot/status exceeds its finite output limit"
            },
            RulesLimitSurface::SnapshotFile => {
                "rules snapshot file exceeds its finite transient limit"
            },
        }
    }
}

/// Why the rules store turned something away.
#[derive(Debug, PartialEq, Eq)]
pub enum RulesStoreError {
    Limit(RulesLimitSurface),
    Invalid(&'static str),
    Persistence(String),
    Internal(&'static str),
}

impl RulesStoreError {
    /// What is said of it; what the disk said is kept back.
    pub open spec fn message_text(self) -> Seq<char> {
        match self {
            RulesStoreError::Limit(surface) => surface.message_text(),
            RulesStoreError::Invalid(message) => message@,
            RulesStoreError::Persistence(_) => "rules state persistence failed"@,
            RulesStoreError::Internal(message) => message@,
        }
    }

    /// What is said of it; what the disk said is kept back.
    pub fn message(&self) -> (message: String)
        ensures
            message@ == self.message_text(),
    {
        match self {
            RulesStoreError::Limit(surface) => text::owned(surface.message()),
            RulesStoreError::Invalid(message) => text::owned(message),
            RulesStoreError::Persistence(_) => text::owned("rules state persistence failed"),
            RulesStoreError::Internal(message) => text::owned(message),
        }
    }
}

/// Why the rules store turned something away, as a plain value.
pub enum StoreProblem {
    Limit(RulesLimitSurface),
    Invalid(Seq<char>),
}

/// Whether an error is this problem.
pub open spec fn is_problem(error: RulesStoreError, problem: StoreProblem) -> bool {
    match problem {
        StoreProblem::Limit(surface) => error == RulesStoreError::Limit(surface),
        StoreProblem::Invalid(message) => error matches RulesStoreError::Invalid(text) && text@
            == message,
    }
}

/// Whether a check came out as stated.
pub open spec fn checked_as(
    found: Result<(), RulesStoreError>,
    stated: Option<StoreProblem>,
) -> bool {
    match stated {
        None => found is Ok,
        Some(problem) => found matches Err(error) && is_problem(error, problem),
    }
}

/// The counters of the rules store.
#[derive(Debug, Clone, Copy, PartialEq, Eq, Structural)]
pub struct RulesStoreAccounting {
    pub retained_state_bytes: u64,
    pub peak_retained_state_bytes: u64,
    pub durable_file_bytes: u64,
    pub peak_startup_transient_bytes: u64,
    pub peak_replacement_transient_bytes: u64,
    pub peak_runtime_update_transient_bytes: u64,
    pub peak_snapshot_status_bytes: u64,
    pub peak_snapshot_file_bytes: u64,
    pub limit_rejections_total: u64,
    pub startup_rejections_total: u64,
    pub replacement_rejections_total: u64,
    pub runtime_update_rejections_total: u64,
    pub snapshot_rejections_total: u64,
    pub persistence_failures_total: u64,
}

/// The larger of two counts.
pub open spec fn max64(a: u64, b: u64) -> u64 {
    if a >= b {
        a
    } else {
        b
    }
}

impl RulesStoreAccounting {
    /// Counters that have counted nothing.
    pub open spec fn zero() -> RulesStoreAccounting {
        RulesStoreAccounting {
            retained_state_bytes: 0,
            peak_retained_state_bytes: 0,
            durable_file_bytes: 0,
            peak_startup_transient_bytes: 0,
            peak_replacement_transient_bytes: 0,
            peak_runtime_update_transient_bytes: 0,
            peak_snapshot_status_bytes: 0,
            peak_snapshot_file_bytes: 0,
            limit_rejections_total: 0,
            startup_rejections_total: 0,
            replacement_rejections_total: 0,
            runtime_update_rejections_total: 0,
            snapshot_rejections_total: 0,
            persistence_failures_total: 0,
        }
    }

    /// Counters that have counted nothing.
    pub fn new() -> (counters: RulesStoreAccounting)
        ensures
            counters == RulesStoreAccounting::zero(),
    {
        RulesStoreAccounting {
            retained_state_bytes: 0,
            peak_retained_state_bytes: 0,
            durable_file_bytes: 0,
            peak_startup_transient_bytes: 0,
            peak_replacement_transient_bytes: 0,
            peak_runtime_update_transient_bytes: 0,
            peak_snapshot_status_bytes: 0,
            peak_snapshot_file_bytes: 0,
            limit_rejections_total: 0,
            startup_rejections_total: 0,
            replacement_rejections_total: 0,
            runtime_update_rejections_total: 0,
            snapshot_rejections_total: 0,
            persistence_failures_total: 0,
        }
    }

    /// The counters with a new state published.
    pub open spec fn published(self, retained: usize, durable: Option<usize>) -> RulesStoreAccounting {
        RulesStoreAccounting {
            retained_state_bytes: retained as u64,
            peak_retained_state_bytes: max64(self.peak_retained_state_bytes, retained as u64),
            durable_file_bytes: match durable {
                Some(bytes) => bytes as u64,
                None => self.durable_file_bytes,
            },
            ..self
        }
    }

    /// Publishes a new state.
    pub fn publish_state(&mut self, retained_state_bytes: usize, durable_file_bytes: Option<usize>)
        ensures
            *final(self) == old(self).published(retained_state_bytes, durable_file_bytes),
    {
        self.retained_state_bytes = retained_state_bytes as u64;
        self.peak_retained_state_bytes =
        sizes::max64(self.peak_retained_state_bytes, retained_state_bytes as u64);
        if let Some(bytes) = durable_file_bytes {
            self.durable_file_bytes = bytes as u64;
        }
    }

    /// The counters after a number of bytes was seen on a surface.
    pub open spec fn observed(self, surface: RulesLimitSurface, bytes: usize) -> RulesStoreAccounting {
        match surface {
            RulesLimitSurface::Startup => RulesStoreAccounting {
                peak_startup_transient_bytes: max64(
                    self.peak_startup_transient_bytes,
                    bytes as u64,
                ),
                ..self
            },
            RulesLimitSurface::Replacement => RulesStoreAccounting {
                peak_replacement_transient_bytes: max64(
                    self.peak_replacement_transient_bytes,
                    bytes as u64,
                ),
                ..self
            },
            RulesLimitSurface::RuntimeUpdate => RulesStoreAccounting {
                peak_runtime_update_transient_bytes: max64(
                    self.peak_runtime_update_transient_bytes,
                    bytes as u64,
                ),
                ..self
            },
            RulesLimitSurface::SnapshotStatus => RulesStoreAccounting {
                peak_snapshot_status_bytes: max64(self.peak_snapshot_status_bytes, bytes as u64),
                ..self
            },
            RulesLimitSurface::SnapshotFile => RulesStoreAccounting {
                peak_snapshot_file_bytes: max64(self.peak_snapshot_file_bytes, bytes as u64),
                ..self
            },
            _ => self,
        }
    }

    /// Sees a number of bytes on a surface.
    pub fn observe_peak(&mut self, surface: RulesLimitSurface, bytes: usize)
        ensures
            *final(self) == old(self).observed(surface, bytes),
    {
        let bytes = bytes as u64;
        match surface {
            RulesLimitSurface::Startup => {
                self.peak_startup_transient_bytes =
                sizes::max64(self.peak_startup_transient_bytes, bytes);
            },
            RulesLimitSurface::Replacement => {
                self.peak_replacement_transient_bytes =
                sizes::max64(self.peak_replacement_transient_bytes, bytes);
            },
            RulesLimitSurface::RuntimeUpdate => {
                self.peak_runtime_update_transient_bytes =
                sizes::max64(self.peak_runtime_update_transient_bytes, bytes);
            },
            RulesLimitSurface::SnapshotStatus => {
                self.peak_snapshot_status_bytes =
                sizes::max64(self.peak_snapshot_status_bytes, bytes);
            },
            RulesLimitSurface::SnapshotFile => {
                self.peak_snapshot_file_bytes = sizes::max64(self.peak_snapshot_file_bytes, bytes);
            },
            _ => {},
        }
    }

    /// The counters after something was turned away on a surface.
    pub open spec fn rejected(self, surface: RulesLimitSurface) -> RulesStoreAccounting {
        let counted = RulesStoreAccounting {
            limit_rejections_total: sizes::sat64(self.limit_rejections_total + 1),
            ..self
        };
        match surface {
            RulesLimitSurface::Startup => RulesStoreAccounting {
                startup_rejections_total: sizes::sat64(self.startup_rejections_total + 1),
                ..counted
            },
            RulesLimitSurface::RuntimeUpdate => RulesStoreAccounting {
                runtime_update_rejections_total: sizes::sat64(
                    self.runtime_update_rejections_total + 1,
                ),
                ..counted
            },
            RulesLimitSurface::SnapshotStatus => RulesStoreAccounting {
                snapshot_rejections_total: sizes::sat64(self.snapshot_rejections_total + 1),
                ..counted
            },
            RulesLimitSurface::SnapshotFile => RulesStoreAccounting {
                snapshot_rejections_total: sizes::sat64(self.snapshot_rejections_total + 1),
                ..counted
            },
            _ => RulesStoreAccounting {
                replacement_rejections_total: sizes::sat64(self.replacement_rejections_total + 1),
                ..counted
            },
        }
    }

    /// Counts something that was turned away on a surface.
    pub fn reject(&mut self, surface: RulesLimitSurface)
        ensures
            *final(self) == old(self).rejected(surface),
    {
        self.limit_rejections_total = self.limit_rejections_total.saturating_add(1);
        match surface {
            RulesLimitSurface::Startup => {
                self.startup_rejections_total = self.startup_rejections_total.saturating_add(1);
            },
            RulesLimitSurface::RuntimeUpdate => {
                self.runtime_update_rejections_total =
                self.runtime_update_rejections_total.saturating_add(1);
            },
            RulesLimitSurface::SnapshotStatus => {
                self.snapshot_rejections_total = self.snapshot_rejections_total.saturating_add(1);
            },
            RulesLimitSurface::SnapshotFile => {
                self.snapshot_rejections_total = self.snapshot_rejections_total.saturating_add(1);
            },
            _ => {
                self.replacement_rejections_total =
                self.replacement_rejections_total.saturating_add(1);
            },
        }
    }

    /// The counters after a write failed.
    pub open spec fn write_failed(self) -> RulesStoreAccounting {
        RulesStoreAccounting {
            persistence_failures_total: sizes::sat64(self.persistence_failures_total + 1),
            ..self
        }
    }

    /// Counts a write that failed.
    pub fn persistence_failure(&mut self)
        ensures
            *final(self) == old(self).write_failed(),
    {
        self.persistence_failures_total = self.persistence_failures_total.saturating_add(1);
    }

    /// Holds a number of bytes, seen by an operation, against a limit.
    pub fn enforce_limit_for_operation(
        &mut self,
        limit_surface: RulesLimitSurface,
        operation_surface: RulesLimitSurface,
        observed: usize,
        limit: usize,
    ) -> (checked: Result<(), RulesStoreError>)
        ensures
            checked_as(
                checked,
                if observed > limit {
                    Some(StoreProblem::Limit(limit_surface))
                } else {
                    None
                },
            ),
            *final(self) == if observed > limit {
                old(self).observed(operation_surface, observed).rejected(operation_surface)
            } else {
                old(self).observed(operation_surface, observed)
            },
    {
        self.observe_peak(operation_surface, observed);
        if observed > limit {
            self.reject(operation_surface);
            return Err(RulesStoreError::Limit(limit_surface));
        }
        Ok(())
    }

    /// Holds a number of bytes against a limit.
    pub fn enforce_limit(&mut self, surface: RulesLimitSurface, observed: usize, limit: usize) -> (checked:
        Result<(), RulesStoreError>)
        ensures
            checked_as(
                checked,
                if observed > limit {
                    Some(StoreProblem::Limit(surface))
                } else {
                    None
                },
            ),
            *final(self) == if observed > limit {
                old(self).observed(surface, observed).rejected(surface)
            } else {
                old(self).observed(surface, observed)
            },
    {
        self.enforce_limit_for_operation(surface, surface, observed, limit)
    }

    /// Whether no peak and no count is lower than before.
    pub open spec fn at_least(self, before: RulesStoreAccounting) -> bool {
        &&& self.peak_retained_state_bytes >= before.peak_retained_state_bytes
        &&& self.peak_startup_transient_bytes >= before.peak_startup_transient_bytes
        &&& self.peak_replacement_transient_bytes >= before.peak_replacement_transient_bytes
        &&& self.peak_runtime_update_transient_bytes >= before.peak_runtime_update_transient_bytes
        &&& self.peak_snapshot_status_bytes >= before.peak_snapshot_status_bytes
        &&& self.peak_snapshot_file_bytes >= before.peak_snapshot_file_bytes
        &&& self.limit_rejections_total >= before.limit_rejections_total
        &&& self.startup_rejections_total >= before.startup_rejections_total
        &&& self.replacement_rejections_total >= before.replacement_rejections_total
        &&& self.runtime_update_rejections_total >= before.runtime_update_rejections_total
        &&& self.snapshot_rejections_total >= before.snapshot_rejections_total
        &&& self.persistence_failures_total >= before.persistence_failures_total
    }

    /// Whether only peaks differ from before, and none is lower.
    pub open spec fn only_peaks_rose(self, before: RulesStoreAccounting) -> bool {
        &&& self.at_least(before)
        &&& self == (RulesStoreAccounting {
            peak_startup_transient_bytes: self.peak_startup_transient_bytes,
            peak_replacement_transient_bytes: self.peak_replacement_transient_bytes,
            peak_runtime_update_transient_bytes: self.peak_runtime_update_transient_bytes,
            peak_snapshot_status_bytes: self.peak_snapshot_status_bytes,
            peak_snapshot_file_bytes: self.peak_snapshot_file_bytes,
            ..before
        })
    }

    /// Whether one rejection on a surface was counted, and besides that only peaks rose.
    pub open spec fn rejected_once(
        self,
        before: RulesStoreAccounting,
        surface: RulesLimitSurface,
    ) -> bool {
        self.only_peaks_rose(before.rejected(surface))
    }
}

/// The counters while numbers of bytes are held against limits one after the other, and the surface
/// of the limit that was exceeded, if one was; nothing is held after that.
#[verifier::ext_equal]
pub struct Held {
    pub counters: RulesStoreAccounting,
    pub over: Option<RulesLimitSurface>,
}

impl Held {
    /// Nothing held yet.
    pub open spec fn start(counters: RulesStoreAccounting) -> Held {
        Held { counters, over: None }
    }

    /// One more number of bytes held against a limit, where it is counted on one surface and spoken
    /// of as another.
    pub open spec fn and(
        self,
        said: RulesLimitSurface,
        counted: RulesLimitSurface,
        bytes: usize,
        limit: usize,
    ) -> Held {
        if self.over is Some {
            self
        } else if bytes > limit {
            Held {
                counters: self.counters.observed(counted, bytes).rejected(counted),
                over: Some(said),
            }
        } else {
            Held { counters: self.counters.observed(counted, bytes), over: None }
        }
    }

    /// One more number of bytes held against a limit of a surface.
    pub open spec fn then_on(self, surface: RulesLimitSurface, bytes: usize, limit: usize) -> Held {
        self.and(surface, surface, bytes, limit)
    }
}

} // verus!
