//! The rules store: the groups, what is known of their evaluation, and the counters.

use vstd::prelude::*;

use crate::ordered::Copied;
use crate::rules::accounting;
use crate::rules::accounting::RulesLimitSurface;
use crate::rules::accounting::RulesStoreAccounting;
use crate::rules::limits::RulesStoreLimits;
use crate::rules::model;
use crate::rules::persist::written;
use crate::rules::replace::retained;
use crate::rules::types::PersistedRulesStoreState;
use crate::rules::validate;
use crate::sizes;
use crate::text;

verus! {

/// Why groups were not applied.
#[derive(Debug, PartialEq, Eq)]
pub enum RulesApplyError {
    Rejected(String),
    Persistence(String),
    Internal(String),
}

impl RulesApplyError {
    /// What is said of it.
    pub open spec fn message_text(self) -> Seq<char> {
        match self {
            RulesApplyError::Rejected(detail) => detail@,
            RulesApplyError::Persistence(source) => "rules state persistence failed: "@ + source@,
            RulesApplyError::Internal(detail) => detail@,
        }
    }

    /// What is said of it.
    pub fn message(&self) -> (message: String)
        ensures
            message@ == self.message_text(),
    {
        match self {
            RulesApplyError::Rejected(detail) => text::owned(detail.as_str()),
            RulesApplyError::Persistence(source) => text::text2(
                "rules state persistence failed: ",
                source.as_str(),
            ),
            RulesApplyError::Internal(detail) => text::owned(detail.as_str()),
        }
    }
}

/// The rules store: whether its state is written to disk, its limits, its counters and its state.
#[derive(Debug)]
pub struct RulesStore {
    pub durable: bool,
    pub limits: RulesStoreLimits,
    pub accounting: RulesStoreAccounting,
    pub state: PersistedRulesStoreState,
}

impl RulesStore {
    /// A store with a state that was loaded, and the counters of the loading; the limits are
    /// checked.
    pub fn open_with_limits(
        durable: bool,
        limits: RulesStoreLimits,
        loaded: PersistedRulesStoreState,
        durable_file_bytes: usize,
        startup_transient_bytes: usize,
        startup: RulesStoreAccounting,
    ) -> (store: Result<RulesStore, String>)
        ensures
            match limits.problem() {
                Some(problem) => store matches Err(message) && message@ == problem,
                None => store matches Ok(opened) && {
                    &&& opened.durable == durable
                    &&& opened.limits == limits
                    &&& opened.state == loaded
                    &&& exists|retained: usize|
                        retained >= sizes::sat_size(model::state_cost(loaded@) as int)
                            && opened.accounting == #[trigger] startup.published(
                            retained,
                            Some(durable_file_bytes),
                        ).observed(RulesLimitSurface::Startup, startup_transient_bytes)
                },
            },
    {
        let limits = match limits.validate() {
            Err(message) => {
                return Err(message);
            },
            Ok(limits) => limits,
        };
        let mut accounting = startup;
        let retained = model::modeled_rules_state_bytes(&loaded);
        accounting.publish_state(retained, Some(durable_file_bytes));
        accounting.observe_peak(RulesLimitSurface::Startup, startup_transient_bytes);
        proof {
            assert(accounting == startup.published(retained, Some(durable_file_bytes)).observed(
                RulesLimitSurface::Startup,
                startup_transient_bytes,
            ));
        }
        Ok(RulesStore { durable, limits, accounting, state: loaded })
    }
}

} // verus!
