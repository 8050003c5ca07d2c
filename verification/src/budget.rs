//! Why a query budget turned a query away.

use vstd::prelude::*;


verus! {

/// The limit of a query budget that a query ran into.
#[derive(Debug, PartialEq, Eq)]
pub enum QueryLimitReason {
    ConcurrentQueries,
    SharedMemoryBytes,
    PerQueryMemoryBytes,
    SamplesScanned,
    SamplesReturned,
    ReturnedBytes,
    /// Any other limit, by its stable name.
    Named(String),
}

impl QueryLimitReason {
    /// The stable name of the limit.
    pub open spec fn name_text(self) -> Seq<char> {
        match self {
            QueryLimitReason::ConcurrentQueries => "concurrent_queries"@,
            QueryLimitReason::SharedMemoryBytes => "shared_memory_bytes"@,
            QueryLimitReason::PerQueryMemoryBytes => "per_query_memory_bytes"@,
            QueryLimitReason::SamplesScanned => "samples_scanned"@,
            QueryLimitReason::SamplesReturned => "samples_returned"@,
            QueryLimitReason::ReturnedBytes => "returned_bytes"@,
            QueryLimitReason::Named(name) => name@,
        }
    }

    /// The stable name of the limit.
    pub fn as_str(&self) -> (name: &str)
        ensures
            name@ == self.name_text(),
    {
        match self {
            QueryLimitReason::ConcurrentQueries => "concurrent_queries",
            QueryLimitReason::SharedMemoryBytes => "shared_memory_bytes",
            QueryLimitReason::PerQueryMemoryBytes => "per_query_memory_bytes",
            QueryLimitReason::SamplesScanned => "samples_scanned",
            QueryLimitReason::SamplesReturned => "samples_returned",
            QueryLimitReason::ReturnedBytes => "returned_bytes",
            QueryLimitReason::Named(name) => name.as_str(),
        }
    }

    /// Whether the limit is shared by all queries, so that the same query may pass later.
    pub open spec fn shared(self) -> bool {
        self is ConcurrentQueries || self is SharedMemoryBytes
    }

    /// Whether the limit is shared by all queries, so that the same query may pass later.
    pub fn is_shared(&self) -> (answer: bool)
        ensures
            answer == self.shared(),
    {
        match self {
            QueryLimitReason::ConcurrentQueries => true,
            QueryLimitReason::SharedMemoryBytes => true,
            _ => false,
        }
    }
}

/// A limit, how much of it was used, and how much more was asked for.
#[derive(Debug, PartialEq, Eq)]
pub struct QueryLimitExceeded {
    pub reason: QueryLimitReason,
    pub limit: u64,
    pub current: u64,
    pub requested: u64,
}

/// Why a query budget turned a query away.
#[derive(Debug, PartialEq, Eq)]
pub enum QueryBudgetError {
    InvalidLimits(String),
    LimitExceeded(QueryLimitExceeded),
    Cancelled,
    DeadlineExceeded,
    Failed(String),
}

/// Whether the budget may stop the query, with this objection, when it is asked.
pub open spec fn may_stop<C: Fn() -> Result<(), QueryBudgetError>>(
    checkpoint: C,
    error: QueryBudgetError,
) -> bool {
    call_ensures(checkpoint, (), Err::<(), QueryBudgetError>(error))
}

/// Whether the budget never stops the query.
pub open spec fn never_stops<C: Fn() -> Result<(), QueryBudgetError>>(checkpoint: C) -> bool {
    forall|outcome: Result<(), QueryBudgetError>|
        call_ensures(checkpoint, (), outcome) ==> outcome is Ok
}

/// Whether the budget stops the query whenever it is asked, as that of a query which was cancelled
/// or whose time is over does.
pub open spec fn always_stops<C: Fn() -> Result<(), QueryBudgetError>>(checkpoint: C) -> bool {
    forall|outcome: Result<(), QueryBudgetError>|
        call_ensures(checkpoint, (), outcome) ==> outcome is Err
}

/// Whether the budget may let the query go on when it is asked.
pub open spec fn may_pass<C: Fn() -> Result<(), QueryBudgetError>>(checkpoint: C) -> bool {
    exists|outcome: Result<(), QueryBudgetError>|
        #[trigger] call_ensures(checkpoint, (), outcome) && outcome is Ok
}

/// A budget that always stops a query never lets it go on, and one that never lets it go on always
/// stops it.
pub proof fn lemma_stops_or_passes<C: Fn() -> Result<(), QueryBudgetError>>(checkpoint: C)
    ensures
        always_stops(checkpoint) <==> !may_pass(checkpoint),
{
}

/// Whether the budget may grant an amount.
pub open spec fn granted<R: FnOnce(u64) -> Result<(), QueryBudgetError>>(
    charge: R,
    amount: u64,
) -> bool {
    exists|outcome: Result<(), QueryBudgetError>|
        #[trigger] call_ensures(charge, (amount,), outcome) && outcome is Ok
}

/// Whether the budget may refuse an amount with this objection.
pub open spec fn refused<R: FnOnce(u64) -> Result<(), QueryBudgetError>>(
    charge: R,
    amount: u64,
    error: QueryBudgetError,
) -> bool {
    call_ensures(charge, (amount,), Err::<(), QueryBudgetError>(error))
}

/// Whether the budget grants every amount.
pub open spec fn always_grants<R: FnOnce(u64) -> Result<(), QueryBudgetError>>(charge: R) -> bool {
    forall|amount: u64, outcome: Result<(), QueryBudgetError>|
        call_ensures(charge, (amount,), outcome) ==> outcome is Ok
}

/// The refusal of an amount by a limit on the memory of a query that holds nothing yet.
pub open spec fn memory_exceeded(limit: u64, requested: u64) -> QueryBudgetError {
    QueryBudgetError::LimitExceeded(
        QueryLimitExceeded {
            reason: QueryLimitReason::PerQueryMemoryBytes,
            limit,
            current: 0,
            requested,
        },
    )
}

/// Whether the budget grants exactly the amounts up to a limit on the memory of a query that holds
/// nothing yet.
pub open spec fn bounds_memory<R: FnOnce(u64) -> Result<(), QueryBudgetError>>(
    charge: R,
    limit: u64,
) -> bool {
    forall|amount: u64, outcome: Result<(), QueryBudgetError>| #[trigger]
        call_ensures(charge, (amount,), outcome) ==> outcome == if amount <= limit {
            Ok::<(), QueryBudgetError>(())
        } else {
            Err(memory_exceeded(limit, amount))
        }
}

/// Whether the budget grants exactly the amounts up to a limit.
pub open spec fn keeps_memory<R: FnOnce(u64) -> Result<(), QueryBudgetError>>(
    charge: R,
    limit: u64,
) -> bool {
    forall|amount: u64, outcome: Result<(), QueryBudgetError>| #[trigger]
        call_ensures(charge, (amount,), outcome) ==> (outcome is Ok <==> amount <= limit)
}

} // verus!
