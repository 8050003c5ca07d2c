//! What goes wrong with a remote read, and how it is answered.

use vstd::prelude::*;

use crate::budget::QueryBudgetError;
use crate::remote_read::request::ReadRequest;
use crate::remote_read::request::RemoteReadLimits;
use crate::text;

verus! {

/// A failure of the storage.
#[derive(Debug, PartialEq, Eq)]
pub enum StorageError {
    InvalidTimeRange,
    MetricRequired,
    InvalidMetricName(String),
    InvalidLabel(String),
    InvalidConfiguration(String),
    StorageShuttingDown,
    StorageClosed,
    LifecycleTimeout,
    ChannelTimeout,
    QueryBudget(QueryBudgetError),
    UnsupportedOperation { operation: String, reason: String },
    Other(String),
}

/// Why a query of a remote read failed.
#[derive(Debug, PartialEq, Eq)]
pub enum RemoteReadQueryError {
    InvalidRequest(String),
    Budget(QueryBudgetError),
    Internal(String),
    Storage { context: &'static str, error: StorageError },
}

impl RemoteReadQueryError {
    /// A failure of the storage, with what was being done.
    pub fn storage(context: &'static str, error: StorageError) -> (failed: RemoteReadQueryError)
        ensures
            failed == (RemoteReadQueryError::Storage { context, error }),
    {
        RemoteReadQueryError::Storage { context, error }
    }

    /// Whether it says this of the request.
    pub open spec fn says_invalid(self, message: Seq<char>) -> bool {
        self matches RemoteReadQueryError::InvalidRequest(text) && text@ == message
    }

    /// Whether it says this of the server.
    pub open spec fn says_internal(self, message: Seq<char>) -> bool {
        self matches RemoteReadQueryError::Internal(text) && text@ == message
    }

    /// Whether the storage failed with this said of it.
    pub open spec fn says_other(self, context: Seq<char>, message: Seq<char>) -> bool {
        self matches RemoteReadQueryError::Storage { context: c, error: StorageError::Other(text) }
            && c@ == context && text@ == message
    }
}

/// Whether a refusal of memory is passed on like this: as it is, or with what was being done where
/// the budget itself failed.
pub open spec fn memory_refusal(
    error: QueryBudgetError,
    context: Seq<char>,
    passed_on: RemoteReadQueryError,
) -> bool {
    match error {
        QueryBudgetError::Failed(message) => passed_on.says_internal(
            context + ": "@ + message@,
        ),
        _ => passed_on == RemoteReadQueryError::Budget(error),
    }
}

/// Passes a refusal of memory on.
pub fn resize_remote_read_memory(error: QueryBudgetError, context: &'static str) -> (passed_on:
    RemoteReadQueryError)
    ensures
        memory_refusal(error, context@, passed_on),
{
    match error {
        QueryBudgetError::Failed(message) => RemoteReadQueryError::Internal(
            text::text3(context, ": ", message.as_str()),
        ),
        other => RemoteReadQueryError::Budget(other),
    }
}

/// Why a distributed read failed.
#[derive(Debug, PartialEq, Eq)]
pub enum ReadFanoutError {
    InvalidRequest { message: String },
    MergeLimitExceeded,
    ResourceLimitExceeded { retryable: bool },
    ConsistencyUnmet { strict: bool },
    QueryBudget { error: QueryBudgetError },
    /// Any other failure, and whether the same read may succeed later.
    Failed { retryable: bool },
}

impl ReadFanoutError {
    /// Whether it says this of the request.
    pub open spec fn says_invalid(self, said: Seq<char>) -> bool {
        self matches ReadFanoutError::InvalidRequest { message } && message@ == said
    }
}

/// An answer with a plain text: its status, its text, the stable code of the error, and after how
/// many seconds to try again.
#[derive(Debug, PartialEq, Eq)]
pub struct ErrorAnswer {
    pub status: u16,
    pub text: String,
    pub error_code: Option<String>,
    pub retry_after: Option<u64>,
}

/// An answer as a plain value.
#[verifier::ext_equal]
pub struct ErrorAnswerView {
    pub status: u16,
    pub text: Seq<char>,
    pub error_code: Option<Seq<char>>,
    pub retry_after: Option<u64>,
}

impl View for ErrorAnswer {
    type V = ErrorAnswerView;

    open spec fn view(&self) -> ErrorAnswerView {
        ErrorAnswerView {
            status: self.status,
            text: self.text@,
            error_code: text::opt_text(self.error_code),
            retry_after: self.retry_after,
        }
    }
}

/// An answer that is a status and a text alone.
pub open spec fn plain_answer(status: u16, text: Seq<char>) -> ErrorAnswerView {
    ErrorAnswerView { status, text, error_code: None, retry_after: None }
}

/// An answer that is a status and a text alone.
pub fn text_response(status: u16, text: &str) -> (answer: ErrorAnswer)
    ensures
        answer@ == plain_answer(status, text@),
{
    ErrorAnswer { status, text: text::owned(text), error_code: None, retry_after: None }
}

/// A diagnostic cut to the bytes that an answer may hold, between two characters.
pub fn bounded_remote_read_diagnostic(limits: &RemoteReadLimits, diagnostic: &str) -> (bounded:
    String)
    ensures
        bounded@ == text::clipped(diagnostic@, limits.max_diagnostic_bytes as nat),
{
    text::clip(diagnostic, limits.max_diagnostic_bytes)
}

/// The status, the code and whether to try again for a refusal by the query budget.
pub open spec fn budget_answer(
    limits: RemoteReadLimits,
    error: QueryBudgetError,
    described: Seq<char>,
) -> ErrorAnswerView {
    let text = text::clipped(described, limits.max_diagnostic_bytes as nat);
    match error {
        QueryBudgetError::InvalidLimits(_) => ErrorAnswerView {
            status: 400,
            text,
            error_code: Some("invalid_query_limits"@),
            retry_after: None,
        },
        QueryBudgetError::LimitExceeded(exceeded) => ErrorAnswerView {
            status: if exceeded.reason.shared() {
                429
            } else {
                413
            },
            text,
            error_code: Some("query_limit_"@ + exceeded.reason.name_text()),
            retry_after: if exceeded.reason.shared() {
                Some(1)
            } else {
                None
            },
        },
        QueryBudgetError::Cancelled => ErrorAnswerView {
            status: 503,
            text,
            error_code: Some("query_cancelled"@),
            retry_after: None,
        },
        QueryBudgetError::DeadlineExceeded => ErrorAnswerView {
            status: 503,
            text,
            error_code: Some("query_deadline_exceeded"@),
            retry_after: None,
        },
        QueryBudgetError::Failed(_) => plain_answer(500, "query failed"@),
    }
}

/// The answer to a refusal by the query budget, which describes it in its own words.
pub fn remote_read_query_budget_error_response(
    limits: &RemoteReadLimits,
    error: &QueryBudgetError,
    described: &str,
) -> (answer: ErrorAnswer)
    ensures
        answer@ == budget_answer(*limits, *error, described@),
{
    let text = bounded_remote_read_diagnostic(limits, described);
    match error {
        QueryBudgetError::InvalidLimits(_) => ErrorAnswer {
            status: 400,
            text,
            error_code: Some(text::owned("invalid_query_limits")),
            retry_after: None,
        },
        QueryBudgetError::LimitExceeded(exceeded) => {
            let shared = exceeded.reason.is_shared();
            ErrorAnswer {
                status: if shared {
                    429
                } else {
                    413
                },
                text,
                error_code: Some(text::text2("query_limit_", exceeded.reason.as_str())),
                retry_after: if shared {
                    Some(1)
                } else {
                    None
                },
            }
        },
        QueryBudgetError::Cancelled => ErrorAnswer {
            status: 503,
            text,
            error_code: Some(text::owned("query_cancelled")),
            retry_after: None,
        },
        QueryBudgetError::DeadlineExceeded => ErrorAnswer {
            status: 503,
            text,
            error_code: Some(text::owned("query_deadline_exceeded")),
            retry_after: None,
        },
        QueryBudgetError::Failed(_) => text_response(500, "query failed"),
    }
}

/// The status of an answer to a failure of the storage.
pub open spec fn storage_status(error: StorageError) -> u16 {
    match error {
        StorageError::InvalidTimeRange => 400,
        StorageError::MetricRequired => 400,
        StorageError::InvalidMetricName(_) => 400,
        StorageError::InvalidLabel(_) => 400,
        StorageError::InvalidConfiguration(_) => 400,
        StorageError::StorageShuttingDown => 503,
        StorageError::StorageClosed => 503,
        StorageError::LifecycleTimeout => 503,
        StorageError::ChannelTimeout => 503,
        _ => 500,
    }
}

/// The status of an answer to a failure of the storage.
pub fn remote_read_storage_error_status(error: &StorageError) -> (status: u16)
    ensures
        status == storage_status(*error),
{
    match error {
        StorageError::InvalidTimeRange => 400,
        StorageError::MetricRequired => 400,
        StorageError::InvalidMetricName(_) => 400,
        StorageError::InvalidLabel(_) => 400,
        StorageError::InvalidConfiguration(_) => 400,
        StorageError::StorageShuttingDown => 503,
        StorageError::StorageClosed => 503,
        StorageError::LifecycleTimeout => 503,
        StorageError::ChannelTimeout => 503,
        _ => 500,
    }
}

/// What a status says of the storage, without a word of what the storage itself said.
pub open spec fn storage_classification(status: u16) -> Seq<char> {
    if status == 400 {
        "invalid remote-read query"@
    } else if status == 503 {
        "remote-read storage unavailable"@
    } else {
        "remote-read storage failure"@
    }
}

/// The answer to a query that failed; the budget describes its refusal in its own words.
pub open spec fn query_answer(
    limits: RemoteReadLimits,
    error: RemoteReadQueryError,
    described: Seq<char>,
) -> ErrorAnswerView {
    let max = limits.max_diagnostic_bytes as nat;
    match error {
        RemoteReadQueryError::InvalidRequest(message) => plain_answer(
            400,
            text::clipped(message@, max),
        ),
        RemoteReadQueryError::Budget(error) => budget_answer(limits, error, described),
        RemoteReadQueryError::Internal(message) => plain_answer(500, text::clipped(message@, max)),
        RemoteReadQueryError::Storage { context, error } => match error {
            StorageError::QueryBudget(error) => budget_answer(limits, error, described),
            _ => plain_answer(
                storage_status(error),
                context@ + ": "@ + storage_classification(storage_status(error)),
            ),
        },
    }
}

/// The answer to a query that failed; the budget describes its refusal in its own words.
pub fn remote_read_query_error_response(
    limits: &RemoteReadLimits,
    error: &RemoteReadQueryError,
    described: &str,
) -> (answer: ErrorAnswer)
    ensures
        answer@ == query_answer(*limits, *error, described@),
{
    match error {
        RemoteReadQueryError::InvalidRequest(message) => text_response(
            400,
            bounded_remote_read_diagnostic(limits, message.as_str()).as_str(),
        ),
        RemoteReadQueryError::Budget(error) => remote_read_query_budget_error_response(
            limits,
            error,
            described,
        ),
        RemoteReadQueryError::Internal(message) => text_response(
            500,
            bounded_remote_read_diagnostic(limits, message.as_str()).as_str(),
        ),
        RemoteReadQueryError::Storage { context, error } => match error {
            StorageError::QueryBudget(error) => remote_read_query_budget_error_response(
                limits,
                error,
                described,
            ),
            other => {
                let status = remote_read_storage_error_status(other);
                let classification = if status == 400 {
                    "invalid remote-read query"
                } else if status == 503 {
                    "remote-read storage unavailable"
                } else {
                    "remote-read storage failure"
                };
                text_response(status, text::text3(context, ": ", classification).as_str())
            },
        },
    }
}

/// The answer to a distributed read that failed, without a word of what the cluster itself said.
pub open spec fn fanout_answer(
    limits: RemoteReadLimits,
    error: ReadFanoutError,
    described: Seq<char>,
) -> ErrorAnswerView {
    match error {
        ReadFanoutError::QueryBudget { error } => budget_answer(limits, error, described),
        ReadFanoutError::InvalidRequest { .. } => plain_answer(
            400,
            "invalid remote-read query"@,
        ),
        ReadFanoutError::MergeLimitExceeded => ErrorAnswerView {
            status: 413,
            text: "remote-read merge limit exceeded"@,
            error_code: Some("read_merge_limit_exceeded"@),
            retry_after: None,
        },
        ReadFanoutError::ResourceLimitExceeded { retryable } => if retryable {
            ErrorAnswerView {
                status: 429,
                text: "remote-read service is overloaded"@,
                error_code: Some("read_overloaded"@),
                retry_after: Some(1),
            }
        } else {
            ErrorAnswerView {
                status: 413,
                text: "remote-read resource limit exceeded"@,
                error_code: Some("read_resource_limit_exceeded"@),
                retry_after: None,
            }
        },
        ReadFanoutError::ConsistencyUnmet { strict } => if strict {
            ErrorAnswerView {
                status: 409,
                text: "strict remote-read consistency was not met"@,
                error_code: Some("strict_consistency_unmet"@),
                retry_after: None,
            }
        } else {
            ErrorAnswerView {
                status: 503,
                text: "remote-read consistency was not met"@,
                error_code: Some("read_consistency_unmet"@),
                retry_after: None,
            }
        },
        ReadFanoutError::Failed { retryable } => if retryable {
            plain_answer(503, "remote-read service is unavailable"@)
        } else {
            plain_answer(500, "remote-read failed"@)
        },
    }
}

/// The answer to a distributed read that failed; the budget describes its refusal in its own words.
pub fn remote_read_fanout_error_response(
    limits: &RemoteReadLimits,
    error: &ReadFanoutError,
    described: &str,
) -> (answer: ErrorAnswer)
    ensures
        answer@ == fanout_answer(*limits, *error, described@),
{
    match error {
        ReadFanoutError::QueryBudget { error } => remote_read_query_budget_error_response(
            limits,
            error,
            described,
        ),
        ReadFanoutError::InvalidRequest { .. } => text_response(400, "invalid remote-read query"),
        ReadFanoutError::MergeLimitExceeded => ErrorAnswer {
            status: 413,
            text: text::owned("remote-read merge limit exceeded"),
            error_code: Some(text::owned("read_merge_limit_exceeded")),
            retry_after: None,
        },
        ReadFanoutError::ResourceLimitExceeded { retryable } => if *retryable {
            ErrorAnswer {
                status: 429,
                text: text::owned("remote-read service is overloaded"),
                error_code: Some(text::owned("read_overloaded")),
                retry_after: Some(1),
            }
        } else {
            ErrorAnswer {
                status: 413,
                text: text::owned("remote-read resource limit exceeded"),
                error_code: Some(text::owned("read_resource_limit_exceeded")),
                retry_after: None,
            }
        },
        ReadFanoutError::ConsistencyUnmet { strict } => if *strict {
            ErrorAnswer {
                status: 409,
                text: text::owned("strict remote-read consistency was not met"),
                error_code: Some(text::owned("strict_consistency_unmet")),
                retry_after: None,
            }
        } else {
            ErrorAnswer {
                status: 503,
                text: text::owned("remote-read consistency was not met"),
                error_code: Some(text::owned("read_consistency_unmet")),
                retry_after: None,
            }
        },
        ReadFanoutError::Failed { retryable } => if *retryable {
            text_response(503, "remote-read service is unavailable")
        } else {
            text_response(500, "remote-read failed")
        },
    }
}

/// What is wrong with a response type that a request accepts, by its number.
pub open spec fn response_type_problem(kind: i32) -> Option<Seq<char>> {
    if kind == 0 {
        None
    } else if kind == 1 {
        Some("remote read response type StreamedXorChunks is not supported yet"@)
    } else {
        Some("unsupported remote read response type: "@ + text::signed_decimal(kind as int))
    }
}

/// What is wrong with the first response type of a list that is wrong.
pub open spec fn response_types_problem(kinds: Seq<i32>) -> Option<Seq<char>>
    decreases kinds.len(),
{
    if kinds.len() == 0 {
        None
    } else if response_type_problem(kinds[0]) is Some {
        response_type_problem(kinds[0])
    } else {
        response_types_problem(kinds.drop_first())
    }
}

/// Checks that a request accepts only responses made of samples.
pub fn validate_remote_read_request(request: &ReadRequest) -> (checked: Result<(), String>)
    ensures
        match response_types_problem(request.accepted_response_types@) {
            None => checked is Ok,
            Some(problem) => checked matches Err(message) && message@ == problem,
        },
{
    let kinds = &request.accepted_response_types;
    let mut i: usize = 0;
    assert(kinds@.skip(0) =~= kinds@);
    while i < kinds.len()
        invariant
            i <= kinds@.len(),
            kinds@ == request.accepted_response_types@,
            response_types_problem(kinds@.skip(i as int)) == response_types_problem(kinds@),
        decreases kinds@.len() - i,
    {
        let kind: i32 = kinds[i];
        proof {
            assert(kinds@.skip(i as int)[0] == kind);
            assert(kinds@.skip(i as int).drop_first() =~= kinds@.skip(i as int + 1));
        }
        if kind == 1 {
            return Err(
                text::owned("remote read response type StreamedXorChunks is not supported yet"),
            );
        }
        if kind != 0 {
            return Err(
                text::text2(
                    "unsupported remote read response type: ",
                    text::format_i64(kind as i64).as_str(),
                ),
            );
        }
        i = i + 1;
    }
    Ok(())
}

} // verus!
