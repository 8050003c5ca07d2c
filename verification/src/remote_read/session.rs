//! One remote-read request from its tenant to its answer: which step comes next, and how a step
//! that fails is answered.

use vstd::prelude::*;

use crate::budget::QueryBudgetError;
use crate::remote_read::errors;
use crate::remote_read::errors::ErrorAnswer;
use crate::remote_read::errors::ErrorAnswerView;
use crate::remote_read::errors::ReadFanoutError;
use crate::remote_read::errors::RemoteReadQueryError;
use crate::remote_read::request::ReadRequest;
use crate::remote_read::request::RemoteReadLimits;
use crate::text;

verus! {

/// The bytes kept reserved for the diagnostic of an answer.
pub const REMOTE_READ_RESPONSE_DIAGNOSTIC_ENVELOPE_BYTES: u64 = 4096;

/// A step of a request.
#[derive(Debug, Clone, Copy, PartialEq, Eq, Structural)]
pub enum ReadStep {
    /// Find out whose request it is.
    ResolveTenant,
    /// Check that the tenant may read.
    PrepareTenant,
    /// Begin an execution within the query budget.
    BeginExecution,
    /// Reserve bytes for the diagnostic of an answer.
    ReserveDiagnostics(u64),
    /// Decode the request.
    Decode,
    /// Ask the query budget whether to go on.
    Checkpoint,
    /// Hold the number of queries against the tenant's quota.
    EnforceQuota(usize),
    /// Admit the request for the tenant, as so many units.
    AdmitTenant(usize),
    /// Admit the request among all reads, as so many units.
    AdmitRead(usize),
    /// Find the nodes of the cluster to read from.
    ResolveFanout,
    /// Apply what the request asks of a distributed read.
    ApplyPolicies,
    /// Reserve bytes for the metadata of a distributed read.
    ReserveMetadata(u64),
    /// Open the response.
    OpenEncoder,
    /// Run a query, by its place, and append its result.
    RunQuery(usize),
    /// Compress the response.
    Compress,
    /// Nothing: the request was answered.
    Finished,
}

/// How a step came out.
#[derive(Debug)]
pub enum ReadEvent {
    /// The step succeeded.
    Passed,
    /// The request was decoded.
    Decoded(ReadRequest),
    /// The step answered the request itself.
    Answered(ErrorAnswer),
    /// The query budget refused, and described why.
    BudgetRefused { refusal: QueryBudgetError, described: String },
    /// The query failed; the budget described its part in it.
    QueryFailed { error: RemoteReadQueryError, described: String },
    /// The quota of the tenant is too small.
    QuotaExceeded { message: String },
    /// Too many reads are under way.
    Throttled { message: String, answer: ErrorAnswer },
    /// The nodes of the cluster are not known.
    TopologyUnavailable { message: String },
    /// What the request asks of a distributed read is wrong.
    PolicyRejected { message: String },
    /// The distributed query failed; the budget described its part in it.
    FanoutFailed { failure: ReadFanoutError, described: String },
    /// The task that ran the queries failed.
    TaskFailed { message: String },
}

/// What is to be recorded against the tenant of a request that was turned away.
#[derive(Debug, PartialEq, Eq)]
pub enum TenantRecord {
    Rejected { units: usize, message: String },
    Throttled { units: usize, message: String },
}

/// What comes next.
#[derive(Debug)]
pub enum ReadAction {
    /// Take a step.
    Do(ReadStep),
    /// Answer with an error, and record it against the tenant.
    Answer { answer: ErrorAnswer, record: Option<TenantRecord> },
    /// Answer with the compressed response, and count the queries. A distributed read is answered
    /// with the headers of its read metadata too.
    Respond { queries: usize, usage_units: usize, read_metadata: bool },
}

/// A request under way: the step it is at, whether it is for a cluster, and the request once it was
/// decoded.
#[derive(Debug)]
pub struct RemoteReadSession {
    pub step: ReadStep,
    pub distributed: bool,
    pub request: Option<ReadRequest>,
}

/// The units that a request counts: one for each query, and at least one.
pub open spec fn request_units(queries: nat) -> nat {
    if queries == 0 {
        1
    } else {
        queries
    }
}

/// Whether an event is that of a step which failed.
pub open spec fn fails(event: ReadEvent) -> bool {
    !(event is Passed) && !(event is Decoded)
}

/// The answer to a step which failed.
pub open spec fn failure_answer(limits: RemoteReadLimits, event: ReadEvent) -> ErrorAnswerView {
    match event {
        ReadEvent::Answered(answer) => answer@,
        ReadEvent::BudgetRefused { refusal, described } => errors::budget_answer(
            limits,
            refusal,
            described@,
        ),
        ReadEvent::QueryFailed { error, described } => errors::query_answer(
            limits,
            error,
            described@,
        ),
        ReadEvent::QuotaExceeded { message } => errors::plain_answer(413, message@),
        ReadEvent::Throttled { answer, .. } => answer@,
        ReadEvent::TopologyUnavailable { message } => errors::plain_answer(
            503,
            "cluster read fanout topology unavailable: "@ + message@,
        ),
        ReadEvent::PolicyRejected { message } => errors::plain_answer(400, message@),
        ReadEvent::FanoutFailed { failure, described } => errors::fanout_answer(
            limits,
            failure,
            described@,
        ),
        ReadEvent::TaskFailed { message } => errors::plain_answer(
            500,
            "read task failed: "@ + message@,
        ),
        _ => errors::plain_answer(500, ""@),
    }
}

/// Whether this is what is recorded for a step which failed.
pub open spec fn recorded(event: ReadEvent, units: nat, record: Option<TenantRecord>) -> bool {
    match event {
        ReadEvent::QuotaExceeded { message } => record matches Some(
            TenantRecord::Rejected { units: n, message: m },
        ) && n == units && m@ == message@,
        ReadEvent::Throttled { message, .. } => record matches Some(
            TenantRecord::Throttled { units: n, message: m },
        ) && n == units && m@ == message@,
        _ => record is None,
    }
}

impl RemoteReadSession {
    /// The number of queries of the request, once it was decoded.
    pub open spec fn queries(self) -> nat {
        match self.request {
            Some(request) => request.queries@.len(),
            None => 0,
        }
    }

    /// Whether the request was decoded by the steps that need it, and the query to run is one of
    /// its own.
    pub open spec fn well_formed(self) -> bool {
        match self.step {
            ReadStep::Checkpoint => self.request is Some,
            ReadStep::RunQuery(i) => i < self.queries(),
            _ => true,
        }
    }

    /// The step that follows the opening of the response or a query.
    pub open spec fn query_or_compress(self, i: nat) -> ReadStep {
        if i < self.queries() {
            ReadStep::RunQuery(i as usize)
        } else {
            ReadStep::Compress
        }
    }

    /// The step that follows one which succeeded, for a request without a fault.
    pub open spec fn following(self) -> ReadStep {
        match self.step {
            ReadStep::ResolveTenant => ReadStep::PrepareTenant,
            ReadStep::PrepareTenant => ReadStep::BeginExecution,
            ReadStep::BeginExecution => ReadStep::ReserveDiagnostics(
                REMOTE_READ_RESPONSE_DIAGNOSTIC_ENVELOPE_BYTES,
            ),
            ReadStep::ReserveDiagnostics(_) => ReadStep::Decode,
            ReadStep::Decode => ReadStep::Checkpoint,
            ReadStep::Checkpoint => ReadStep::EnforceQuota(self.queries() as usize),
            ReadStep::EnforceQuota(_) => ReadStep::AdmitTenant(
                request_units(self.queries()) as usize,
            ),
            ReadStep::AdmitTenant(_) => ReadStep::AdmitRead(request_units(self.queries()) as usize),
            ReadStep::AdmitRead(_) => if self.distributed {
                ReadStep::ResolveFanout
            } else {
                ReadStep::OpenEncoder
            },
            ReadStep::ResolveFanout => ReadStep::ApplyPolicies,
            ReadStep::ApplyPolicies => ReadStep::ReserveMetadata(0),
            ReadStep::ReserveMetadata(_) => ReadStep::OpenEncoder,
            ReadStep::OpenEncoder => self.query_or_compress(0),
            ReadStep::RunQuery(i) => self.query_or_compress(i as nat + 1),
            ReadStep::Compress => ReadStep::Finished,
            ReadStep::Finished => ReadStep::Finished,
        }
    }

    /// What is wrong with the request, at the step that checks it.
    pub open spec fn request_problem(self) -> Option<Seq<char>> {
        match (self.step, self.request) {
            (ReadStep::Checkpoint, Some(request)) => errors::response_types_problem(
                request.accepted_response_types@,
            ),
            _ => None,
        }
    }

    /// Whether an event can be that of the step.
    pub open spec fn fits(self, event: ReadEvent) -> bool {
        &&& !(self.step is Finished)
        &&& event is Decoded ==> self.step is Decode
        &&& event is Passed ==> !(self.step is Decode)
    }

    /// Whether this is what an event leads to, and what comes next.
    pub open spec fn leads_to(
        self,
        limits: RemoteReadLimits,
        event: ReadEvent,
        after: RemoteReadSession,
        action: ReadAction,
    ) -> bool {
        &&& after.distributed == self.distributed
        &&& match event {
            ReadEvent::Decoded(request) => after.request == Some(request),
            _ => after.request == self.request,
        }
        &&& if fails(event) {
            &&& after.step is Finished
            &&& action matches ReadAction::Answer { answer, record } && answer@ == failure_answer(
                limits,
                event,
            ) && recorded(event, request_units(self.queries()), record)
        } else if self.request_problem() is Some {
            &&& after.step is Finished
            &&& action matches ReadAction::Answer { answer, record } && answer@
                == errors::plain_answer(400, self.request_problem()->0) && record is None
        } else if self.step is Compress {
            &&& after.step is Finished
            &&& action matches ReadAction::Respond { queries, usage_units, read_metadata }
                && queries == self.queries() && usage_units == request_units(self.queries())
                && read_metadata == self.distributed
        } else {
            &&& after.step == self.following()
            &&& action == ReadAction::Do(self.following())
        }
    }

    /// A request at its first step.
    pub fn new(distributed: bool) -> (session: RemoteReadSession)
        ensures
            session.step is ResolveTenant,
            session.distributed == distributed,
            session.request is None,
            session.well_formed(),
    {
        RemoteReadSession { step: ReadStep::ResolveTenant, distributed, request: None }
    }

    fn query_count(&self) -> (count: usize)
        ensures
            count == self.queries(),
    {
        match &self.request {
            Some(request) => request.queries.len(),
            None => 0,
        }
    }

    fn units(&self) -> (units: usize)
        ensures
            units == request_units(self.queries()),
    {
        let count = self.query_count();
        if count == 0 {
            1
        } else {
            count
        }
    }

    fn next_step(&self) -> (next: ReadStep)
        requires
            self.well_formed(),
        ensures
            next == self.following(),
    {
        match self.step {
            ReadStep::ResolveTenant => ReadStep::PrepareTenant,
            ReadStep::PrepareTenant => ReadStep::BeginExecution,
            ReadStep::BeginExecution => ReadStep::ReserveDiagnostics(
                REMOTE_READ_RESPONSE_DIAGNOSTIC_ENVELOPE_BYTES,
            ),
            ReadStep::ReserveDiagnostics(_) => ReadStep::Decode,
            ReadStep::Decode => ReadStep::Checkpoint,
            ReadStep::Checkpoint => ReadStep::EnforceQuota(self.query_count()),
            ReadStep::EnforceQuota(_) => ReadStep::AdmitTenant(self.units()),
            ReadStep::AdmitTenant(_) => ReadStep::AdmitRead(self.units()),
            ReadStep::AdmitRead(_) => if self.distributed {
                ReadStep::ResolveFanout
            } else {
                ReadStep::OpenEncoder
            },
            ReadStep::ResolveFanout => ReadStep::ApplyPolicies,
            ReadStep::ApplyPolicies => ReadStep::ReserveMetadata(0),
            ReadStep::ReserveMetadata(_) => ReadStep::OpenEncoder,
            ReadStep::OpenEncoder => if self.query_count() > 0 {
                ReadStep::RunQuery(0)
            } else {
                ReadStep::Compress
            },
            ReadStep::RunQuery(i) => {
                let count = self.query_count();
                if i < count - 1 {
                    ReadStep::RunQuery(i + 1)
                } else {
                    ReadStep::Compress
                }
            },
            ReadStep::Compress => ReadStep::Finished,
            ReadStep::Finished => ReadStep::Finished,
        }
    }

    /// Takes the event of the step under way and says what comes next; an event that cannot be that
    /// of the step changes nothing.
    pub fn advance(&mut self, limits: &RemoteReadLimits, event: ReadEvent) -> (action: Option<
        ReadAction,
    >)
        requires
            old(self).well_formed(),
        ensures
            final(self).well_formed(),
            action is Some <==> old(self).fits(event),
            action is None ==> *final(self) == *old(self),
            action matches Some(next) ==> old(self).leads_to(*limits, event, *final(self), next),
    {
        if let ReadStep::Finished = self.step {
            return None;
        }
        let at_decode = match self.step {
            ReadStep::Decode => true,
            _ => false,
        };
        let units = self.units();
        let (answer, record) = match event {
            ReadEvent::Passed => {
                if at_decode {
                    return None;
                }
                if let ReadStep::Checkpoint = self.step {
                    if let Some(request) = &self.request {
                        if let Err(message) = errors::validate_remote_read_request(request) {
                            self.step = ReadStep::Finished;
                            return Some(
                                ReadAction::Answer {
                                    answer: errors::text_response(400, message.as_str()),
                                    record: None,
                                },
                            );
                        }
                    }
                }
                if let ReadStep::Compress = self.step {
                    self.step = ReadStep::Finished;
                    return Some(
                        ReadAction::Respond {
                            queries: self.query_count(),
                            usage_units: units,
                            read_metadata: self.distributed,
                        },
                    );
                }
                let next = self.next_step();
                self.step = next;
                return Some(ReadAction::Do(next));
            },
            ReadEvent::Decoded(request) => {
                if !at_decode {
                    return None;
                }
                self.request = Some(request);
                self.step = ReadStep::Checkpoint;
                return Some(ReadAction::Do(ReadStep::Checkpoint));
            },
            ReadEvent::Answered(answer) => (answer, None),
            ReadEvent::BudgetRefused { refusal, described } => (
                errors::remote_read_query_budget_error_response(
                    limits,
                    &refusal,
                    described.as_str(),
                ),
                None,
            ),
            ReadEvent::QueryFailed { error, described } => (
                errors::remote_read_query_error_response(limits, &error, described.as_str()),
                None,
            ),
            ReadEvent::QuotaExceeded { message } => (
                errors::text_response(413, message.as_str()),
                Some(TenantRecord::Rejected { units, message }),
            ),
            ReadEvent::Throttled { message, answer } => (
                answer,
                Some(TenantRecord::Throttled { units, message }),
            ),
            ReadEvent::TopologyUnavailable { message } => (
                errors::text_response(
                    503,
                    text::text2(
                        "cluster read fanout topology unavailable: ",
                        message.as_str(),
                    ).as_str(),
                ),
                None,
            ),
            ReadEvent::PolicyRejected { message } => (
                errors::text_response(400, message.as_str()),
                None,
            ),
            ReadEvent::FanoutFailed { failure, described } => (
                errors::remote_read_fanout_error_response(limits, &failure, described.as_str()),
                None,
            ),
            ReadEvent::TaskFailed { message } => (
                errors::text_response(
                    500,
                    text::text2("read task failed: ", message.as_str()).as_str(),
                ),
                None,
            ),
        };
        self.step = ReadStep::Finished;
        Some(ReadAction::Answer { answer, record })
    }
}

/// How far along a step is.
pub open spec fn progress(step: ReadStep, queries: nat) -> int {
    match step {
        ReadStep::ResolveTenant => 0,
        ReadStep::PrepareTenant => 1,
        ReadStep::BeginExecution => 2,
        ReadStep::ReserveDiagnostics(_) => 3,
        ReadStep::Decode => 4,
        ReadStep::Checkpoint => 5,
        ReadStep::EnforceQuota(_) => 6,
        ReadStep::AdmitTenant(_) => 7,
        ReadStep::AdmitRead(_) => 8,
        ReadStep::ResolveFanout => 9,
        ReadStep::ApplyPolicies => 10,
        ReadStep::ReserveMetadata(_) => 11,
        ReadStep::OpenEncoder => 12,
        ReadStep::RunQuery(i) => 13 + i,
        ReadStep::Compress => 13 + queries as int,
        ReadStep::Finished => 14 + queries as int,
    }
}

/// A request holds no more queries than memory does.
proof fn lemma_queries_bounded(session: RemoteReadSession)
    ensures
        session.queries() <= usize::MAX,
{
    if let Some(request) = session.request {
        assert(request.queries.len() == request.queries@.len());
    }
}

/// Every event that fits brings a request further along: no step is taken twice, so that each query
/// runs at most once and in its place.
pub proof fn lemma_always_further(
    limits: RemoteReadLimits,
    before: RemoteReadSession,
    event: ReadEvent,
    after: RemoteReadSession,
    action: ReadAction,
)
    requires
        before.well_formed(),
        before.fits(event),
        before.leads_to(limits, event, after, action),
    ensures
        progress(after.step, after.queries()) > progress(before.step, after.queries()),
        after.queries() == before.queries() || before.step is Decode,
{
    lemma_queries_bounded(before);
}

/// The compressed response is the answer only after the response was compressed, which comes only
/// after the last query, or right after opening the response of a request without queries.
pub proof fn lemma_response_needs_every_query(
    limits: RemoteReadLimits,
    before: RemoteReadSession,
    event: ReadEvent,
    after: RemoteReadSession,
    action: ReadAction,
)
    requires
        before.well_formed(),
        before.fits(event),
        before.leads_to(limits, event, after, action),
    ensures
        action is Respond ==> before.step is Compress && event is Passed,
        after.step is Compress ==> event is Passed && (before.step == ReadStep::RunQuery(
            (before.queries() - 1) as usize,
        ) || (before.step is OpenEncoder && before.queries() == 0)),
{
}

/// A request that was turned away stays answered: no event fits any more.
pub proof fn lemma_answered_once(
    limits: RemoteReadLimits,
    before: RemoteReadSession,
    event: ReadEvent,
    after: RemoteReadSession,
    action: ReadAction,
    later: ReadEvent,
)
    requires
        before.fits(event),
        before.leads_to(limits, event, after, action),
        action is Answer || action is Respond,
    ensures
        !after.fits(later),
{
}

} // verus!
