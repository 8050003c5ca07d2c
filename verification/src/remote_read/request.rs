//! Remote-read requests as plain values, and the limits they are held to.

use vstd::prelude::*;

verus! {

/// A label matcher of a request; the kind is the number on the wire.
#[derive(Debug, PartialEq, Eq)]
pub struct LabelMatcher {
    pub kind: i32,
    pub name: String,
    pub value: String,
}

/// What the querying side says it will do with the samples.
#[derive(Debug, PartialEq, Eq)]
pub struct ReadHints {
    pub step_ms: i64,
    pub func: String,
    pub start_ms: i64,
    pub end_ms: i64,
    pub grouping: Vec<String>,
    pub by: bool,
    pub range_ms: i64,
}

/// One query of a request.
#[derive(Debug, PartialEq, Eq)]
pub struct Query {
    pub start_timestamp_ms: i64,
    pub end_timestamp_ms: i64,
    pub matchers: Vec<LabelMatcher>,
    pub hints: Option<ReadHints>,
}

/// A request: its queries, and the numbers of the response types that are accepted.
#[derive(Debug, PartialEq, Eq)]
pub struct ReadRequest {
    pub queries: Vec<Query>,
    pub accepted_response_types: Vec<i32>,
}

/// What a request and the answers to it are held to.
#[derive(Debug, Clone, Copy, PartialEq, Eq, Structural)]
pub struct RemoteReadLimits {
    /// The bytes of a decoded request body, and of a response before compression.
    pub max_body_bytes: usize,
    /// The matchers of one query.
    pub max_matchers: usize,
    /// The bytes of one matcher's name.
    pub max_matcher_name_bytes: usize,
    /// The bytes of one matcher's value.
    pub max_matcher_value_bytes: usize,
    /// The bytes of all names and values of one query.
    pub max_selection_matcher_bytes: usize,
    /// The bytes of a diagnostic in an answer.
    pub max_diagnostic_bytes: usize,
}

} // verus!
