//! Bounding what decoding a request will allocate, from its bytes alone and before it is decoded.

use vstd::layout;
use vstd::prelude::*;
use vstd::slice::slice_subrange;
use vstd::utf8::valid_utf8;

use crate::remote_read::model;
use crate::remote_read::request::LabelMatcher;
use crate::remote_read::request::Query;
use crate::remote_read::request::RemoteReadLimits;
use crate::remote_read::wire;
use crate::remote_read::wire::Field;
use crate::sizes;
use crate::text;

verus! {

/// How the matchers of a query are larger than they may be.
#[derive(Debug, Clone, Copy, PartialEq, Eq, Structural)]
pub enum RemoteReadMatcherShapeError {
    TooManyMatchers { query_index: usize, actual: usize },
    NameTooLong { query_index: usize, matcher_index: usize, actual: usize },
    ValueTooLong { query_index: usize, matcher_index: usize, actual: usize },
    TotalTooLong { query_index: usize, actual: usize },
}

impl RemoteReadMatcherShapeError {
    /// What is said of it.
    pub open spec fn message_text(self, limits: RemoteReadLimits) -> Seq<char> {
        match self {
            RemoteReadMatcherShapeError::TooManyMatchers { query_index, actual } => {
                "remote-read query index "@ + text::decimal(query_index as nat) + " has "@
                    + text::decimal(actual as nat) + " matchers, exceeding the hard limit "@
                    + text::decimal(limits.max_matchers as nat)
            },
            RemoteReadMatcherShapeError::NameTooLong { query_index, matcher_index, actual } => {
                "remote-read query index "@ + text::decimal(query_index as nat)
                    + " matcher index "@ + text::decimal(matcher_index as nat) + " has a "@
                    + text::decimal(actual as nat) + "-byte name, exceeding the hard limit "@
                    + text::decimal(limits.max_matcher_name_bytes as nat)
            },
            RemoteReadMatcherShapeError::ValueTooLong { query_index, matcher_index, actual } => {
                "remote-read query index "@ + text::decimal(query_index as nat)
                    + " matcher index "@ + text::decimal(matcher_index as nat) + " has a "@
                    + text::decimal(actual as nat) + "-byte value, exceeding the hard limit "@
                    + text::decimal(limits.max_matcher_value_bytes as nat)
            },
            RemoteReadMatcherShapeError::TotalTooLong { query_index, actual } => {
                "remote-read query index "@ + text::decimal(query_index as nat)
                    + " matcher names and values total "@ + text::decimal(actual as nat)
                    + " bytes, exceeding the hard limit "@ + text::decimal(
                    limits.max_selection_matcher_bytes as nat,
                )
            },
        }
    }

    /// What is said of it.
    pub fn message(&self, limits: &RemoteReadLimits) -> (message: String)
        ensures
            message@ == self.message_text(*limits),
    {
        match self {
            RemoteReadMatcherShapeError::TooManyMatchers { query_index, actual } => {
                let head = text::text4(
                    "remote-read query index ",
                    text::format_usize(*query_index).as_str(),
                    " has ",
                    text::format_usize(*actual).as_str(),
                );
                text::text3(
                    head.as_str(),
                    " matchers, exceeding the hard limit ",
                    text::format_usize(limits.max_matchers).as_str(),
                )
            },
            RemoteReadMatcherShapeError::NameTooLong { query_index, matcher_index, actual } => {
                let head = text::text4(
                    "remote-read query index ",
                    text::format_usize(*query_index).as_str(),
                    " matcher index ",
                    text::format_usize(*matcher_index).as_str(),
                );
                text::text5(
                    head.as_str(),
                    " has a ",
                    text::format_usize(*actual).as_str(),
                    "-byte name, exceeding the hard limit ",
                    text::format_usize(limits.max_matcher_name_bytes).as_str(),
                )
            },
            RemoteReadMatcherShapeError::ValueTooLong { query_index, matcher_index, actual } => {
                let head = text::text4(
                    "remote-read query index ",
                    text::format_usize(*query_index).as_str(),
                    " matcher index ",
                    text::format_usize(*matcher_index).as_str(),
                );
                text::text5(
                    head.as_str(),
                    " has a ",
                    text::format_usize(*actual).as_str(),
                    "-byte value, exceeding the hard limit ",
                    text::format_usize(limits.max_matcher_value_bytes).as_str(),
                )
            },
            RemoteReadMatcherShapeError::TotalTooLong { query_index, actual } => {
                let head = text::text4(
                    "remote-read query index ",
                    text::format_usize(*query_index).as_str(),
                    " matcher names and values total ",
                    text::format_usize(*actual).as_str(),
                );
                text::text3(
                    head.as_str(),
                    " bytes, exceeding the hard limit ",
                    text::format_usize(limits.max_selection_matcher_bytes).as_str(),
                )
            },
        }
    }
}

/// Why the bytes of a request are turned away before they are decoded.
#[derive(Debug, PartialEq, Eq)]
pub enum RemoteReadDecodeScanError {
    Malformed(String),
    MatcherShape(RemoteReadMatcherShapeError),
}

/// Why the bytes of a request are turned away before they are decoded.
pub enum ScanProblem {
    Malformed(Seq<char>),
    MatcherShape(RemoteReadMatcherShapeError),
}

impl View for RemoteReadDecodeScanError {
    type V = ScanProblem;

    open spec fn view(&self) -> ScanProblem {
        match self {
            RemoteReadDecodeScanError::Malformed(message) => ScanProblem::Malformed(message@),
            RemoteReadDecodeScanError::MatcherShape(error) => ScanProblem::MatcherShape(*error),
        }
    }
}

/// Whether a scan came out as stated.
pub open spec fn scanned<T>(
    found: Result<T, RemoteReadDecodeScanError>,
    stated: Result<T, ScanProblem>,
) -> bool {
    match stated {
        Ok(value) => found == Ok::<T, RemoteReadDecodeScanError>(value),
        Err(problem) => found matches Err(error) && error@ == problem,
    }
}

/// Calls `core::str::from_utf8`, which succeeds on the bytes that are valid UTF-8 and on no others.
#[verifier::external_body]
fn is_utf8(bytes: &[u8]) -> (valid: bool)
    ensures
        valid == valid_utf8(bytes@),
{
    core::str::from_utf8(bytes).is_ok()
}

/// What one field of a matcher adds: its bytes to the heap, and its length to the query's total.
pub open spec fn matcher_step(
    limits: RemoteReadLimits,
    query_index: usize,
    matcher_index: usize,
    state: (u64, usize),
    field: Field,
) -> Result<(u64, usize), ScanProblem> {
    let (heap, total) = state;
    let len = field.payload.len();
    let sum = sizes::sat_size(total + len);
    if !((field.number == 2 || field.number == 3) && field.wire_type == 2) {
        Ok(state)
    } else if field.number == 2 && len > limits.max_matcher_name_bytes {
        Err(
            ScanProblem::MatcherShape(
                RemoteReadMatcherShapeError::NameTooLong {
                    query_index,
                    matcher_index,
                    actual: len as usize,
                },
            ),
        )
    } else if field.number == 3 && len > limits.max_matcher_value_bytes {
        Err(
            ScanProblem::MatcherShape(
                RemoteReadMatcherShapeError::ValueTooLong {
                    query_index,
                    matcher_index,
                    actual: len as usize,
                },
            ),
        )
    } else if sum > limits.max_selection_matcher_bytes {
        Err(
            ScanProblem::MatcherShape(
                RemoteReadMatcherShapeError::TotalTooLong { query_index, actual: sum },
            ),
        )
    } else if !valid_utf8(field.payload) {
        Err(ScanProblem::Malformed("protobuf matcher string is not valid UTF-8"@))
    } else {
        Ok((sizes::sat64(heap + model::text_bytes(len)), sum))
    }
}

/// What the fields of a matcher add, the first that is wrong ending it.
pub open spec fn matcher_rest(
    limits: RemoteReadLimits,
    query_index: usize,
    matcher_index: usize,
    state: (u64, usize),
    fields: (Seq<Field>, Option<Seq<char>>),
) -> Result<(u64, usize), ScanProblem>
    decreases fields.0.len(),
{
    if fields.0.len() == 0 {
        match fields.1 {
            Some(message) => Err(ScanProblem::Malformed(message)),
            None => Ok(state),
        }
    } else {
        match matcher_step(limits, query_index, matcher_index, state, fields.0[0]) {
            Err(problem) => Err(problem),
            Ok(next) => matcher_rest(
                limits,
                query_index,
                matcher_index,
                next,
                (fields.0.drop_first(), fields.1),
            ),
        }
    }
}

/// The heap bytes of a matcher, and the query's total with its name and value.
pub open spec fn matcher_scan(
    limits: RemoteReadLimits,
    bytes: Seq<u8>,
    query_index: usize,
    matcher_index: usize,
    total: usize,
) -> Result<(u64, usize), ScanProblem> {
    matcher_rest(limits, query_index, matcher_index, (0, total), wire::fields_of(bytes))
}

/// Scans a matcher.
pub fn scan_label_matcher_heap_bytes(
    limits: &RemoteReadLimits,
    bytes: &[u8],
    query_index: usize,
    matcher_index: usize,
    matcher_bytes: usize,
) -> (scan: Result<(u64, usize), RemoteReadDecodeScanError>)
    ensures
        scanned(scan, matcher_scan(*limits, bytes@, query_index, matcher_index, matcher_bytes)),
{
    let mut cursor: usize = 0;
    let mut heap: u64 = 0;
    let mut total: usize = matcher_bytes;
    while cursor < bytes.len()
        invariant
            cursor <= bytes@.len(),
            matcher_rest(
                *limits,
                query_index,
                matcher_index,
                (heap, total),
                wire::fields_from(bytes@, cursor as int),
            ) == matcher_scan(*limits, bytes@, query_index, matcher_index, matcher_bytes),
        decreases bytes@.len() - cursor,
    {
        let ghost rest = wire::fields_from(bytes@, cursor as int);
        let place = match wire::read_field(bytes, cursor) {
            Err(message) => {
                return Err(RemoteReadDecodeScanError::Malformed(message));
            },
            Ok(place) => place,
        };
        proof {
            assert(rest.0.drop_first() =~= wire::fields_from(bytes@, place.end as int).0);
            assert(rest.0[0] == place.field(bytes@));
        }
        if (place.number == 2 || place.number == 3) && place.wire_type == 2 {
            let value = slice_subrange(bytes, place.start, place.end);
            let len = value.len();
            if place.number == 2 && len > limits.max_matcher_name_bytes {
                return Err(
                    RemoteReadDecodeScanError::MatcherShape(
                        RemoteReadMatcherShapeError::NameTooLong {
                            query_index,
                            matcher_index,
                            actual: len,
                        },
                    ),
                );
            }
            if place.number == 3 && len > limits.max_matcher_value_bytes {
                return Err(
                    RemoteReadDecodeScanError::MatcherShape(
                        RemoteReadMatcherShapeError::ValueTooLong {
                            query_index,
                            matcher_index,
                            actual: len,
                        },
                    ),
                );
            }
            total = total.saturating_add(len);
            if total > limits.max_selection_matcher_bytes {
                return Err(
                    RemoteReadDecodeScanError::MatcherShape(
                        RemoteReadMatcherShapeError::TotalTooLong { query_index, actual: total },
                    ),
                );
            }
            if !is_utf8(value) {
                return Err(
                    RemoteReadDecodeScanError::Malformed(
                        text::owned("protobuf matcher string is not valid UTF-8"),
                    ),
                );
            }
            heap = heap.saturating_add(model::modeled_text_bytes(len));
        }
        cursor = place.end;
    }
    Ok((heap, total))
}

/// What one field of the hints adds: its bytes to the heap, and a grouping to their number.
pub open spec fn hints_step(state: (u64, usize), field: Field) -> Result<
    (u64, usize),
    Seq<char>,
> {
    let (heap, groupings) = state;
    if !((field.number == 2 || field.number == 5) && field.wire_type == 2) {
        Ok(state)
    } else if !valid_utf8(field.payload) {
        Err("protobuf read-hint string is not valid UTF-8"@)
    } else {
        Ok(
            (
                sizes::sat64(heap + model::text_bytes(field.payload.len())),
                if field.number == 5 {
                    sizes::sat_size(groupings + 1)
                } else {
                    groupings
                },
            ),
        )
    }
}

/// What the fields of the hints add, the first that is wrong ending it.
pub open spec fn hints_rest(
    state: (u64, usize),
    fields: (Seq<Field>, Option<Seq<char>>),
) -> Result<(u64, usize), Seq<char>>
    decreases fields.0.len(),
{
    if fields.0.len() == 0 {
        match fields.1 {
            Some(message) => Err(message),
            None => Ok(state),
        }
    } else {
        match hints_step(state, fields.0[0]) {
            Err(message) => Err(message),
            Ok(next) => hints_rest(next, (fields.0.drop_first(), fields.1)),
        }
    }
}

/// The heap bytes of the hints: their texts, and the list of groupings.
pub open spec fn hints_scan(bytes: Seq<u8>) -> Result<u64, Seq<char>> {
    match hints_rest((0, 0), wire::fields_of(bytes)) {
        Err(message) => Err(message),
        Ok((heap, groupings)) => Ok(
            sizes::sat64(
                heap + model::list_bytes(
                    model::grown_room(groupings as nat) as nat,
                    layout::size_of::<String>(),
                ),
            ),
        ),
    }
}

/// Scans the hints.
pub fn scan_read_hints_heap_bytes(bytes: &[u8]) -> (scan: Result<u64, String>)
    ensures
        match hints_scan(bytes@) {
            Ok(heap) => scan == Ok::<u64, String>(heap),
            Err(message) => scan matches Err(text) && text@ == message,
        },
{
    let mut cursor: usize = 0;
    let mut heap: u64 = 0;
    let mut groupings: usize = 0;
    while cursor < bytes.len()
        invariant
            cursor <= bytes@.len(),
            hints_rest((heap, groupings), wire::fields_from(bytes@, cursor as int))
                == hints_rest((0, 0), wire::fields_of(bytes@)),
        decreases bytes@.len() - cursor,
    {
        let ghost rest = wire::fields_from(bytes@, cursor as int);
        let place = match wire::read_field(bytes, cursor) {
            Err(message) => {
                return Err(message);
            },
            Ok(place) => place,
        };
        proof {
            assert(rest.0.drop_first() =~= wire::fields_from(bytes@, place.end as int).0);
            assert(rest.0[0] == place.field(bytes@));
        }
        if (place.number == 2 || place.number == 5) && place.wire_type == 2 {
            let value = slice_subrange(bytes, place.start, place.end);
            if !is_utf8(value) {
                return Err(text::owned("protobuf read-hint string is not valid UTF-8"));
            }
            heap = heap.saturating_add(model::modeled_text_bytes(value.len()));
            if place.number == 5 {
                groupings = groupings.saturating_add(1);
            }
        }
        cursor = place.end;
    }
    Ok(
        heap.saturating_add(
            model::modeled_vec_capacity_bytes::<String>(
                model::protobuf_growth_capacity_upper(groupings),
            ),
        ),
    )
}

/// What is known of a query so far: its matchers, the bytes of their names and values, and its
/// heap.
pub struct QueryScan {
    pub matchers: usize,
    pub matcher_bytes: usize,
    pub heap: u64,
}

/// What one field of a query adds.
pub open spec fn query_step(
    limits: RemoteReadLimits,
    query_index: usize,
    state: QueryScan,
    field: Field,
) -> Result<QueryScan, ScanProblem> {
    if field.wire_type != 2 {
        Ok(state)
    } else if field.number == 3 {
        let matchers = sizes::sat_size(state.matchers + 1);
        if matchers > limits.max_matchers {
            Err(
                ScanProblem::MatcherShape(
                    RemoteReadMatcherShapeError::TooManyMatchers { query_index, actual: matchers },
                ),
            )
        } else {
            match matcher_scan(
                limits,
                field.payload,
                query_index,
                (matchers - 1) as usize,
                state.matcher_bytes,
            ) {
                Err(problem) => Err(problem),
                Ok((heap, total)) => Ok(
                    QueryScan {
                        matchers,
                        matcher_bytes: total,
                        heap: sizes::sat64(state.heap + heap),
                    },
                ),
            }
        }
    } else if field.number == 4 {
        match hints_scan(field.payload) {
            Err(message) => Err(ScanProblem::Malformed(message)),
            Ok(heap) => Ok(QueryScan { heap: sizes::sat64(state.heap + heap), ..state }),
        }
    } else {
        Ok(state)
    }
}

/// What the fields of a query add, the first that is wrong ending it.
pub open spec fn query_rest(
    limits: RemoteReadLimits,
    query_index: usize,
    state: QueryScan,
    fields: (Seq<Field>, Option<Seq<char>>),
) -> Result<QueryScan, ScanProblem>
    decreases fields.0.len(),
{
    if fields.0.len() == 0 {
        match fields.1 {
            Some(message) => Err(ScanProblem::Malformed(message)),
            None => Ok(state),
        }
    } else {
        match query_step(limits, query_index, state, fields.0[0]) {
            Err(problem) => Err(problem),
            Ok(next) => query_rest(limits, query_index, next, (fields.0.drop_first(), fields.1)),
        }
    }
}

/// The heap bytes of a query: its texts, and the list of matchers.
pub open spec fn query_scan(limits: RemoteReadLimits, bytes: Seq<u8>, query_index: usize) -> Result<
    u64,
    ScanProblem,
> {
    match query_rest(
        limits,
        query_index,
        QueryScan { matchers: 0, matcher_bytes: 0, heap: 0 },
        wire::fields_of(bytes),
    ) {
        Err(problem) => Err(problem),
        Ok(state) => Ok(
            sizes::sat64(
                state.heap + model::list_bytes(
                    model::grown_room(state.matchers as nat) as nat,
                    layout::size_of::<LabelMatcher>(),
                ),
            ),
        ),
    }
}

/// Scans a query.
pub fn scan_remote_read_query_heap_bytes(
    limits: &RemoteReadLimits,
    bytes: &[u8],
    query_index: usize,
) -> (scan: Result<u64, RemoteReadDecodeScanError>)
    ensures
        scanned(scan, query_scan(*limits, bytes@, query_index)),
{
    let ghost start = QueryScan { matchers: 0, matcher_bytes: 0, heap: 0 };
    let ghost whole = query_rest(*limits, query_index, start, wire::fields_of(bytes@));
    let mut cursor: usize = 0;
    let mut matchers: usize = 0;
    let mut matcher_bytes: usize = 0;
    let mut heap: u64 = 0;
    while cursor < bytes.len()
        invariant
            cursor <= bytes@.len(),
            query_rest(
                *limits,
                query_index,
                (QueryScan { matchers, matcher_bytes, heap }),
                wire::fields_from(bytes@, cursor as int),
            ) == whole,
            whole == query_rest(
                *limits,
                query_index,
                (QueryScan { matchers: 0, matcher_bytes: 0, heap: 0 }),
                wire::fields_of(bytes@),
            ),
        decreases bytes@.len() - cursor,
    {
        let ghost rest = wire::fields_from(bytes@, cursor as int);
        let place = match wire::read_field(bytes, cursor) {
            Err(message) => {
                return Err(RemoteReadDecodeScanError::Malformed(message));
            },
            Ok(place) => place,
        };
        proof {
            assert(rest.0.drop_first() =~= wire::fields_from(bytes@, place.end as int).0);
            assert(rest.0[0] == place.field(bytes@));
        }
        if place.wire_type == 2 && place.number == 3 {
            let matcher = slice_subrange(bytes, place.start, place.end);
            matchers = matchers.saturating_add(1);
            if matchers > limits.max_matchers {
                return Err(
                    RemoteReadDecodeScanError::MatcherShape(
                        RemoteReadMatcherShapeError::TooManyMatchers {
                            query_index,
                            actual: matchers,
                        },
                    ),
                );
            }
            match scan_label_matcher_heap_bytes(
                limits,
                matcher,
                query_index,
                matchers - 1,
                matcher_bytes,
            ) {
                Err(error) => {
                    return Err(error);
                },
                Ok((more, total)) => {
                    heap = heap.saturating_add(more);
                    matcher_bytes = total;
                },
            }
        } else if place.wire_type == 2 && place.number == 4 {
            let hints = slice_subrange(bytes, place.start, place.end);
            match scan_read_hints_heap_bytes(hints) {
                Err(message) => {
                    return Err(RemoteReadDecodeScanError::Malformed(message));
                },
                Ok(more) => {
                    heap = heap.saturating_add(more);
                },
            }
        }
        cursor = place.end;
    }
    Ok(
        heap.saturating_add(
            model::modeled_vec_capacity_bytes::<LabelMatcher>(
                model::protobuf_growth_capacity_upper(matchers),
            ),
        ),
    )
}

/// The number of varints that are packed from a place on, added to a count.
pub open spec fn packed_count(bytes: Seq<u8>, cursor: int, count: usize) -> Result<
    usize,
    Seq<char>,
>
    decreases bytes.len() - cursor,
{
    if cursor >= bytes.len() {
        Ok(count)
    } else {
        proof {
            wire::lemma_varint_bounds(bytes, cursor, 0);
        }
        match wire::varint_at(bytes, cursor) {
            Err(message) => Err(message),
            Ok((_, next)) => packed_count(bytes, next, sizes::sat_size(count + 1)),
        }
    }
}

fn count_packed(bytes: &[u8], so_far: usize) -> (counted: Result<usize, &'static str>)
    ensures
        match packed_count(bytes@, 0, so_far) {
            Ok(count) => counted == Ok::<usize, &'static str>(count),
            Err(message) => counted matches Err(text) && text@ == message,
        },
{
    let mut cursor: usize = 0;
    let mut count: usize = so_far;
    while cursor < bytes.len()
        invariant
            cursor <= bytes@.len(),
            packed_count(bytes@, cursor as int, count) == packed_count(bytes@, 0, so_far),
        decreases bytes@.len() - cursor,
    {
        match wire::read_protobuf_varint(bytes, cursor) {
            Err(message) => {
                return Err(message);
            },
            Ok((_, next)) => {
                count = count.saturating_add(1);
                cursor = next;
            },
        }
    }
    Ok(count)
}

/// What is known of a request so far: its queries, the response types that it accepts, and the heap
/// of its queries.
pub struct RequestScan {
    pub queries: usize,
    pub responses: usize,
    pub heap: u64,
}

/// What one field of a request adds.
pub open spec fn request_step(limits: RemoteReadLimits, state: RequestScan, field: Field) -> Result<
    RequestScan,
    ScanProblem,
> {
    if field.number == 1 && field.wire_type == 2 {
        match query_scan(limits, field.payload, state.queries) {
            Err(problem) => Err(problem),
            Ok(heap) => Ok(
                RequestScan {
                    queries: sizes::sat_size(state.queries + 1),
                    heap: sizes::sat64(state.heap + heap),
                    ..state
                },
            ),
        }
    } else if field.number == 2 && field.wire_type == 0 {
        Ok(RequestScan { responses: sizes::sat_size(state.responses + 1), ..state })
    } else if field.number == 2 && field.wire_type == 2 {
        match packed_count(field.payload, 0, state.responses) {
            Err(message) => Err(ScanProblem::Malformed(message)),
            Ok(responses) => Ok(RequestScan { responses, ..state }),
        }
    } else {
        Ok(state)
    }
}

/// What the fields of a request add, the first that is wrong ending it.
pub open spec fn request_rest(
    limits: RemoteReadLimits,
    state: RequestScan,
    fields: (Seq<Field>, Option<Seq<char>>),
) -> Result<RequestScan, ScanProblem>
    decreases fields.0.len(),
{
    if fields.0.len() == 0 {
        match fields.1 {
            Some(message) => Err(ScanProblem::Malformed(message)),
            None => Ok(state),
        }
    } else {
        match request_step(limits, state, fields.0[0]) {
            Err(problem) => Err(problem),
            Ok(next) => request_rest(limits, next, (fields.0.drop_first(), fields.1)),
        }
    }
}

/// The heap bytes of a request: its queries and their list, and the list of response types.
pub open spec fn request_scan(limits: RemoteReadLimits, bytes: Seq<u8>) -> Result<
    u64,
    ScanProblem,
> {
    match request_rest(
        limits,
        RequestScan { queries: 0, responses: 0, heap: 0 },
        wire::fields_of(bytes),
    ) {
        Err(problem) => Err(problem),
        Ok(state) => Ok(
            sizes::sat64(
                state.heap + model::list_bytes(
                    model::grown_room(state.queries as nat) as nat,
                    layout::size_of::<Query>(),
                ) + model::list_bytes(
                    model::grown_room(state.responses as nat) as nat,
                    layout::size_of::<i32>(),
                ),
            ),
        ),
    }
}

/// Scans a request: what decoding it will allocate at most, or why it is turned away.
pub fn scan_remote_read_decode_model(limits: &RemoteReadLimits, bytes: &[u8]) -> (scan: Result<
    u64,
    RemoteReadDecodeScanError,
>)
    ensures
        scanned(scan, request_scan(*limits, bytes@)),
{
    let ghost start = RequestScan { queries: 0, responses: 0, heap: 0 };
    let ghost whole = request_rest(*limits, start, wire::fields_of(bytes@));
    let mut cursor: usize = 0;
    let mut queries: usize = 0;
    let mut responses: usize = 0;
    let mut heap: u64 = 0;
    while cursor < bytes.len()
        invariant
            cursor <= bytes@.len(),
            request_rest(
                *limits,
                (RequestScan { queries, responses, heap }),
                wire::fields_from(bytes@, cursor as int),
            ) == whole,
            whole == request_rest(
                *limits,
                (RequestScan { queries: 0, responses: 0, heap: 0 }),
                wire::fields_of(bytes@),
            ),
        decreases bytes@.len() - cursor,
    {
        let ghost rest = wire::fields_from(bytes@, cursor as int);
        let place = match wire::read_field(bytes, cursor) {
            Err(message) => {
                return Err(RemoteReadDecodeScanError::Malformed(message));
            },
            Ok(place) => place,
        };
        proof {
            assert(rest.0.drop_first() =~= wire::fields_from(bytes@, place.end as int).0);
            assert(rest.0[0] == place.field(bytes@));
        }
        if place.number == 1 && place.wire_type == 2 {
            let query = slice_subrange(bytes, place.start, place.end);
            match scan_remote_read_query_heap_bytes(limits, query, queries) {
                Err(error) => {
                    return Err(error);
                },
                Ok(more) => {
                    heap = heap.saturating_add(more);
                    queries = queries.saturating_add(1);
                },
            }
        } else if place.number == 2 && place.wire_type == 0 {
            responses = responses.saturating_add(1);
        } else if place.number == 2 && place.wire_type == 2 {
            let packed = slice_subrange(bytes, place.start, place.end);
            match count_packed(packed, responses) {
                Err(message) => {
                    return Err(RemoteReadDecodeScanError::Malformed(text::owned(message)));
                },
                Ok(count) => {
                    responses = count;
                },
            }
        }
        cursor = place.end;
    }
    Ok(
        heap.saturating_add(
            model::modeled_vec_capacity_bytes::<Query>(
                model::protobuf_growth_capacity_upper(queries),
            ),
        ).saturating_add(
            model::modeled_vec_capacity_bytes::<i32>(
                model::protobuf_growth_capacity_upper(responses),
            ),
        ),
    )
}

} // verus!
