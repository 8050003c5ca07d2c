//! Decoding a request within a query budget.

use vstd::layout;
use vstd::prelude::*;

use crate::budget;
use crate::budget::QueryBudgetError;
use crate::capacity;
use crate::remote_read::errors;
use crate::remote_read::errors::RemoteReadQueryError;
use crate::remote_read::model;
use crate::remote_read::request::LabelMatcher;
use crate::remote_read::request::Query;
use crate::remote_read::request::ReadHints;
use crate::remote_read::request::ReadRequest;
use crate::remote_read::request::RemoteReadLimits;
use crate::remote_read::response;
use crate::remote_read::scan;
use crate::remote_read::scan::RemoteReadDecodeScanError;
use crate::remote_read::scan::ScanProblem;
use crate::sizes;
use crate::text;

verus! {

/// What is said of a body that is too long.
pub open spec fn too_large(len: nat, max: usize) -> Seq<char> {
    "decoded request body too large: "@ + text::decimal(len) + " bytes (max "@ + text::decimal(
        max as nat,
    ) + ")"@
}

/// How a body is encoded, by its header: not at all, with Snappy, or in a way that is not known.
pub enum BodyEncoding {
    Identity,
    Snappy,
    Unsupported,
}

/// How a body is encoded, by its header.
pub open spec fn body_encoding(header: Option<Seq<char>>) -> BodyEncoding {
    match header {
        None => BodyEncoding::Identity,
        Some(encoding) => if text::same_but_ascii_case(encoding, "identity"@) {
            BodyEncoding::Identity
        } else if text::same_but_ascii_case(encoding, "snappy"@) {
            BodyEncoding::Snappy
        } else {
            BodyEncoding::Unsupported
        },
    }
}

/// The bytes of a body without its encoding, or what is said of one that is turned away.
pub open spec fn decoded_body(
    limits: RemoteReadLimits,
    header: Option<Seq<char>>,
    body: Seq<u8>,
) -> Result<Seq<u8>, Seq<char>> {
    match body_encoding(header) {
        BodyEncoding::Identity => if body.len() > limits.max_body_bytes {
            Err(too_large(body.len(), limits.max_body_bytes))
        } else {
            Ok(body)
        },
        BodyEncoding::Snappy => match response::snappy_declared_len(body) {
            Err(message) => Err("snappy decode failed: "@ + message),
            Ok(len) => if len > limits.max_body_bytes {
                Err(too_large(len as nat, limits.max_body_bytes))
            } else {
                match response::snappy_decompressed(body) {
                    Err(message) => Err("snappy decode failed: "@ + message),
                    Ok(bytes) => Ok(bytes),
                }
            },
        },
        BodyEncoding::Unsupported => Err("unsupported remote-read content-encoding"@),
    }
}

/// What is said of bytes that the scan turned away.
pub open spec fn scan_message(limits: RemoteReadLimits, problem: ScanProblem) -> Seq<char> {
    match problem {
        ScanProblem::Malformed(message) => "invalid protobuf body: "@ + message,
        ScanProblem::MatcherShape(error) => "invalid remote-read matcher shape: "@
            + error.message_text(limits),
    }
}

fn too_large_error(len: usize, max: usize) -> (error: RemoteReadQueryError)
    ensures
        error.says_invalid(too_large(len as nat, max)),
{
    RemoteReadQueryError::InvalidRequest(
        text::text5(
            "decoded request body too large: ",
            text::format_usize(len).as_str(),
            " bytes (max ",
            text::format_usize(max).as_str(),
            ")",
        ),
    )
}

/// The least that the heap of a matcher is modeled to hold: its texts.
pub open spec fn matcher_floor(matcher: LabelMatcher) -> nat {
    model::text_bytes(text::utf8_len(matcher.name@)) as nat + model::text_bytes(
        text::utf8_len(matcher.value@),
    ) as nat
}

/// The least that the heap of the first matchers is modeled to hold.
pub open spec fn matchers_floor(matchers: Seq<LabelMatcher>) -> nat
    decreases matchers.len(),
{
    if matchers.len() == 0 {
        0
    } else {
        matchers_floor(matchers.drop_last()) + matcher_floor(matchers.last())
    }
}

fn modeled_string_capacity_bytes(value: &String) -> (bytes: u64)
    ensures
        bytes >= model::text_bytes(text::utf8_len(value@)),
{
    model::modeled_text_bytes(capacity::string_capacity(value))
}

/// The bytes that the heap of a matcher is modeled to hold, with the room its texts have.
pub fn modeled_label_matcher_heap_bytes(matcher: &LabelMatcher) -> (bytes: u64)
    ensures
        bytes >= sizes::sat64(matcher_floor(*matcher) as int),
{
    modeled_string_capacity_bytes(&matcher.name).saturating_add(
        modeled_string_capacity_bytes(&matcher.value),
    )
}

fn modeled_matchers_heap_bytes(matchers: &Vec<LabelMatcher>) -> (bytes: u64)
    ensures
        bytes >= sizes::sat64(matchers_floor(matchers@) as int),
{
    let mut bytes: u64 = 0;
    let mut i: usize = 0;
    while i < matchers.len()
        invariant
            i <= matchers@.len(),
            bytes >= sizes::sat64(matchers_floor(matchers@.subrange(0, i as int)) as int),
        decreases matchers@.len() - i,
    {
        proof {
            assert(matchers@.subrange(0, i as int + 1).drop_last() =~= matchers@.subrange(
                0,
                i as int,
            ));
        }
        bytes = bytes.saturating_add(modeled_label_matcher_heap_bytes(&matchers[i]));
        i = i + 1;
    }
    assert(matchers@.subrange(0, i as int) =~= matchers@);
    bytes
}

/// The bytes that the heap of the hints is modeled to hold, with the room its texts have.
pub fn modeled_read_hints_heap_bytes(hints: &ReadHints) -> (bytes: u64)
    ensures
        bytes >= model::text_bytes(text::utf8_len(hints.func@)),
        bytes >= model::list_bytes(hints.grouping@.len(), layout::size_of::<String>()),
        forall|i: int|
            0 <= i < hints.grouping@.len() ==> bytes >= model::text_bytes(
                text::utf8_len(#[trigger] hints.grouping@[i]@),
            ),
{
    let room = capacity::vec_capacity(&hints.grouping);
    proof {
        lemma_list_bytes_grow(
            hints.grouping@.len(),
            room as nat,
            layout::size_of::<String>(),
        );
    }
    let mut bytes: u64 = modeled_string_capacity_bytes(&hints.func).saturating_add(
        model::modeled_vec_capacity_bytes::<String>(room),
    );
    let mut i: usize = 0;
    while i < hints.grouping.len()
        invariant
            i <= hints.grouping@.len(),
            bytes >= model::text_bytes(text::utf8_len(hints.func@)),
            bytes >= model::list_bytes(hints.grouping@.len(), layout::size_of::<String>()),
            forall|k: int|
                0 <= k < i ==> bytes >= model::text_bytes(
                    text::utf8_len(#[trigger] hints.grouping@[k]@),
                ),
        decreases hints.grouping@.len() - i,
    {
        bytes = bytes.saturating_add(modeled_string_capacity_bytes(&hints.grouping[i]));
        i = i + 1;
    }
    bytes
}

/// A list with more room holds at least as many bytes.
proof fn lemma_list_bytes_grow(less: nat, more: nat, size: nat)
    requires
        less <= more,
    ensures
        model::list_bytes(less, size) <= model::list_bytes(more, size),
{
    assert(less * size <= more * size) by (nonlinear_arith)
        requires
            less <= more,
            size >= 0,
    ;
}

/// Whether the heap of a decoded request may be modeled to hold a number of bytes: each of its
/// lists holds what its items take, and what is above that is the allocator's choice.
pub open spec fn request_measures(request: ReadRequest, bytes: u64) -> bool {
    &&& bytes >= model::list_bytes(request.queries@.len(), layout::size_of::<Query>())
    &&& bytes >= model::list_bytes(
        request.accepted_response_types@.len(),
        layout::size_of::<i32>(),
    )
    &&& forall|i: int|
        0 <= i < request.queries@.len() ==> bytes >= sizes::sat64(
            matchers_floor((#[trigger] request.queries@[i]).matchers@) as int,
        )
}

/// The bytes that the heap of a decoded request is modeled to hold, with the room its lists and
/// texts have.
pub fn modeled_remote_read_request_heap_bytes(request: &ReadRequest) -> (bytes: u64)
    ensures
        request_measures(*request, bytes),
{
    let query_room = capacity::vec_capacity(&request.queries);
    let kind_room = capacity::vec_capacity(&request.accepted_response_types);
    proof {
        lemma_list_bytes_grow(
            request.queries@.len(),
            query_room as nat,
            layout::size_of::<Query>(),
        );
        lemma_list_bytes_grow(
            request.accepted_response_types@.len(),
            kind_room as nat,
            layout::size_of::<i32>(),
        );
    }
    let mut bytes: u64 = model::modeled_vec_capacity_bytes::<Query>(query_room).saturating_add(
        model::modeled_vec_capacity_bytes::<i32>(kind_room),
    );
    let mut i: usize = 0;
    while i < request.queries.len()
        invariant
            i <= request.queries@.len(),
            bytes >= model::list_bytes(request.queries@.len(), layout::size_of::<Query>()),
            bytes >= model::list_bytes(
                request.accepted_response_types@.len(),
                layout::size_of::<i32>(),
            ),
            forall|k: int|
                0 <= k < i ==> bytes >= sizes::sat64(
                    matchers_floor((#[trigger] request.queries@[k]).matchers@) as int,
                ),
        decreases request.queries@.len() - i,
    {
        let query = &request.queries[i];
        let hints = match &query.hints {
            Some(hints) => modeled_read_hints_heap_bytes(hints),
            None => 0,
        };
        bytes =
        bytes.saturating_add(
            model::modeled_vec_capacity_bytes::<LabelMatcher>(
                capacity::vec_capacity(&query.matchers),
            ),
        ).saturating_add(modeled_matchers_heap_bytes(&query.matchers)).saturating_add(hints);
        i = i + 1;
    }
    bytes
}

/// Whether decoding may give this request for these bytes.
pub open spec fn may_decode<D: FnOnce(&[u8]) -> Result<ReadRequest, String>>(
    decode: D,
    bytes: Seq<u8>,
    request: ReadRequest,
) -> bool {
    exists|given: &[u8]|
        given@ == bytes && #[trigger] call_ensures(
            decode,
            (given,),
            Ok::<ReadRequest, String>(request),
        )
}

/// Whether decoding may fail with this message for these bytes.
pub open spec fn may_fail<D: FnOnce(&[u8]) -> Result<ReadRequest, String>>(
    decode: D,
    bytes: Seq<u8>,
    message: Seq<char>,
) -> bool {
    exists|given: &[u8], said: String|
        given@ == bytes && said@ == message && #[trigger] call_ensures(
            decode,
            (given,),
            Err::<ReadRequest, String>(said),
        )
}

/// The bytes reserved for a compressed body before it is decompressed.
pub open spec fn unpacking_bytes(body: Seq<u8>) -> u64 {
    match response::snappy_declared_len(body) {
        Ok(len) => model::list_bytes(len as nat, 1),
        Err(_) => 0,
    }
}

/// Whether a body is decompressed: it is compressed, and does not say that it takes more than the
/// limit.
pub open spec fn unpacks(
    limits: RemoteReadLimits,
    header: Option<Seq<char>>,
    body: Seq<u8>,
) -> bool {
    body_encoding(header) is Snappy && (response::snappy_declared_len(body) matches Ok(len) && len
        <= limits.max_body_bytes)
}

/// Whether bytes are asked for: those that decompressing the body takes, or those that decoding
/// what it comes to may take.
pub open spec fn may_reserve(
    limits: RemoteReadLimits,
    header: Option<Seq<char>>,
    body: Seq<u8>,
    bytes: u64,
) -> bool {
    ||| unpacks(limits, header, body) && bytes == unpacking_bytes(body)
    ||| (decoded_body(limits, header, body) matches Ok(unpacked) && scan::request_scan(
        limits,
        unpacked,
    ) == Ok::<u64, ScanProblem>(bytes))
}

/// Whether a reservation is changed to bytes: those that decompressing the body took, once that was
/// paid for, or those that the decoded request holds.
pub open spec fn may_resize<
    R: Fn(u64) -> Result<(), QueryBudgetError>,
    D: FnOnce(&[u8]) -> Result<ReadRequest, String>,
>(
    limits: RemoteReadLimits,
    header: Option<Seq<char>>,
    body: Seq<u8>,
    reserve: R,
    decode: D,
    bytes: u64,
) -> bool {
    ||| may_settle(limits, header, body, reserve, bytes)
    ||| exists|unpacked: Seq<u8>, request: ReadRequest|
        decodes(limits, header, body, reserve, unpacked) && #[trigger] may_decode(
            decode,
            unpacked,
            request,
        ) && request_measures(request, bytes)
}

/// Whether the reservation of a compressed body is changed to bytes.
pub open spec fn may_settle<R: Fn(u64) -> Result<(), QueryBudgetError>>(
    limits: RemoteReadLimits,
    header: Option<Seq<char>>,
    body: Seq<u8>,
    reserve: R,
    bytes: u64,
) -> bool {
    &&& unpacks(limits, header, body)
    &&& budget::granted(reserve, unpacking_bytes(body))
    &&& decoded_body(limits, header, body) matches Ok(unpacked) && bytes >= model::text_bytes(
        unpacked.len(),
    )
}

/// Whether changing the reservation of a compressed body to what was taken was refused, and the
/// refusal is passed on like this.
pub open spec fn unpacked_refused<S: FnOnce(u64) -> Result<(), QueryBudgetError>>(
    resize: S,
    unpacked: Seq<u8>,
    error: RemoteReadQueryError,
) -> bool {
    exists|bytes: u64, refusal: QueryBudgetError| #[trigger]
        budget::refused(resize, bytes, refusal) && bytes >= model::text_bytes(unpacked.len())
            && errors::memory_refusal(
            refusal,
            "failed to reconcile decoded remote-read request memory"@,
            error,
        )
}

/// Whether a compressed body was paid for: what it says that it takes was reserved, and the
/// reservation was changed to no less than what it took.
pub open spec fn unpacked_granted<
    R: Fn(u64) -> Result<(), QueryBudgetError>,
    S: Fn(u64) -> Result<(), QueryBudgetError>,
>(reserve: R, resize: S, body: Seq<u8>, unpacked: Seq<u8>) -> bool {
    &&& budget::granted(reserve, unpacking_bytes(body))
    &&& exists|bytes: u64| #[trigger]
        budget::granted(resize, bytes) && bytes >= model::text_bytes(unpacked.len())
}

/// Whether changing the reservation of a decoded request to what it holds was granted.
pub open spec fn request_granted<S: Fn(u64) -> Result<(), QueryBudgetError>>(
    resize: S,
    request: ReadRequest,
) -> bool {
    exists|bytes: u64| #[trigger] budget::granted(resize, bytes) && request_measures(request, bytes)
}

/// Whether changing the reservation of a decoded request to what it holds was refused, and the
/// refusal is passed on like this.
pub open spec fn request_refused<S: Fn(u64) -> Result<(), QueryBudgetError>>(
    resize: S,
    request: ReadRequest,
    error: RemoteReadQueryError,
) -> bool {
    exists|bytes: u64, refusal: QueryBudgetError| #[trigger]
        budget::refused(resize, bytes, refusal) && request_measures(request, bytes)
            && errors::memory_refusal(
            refusal,
            "failed to reconcile decoded remote-read protobuf memory"@,
            error,
        )
}

/// Whether turning a body away is warranted.
pub open spec fn body_refusal<
    R: Fn(u64) -> Result<(), QueryBudgetError>,
    S: Fn(u64) -> Result<(), QueryBudgetError>,
>(
    limits: RemoteReadLimits,
    header: Option<Seq<char>>,
    body: Seq<u8>,
    reserve: R,
    resize: S,
    error: RemoteReadQueryError,
) -> bool {
    ||| (decoded_body(limits, header, body) matches Err(message) && error.says_invalid(message))
    ||| unpacks(limits, header, body) && (error matches RemoteReadQueryError::Budget(refusal)
        && budget::refused(reserve, unpacking_bytes(body), refusal))
    ||| body_encoding(header) is Snappy && (decoded_body(limits, header, body) matches Ok(unpacked)
        && unpacked_refused(resize, unpacked, error))
}

fn unpack_body<
    R: Fn(u64) -> Result<(), QueryBudgetError>,
    S: Fn(u64) -> Result<(), QueryBudgetError>,
>(
    limits: &RemoteReadLimits,
    header: Option<&str>,
    body: &[u8],
    reserve: &R,
    resize: &S,
) -> (unpacked: Result<Option<Vec<u8>>, RemoteReadQueryError>)
    requires
        forall|bytes: u64|
            may_reserve(*limits, header_text(header), body@, bytes) ==> #[trigger] call_requires(
                *reserve,
                (bytes,),
            ),
        forall|bytes: u64|
            may_settle(*limits, header_text(header), body@, *reserve, bytes)
                ==> #[trigger] call_requires(*resize, (bytes,)),
    ensures
        match unpacked {
            Ok(found) => {
                let unpacked = match found {
                    Some(bytes) => bytes@,
                    None => body@,
                };
                &&& decoded_body(*limits, header_text(header), body@) == Ok::<Seq<u8>, Seq<char>>(
                    unpacked,
                )
                &&& body_encoding(header_text(header)) is Snappy ==> unpacked_granted(
                    *reserve,
                    *resize,
                    body@,
                    unpacked,
                )
            },
            Err(error) => body_refusal(
                *limits,
                header_text(header),
                body@,
                *reserve,
                *resize,
                error,
            ),
        },
        budget::always_grants(*reserve) && budget::always_grants(*resize) && decoded_body(
            *limits,
            header_text(header),
            body@,
        ) is Ok ==> unpacked is Ok,
{
    let snappy = match header {
        None => false,
        Some(encoding) => {
            if text::same_ignoring_ascii_case(encoding, "identity") {
                false
            } else if text::same_ignoring_ascii_case(encoding, "snappy") {
                true
            } else {
                return Err(
                    RemoteReadQueryError::InvalidRequest(
                        text::owned("unsupported remote-read content-encoding"),
                    ),
                );
            }
        },
    };
    if !snappy {
        if body.len() > limits.max_body_bytes {
            return Err(too_large_error(body.len(), limits.max_body_bytes));
        }
        return Ok(None);
    }
    let len = match response::snappy_len(body) {
        Err(message) => {
            return Err(
                RemoteReadQueryError::InvalidRequest(
                    text::text2("snappy decode failed: ", message.as_str()),
                ),
            );
        },
        Ok(len) => len,
    };
    if len > limits.max_body_bytes {
        return Err(too_large_error(len, limits.max_body_bytes));
    }
    proof {
        assert(unpacks(*limits, header_text(header), body@));
    }
    match reserve(model::modeled_text_bytes(len)) {
        Err(error) => {
            return Err(RemoteReadQueryError::Budget(error));
        },
        Ok(_) => {},
    }
    match response::snappy_decompress(body) {
        Err(message) => Err(
            RemoteReadQueryError::InvalidRequest(
                text::text2("snappy decode failed: ", message.as_str()),
            ),
        ),
        Ok(bytes) => {
            let reserved = model::modeled_text_bytes(capacity::vec_capacity(&bytes));
            proof {
                assert(may_settle(*limits, header_text(header), body@, *reserve, reserved));
            }
            match resize(reserved) {
                Err(error) => {
                    proof {
                        assert(budget::refused(*resize, reserved, error));
                    }
                    Err(
                        errors::resize_remote_read_memory(
                            error,
                            "failed to reconcile decoded remote-read request memory",
                        ),
                    )
                },
                Ok(_) => {
                    proof {
                        assert(budget::granted(*resize, reserved));
                    }
                    Ok(Some(bytes))
                },
            }
        },
    }
}

/// A header as a text.
pub open spec fn header_text(header: Option<&str>) -> Option<Seq<char>> {
    match header {
        Some(value) => Some(value@),
        None => None,
    }
}

/// Whether bytes are decoded: they are what the body comes to, nothing is wrong with their
/// matchers, and what decoding them may take was granted.
pub open spec fn decodes<R: Fn(u64) -> Result<(), QueryBudgetError>>(
    limits: RemoteReadLimits,
    header: Option<Seq<char>>,
    body: Seq<u8>,
    reserve: R,
    bytes: Seq<u8>,
) -> bool {
    &&& decoded_body(limits, header, body) == Ok::<Seq<u8>, Seq<char>>(bytes)
    &&& scan::request_scan(limits, bytes) matches Ok(heap) && budget::granted(reserve, heap)
}

/// Whether turning a request away is warranted.
pub open spec fn decode_refusal<
    C: Fn() -> Result<(), QueryBudgetError>,
    R: Fn(u64) -> Result<(), QueryBudgetError>,
    S: Fn(u64) -> Result<(), QueryBudgetError>,
    D: FnOnce(&[u8]) -> Result<ReadRequest, String>,
>(
    limits: RemoteReadLimits,
    header: Option<Seq<char>>,
    body: Seq<u8>,
    checkpoint: C,
    reserve: R,
    resize: S,
    decode: D,
    error: RemoteReadQueryError,
) -> bool {
    ||| (error matches RemoteReadQueryError::Budget(refusal) && budget::may_stop(
        checkpoint,
        refusal,
    ))
    ||| body_refusal(limits, header, body, reserve, resize, error)
    ||| (decoded_body(limits, header, body) matches Ok(bytes) && match scan::request_scan(
        limits,
        bytes,
    ) {
        Err(problem) => error.says_invalid(scan_message(limits, problem)),
        Ok(heap) => {
            ||| (error matches RemoteReadQueryError::Budget(refusal) && budget::refused(
                reserve,
                heap,
                refusal,
            ))
            ||| (error matches RemoteReadQueryError::InvalidRequest(message) && exists|
                said: Seq<char>,
            | #[trigger]
                may_fail(decode, bytes, said) && message@ == "invalid protobuf body: "@ + said)
            ||| exists|request: ReadRequest| #[trigger]
                may_decode(decode, bytes, request) && request_refused(resize, request, error)
        },
    })
}

/// Decodes a request from its body and the header that says how it is encoded. The body is bounded
/// and its matchers are checked before anything is decoded: `reserve` reserves what decompressing
/// and what decoding may take, `resize` changes that to what was taken, `decode` decodes, and
/// `checkpoint` asks whether to go on. A body that is turned away before is not decoded, and nothing
/// is reserved for one that is, or says that it is, too long.
pub fn decode_remote_read_request<
    C: Fn() -> Result<(), QueryBudgetError>,
    R: Fn(u64) -> Result<(), QueryBudgetError>,
    S: Fn(u64) -> Result<(), QueryBudgetError>,
    D: FnOnce(&[u8]) -> Result<ReadRequest, String>,
>(
    limits: &RemoteReadLimits,
    content_encoding: Option<&str>,
    body: &[u8],
    checkpoint: &C,
    reserve: &R,
    resize: &S,
    decode: D,
) -> (decoded: Result<ReadRequest, RemoteReadQueryError>)
    requires
        call_requires(*checkpoint, ()),
        forall|bytes: u64|
            budget::may_pass(*checkpoint) && may_reserve(*limits, header_text(content_encoding), body@, bytes)
                ==> #[trigger] call_requires(*reserve, (bytes,)),
        forall|bytes: u64|
            budget::may_pass(*checkpoint) && may_resize(
                *limits,
                header_text(content_encoding),
                body@,
                *reserve,
                decode,
                bytes,
            ) ==> #[trigger] call_requires(*resize, (bytes,)),
        forall|bytes: &[u8]|
            budget::may_pass(*checkpoint) && decodes(
                *limits,
                header_text(content_encoding),
                body@,
                *reserve,
                bytes@,
            ) ==> #[trigger] call_requires(decode, (bytes,)),
    ensures
        match decoded {
            Ok(request) => decoded_body(*limits, header_text(content_encoding), body@) matches Ok(
                bytes,
            ) && scan::request_scan(*limits, bytes) matches Ok(heap) && budget::granted(
                *reserve,
                heap,
            ) && may_decode(decode, bytes, request) && request_granted(*resize, request) && (
            body_encoding(header_text(content_encoding)) is Snappy ==> unpacked_granted(
                *reserve,
                *resize,
                body@,
                bytes,
            )),
            Err(error) => decode_refusal(
                *limits,
                header_text(content_encoding),
                body@,
                *checkpoint,
                *reserve,
                *resize,
                decode,
                error,
            ),
        },
        budget::never_stops(*checkpoint) && budget::always_grants(*reserve)
            && budget::always_grants(*resize) && (decoded_body(
            *limits,
            header_text(content_encoding),
            body@,
        ) matches Ok(bytes) && scan::request_scan(*limits, bytes) is Ok) && (forall|
            given: &[u8],
            outcome: Result<ReadRequest, String>,
        |
            #[trigger] call_ensures(decode, (given,), outcome) ==> outcome is Ok)
            ==> decoded is Ok,
        budget::always_stops(*checkpoint) ==> (decoded matches Err(
            RemoteReadQueryError::Budget(error),
        ) && budget::may_stop(*checkpoint, error)),
{
    match checkpoint() {
        Err(error) => {
            return Err(RemoteReadQueryError::Budget(error));
        },
        Ok(_) => {},
    }
    let unpacked = match unpack_body(limits, content_encoding, body, reserve, resize) {
        Err(error) => {
            return Err(error);
        },
        Ok(unpacked) => unpacked,
    };
    let bytes: &[u8] = match &unpacked {
        Some(bytes) => bytes.as_slice(),
        None => body,
    };
    let heap = match scan::scan_remote_read_decode_model(limits, bytes) {
        Ok(heap) => heap,
        Err(RemoteReadDecodeScanError::Malformed(message)) => {
            return Err(
                RemoteReadQueryError::InvalidRequest(
                    text::text2("invalid protobuf body: ", message.as_str()),
                ),
            );
        },
        Err(RemoteReadDecodeScanError::MatcherShape(error)) => {
            return Err(
                RemoteReadQueryError::InvalidRequest(
                    text::text2(
                        "invalid remote-read matcher shape: ",
                        error.message(limits).as_str(),
                    ),
                ),
            );
        },
    };
    proof {
        assert(may_reserve(*limits, header_text(content_encoding), body@, heap));
    }
    match reserve(heap) {
        Err(error) => {
            return Err(RemoteReadQueryError::Budget(error));
        },
        Ok(_) => {},
    }
    let request = match decode(bytes) {
        Err(message) => {
            proof {
                assert(may_fail(decode, bytes@, message@));
            }
            return Err(
                RemoteReadQueryError::InvalidRequest(
                    text::text2("invalid protobuf body: ", message.as_str()),
                ),
            );
        },
        Ok(request) => request,
    };
    proof {
        assert(may_decode(decode, bytes@, request));
    }
    let held = modeled_remote_read_request_heap_bytes(&request);
    proof {
        assert(may_resize(
            *limits,
            header_text(content_encoding),
            body@,
            *reserve,
            decode,
            held,
        ));
    }
    match resize(held) {
        Err(error) => {
            proof {
                assert(budget::refused(*resize, held, error));
            }
            return Err(
                errors::resize_remote_read_memory(
                    error,
                    "failed to reconcile decoded remote-read protobuf memory",
                ),
            );
        },
        Ok(_) => {},
    }
    proof {
        assert(budget::granted(*resize, held));
    }
    match checkpoint() {
        Err(error) => {
            return Err(RemoteReadQueryError::Budget(error));
        },
        Ok(_) => {},
    }
    Ok(request)
}

} // verus!
