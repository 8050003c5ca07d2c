//! What the bytes of a request and of a response say, which requests are let through, and how a
//! failure is answered.

use vstd::prelude::*;
use vstd::utf8::valid_utf8;

use crate::budget::QueryBudgetError;
use crate::reading;
use crate::remote_read::decode;
use crate::remote_read::errors;
use crate::remote_read::errors::ErrorAnswerView;
use crate::remote_read::errors::ReadFanoutError;
use crate::remote_read::errors::RemoteReadQueryError;
use crate::remote_read::errors::StorageError;
use crate::remote_read::laws;
use crate::remote_read::request::RemoteReadLimits;
use crate::remote_read::response;
use crate::remote_read::scan;
use crate::remote_read::scan::QueryScan;
use crate::remote_read::scan::RequestScan;
use crate::remote_read::session::ReadAction;
use crate::remote_read::session::ReadEvent;
use crate::remote_read::session::ReadStep;
use crate::remote_read::session::RemoteReadSession;
use crate::remote_read::wire;
use crate::remote_read::wire::Field;
use crate::sizes;
use crate::text;

verus! {

/// Whether a text is another but for the case of its letters.
pub open spec fn says(given: Seq<char>, word: Seq<char>) -> bool {
    given.len() == word.len() && forall|i: int|
        0 <= i < given.len() ==> reading::same_letter(#[trigger] given[i], word[i])
}

/// A body that says it is not encoded, or does not say, is taken as it is where it is not too long,
/// and refused else.
pub proof fn lemma_plain_body_taken(
    limits: RemoteReadLimits,
    header: Option<Seq<char>>,
    body: Seq<u8>,
)
    requires
        header matches Some(given) ==> says(given, "identity"@),
    ensures
        body.len() <= limits.max_body_bytes ==> decode::decoded_body(limits, header, body) == Ok::<
            Seq<u8>,
            Seq<char>,
        >(body),
        body.len() > limits.max_body_bytes ==> decode::decoded_body(limits, header, body) == Err::<
            Seq<u8>,
            Seq<char>,
        >(
            "decoded request body too large: "@ + text::decimal(body.len()) + " bytes (max "@
                + text::decimal(limits.max_body_bytes as nat) + ")"@,
        ),
{
    match header {
        Some(given) => reading::lemma_same_but_case(given, "identity"@),
        None => {},
    }
}

/// A body that says it is packed is taken as what it unpacks to, where it declares that it is not
/// too long and can be unpacked, and is refused else.
pub proof fn lemma_packed_body_taken(limits: RemoteReadLimits, given: Seq<char>, body: Seq<u8>)
    requires
        says(given, "snappy"@),
    ensures
        ({
            let found = decode::decoded_body(limits, Some(given), body);
            let declared = response::snappy_declared_len(body);
            let unpacked = response::snappy_decompressed(body);
            &&& found is Ok <==> declared is Ok && declared->Ok_0 <= limits.max_body_bytes
                && unpacked is Ok
            &&& found is Ok ==> found->Ok_0 == unpacked->Ok_0
        }),
{
    reveal_strlit("identity");
    reveal_strlit("snappy");
    reading::lemma_same_but_case(given, "snappy"@);
    reading::lemma_same_but_case(given, "identity"@);
}

/// A body that says it is encoded in any other way is refused.
pub proof fn lemma_other_body_refused(limits: RemoteReadLimits, given: Seq<char>, body: Seq<u8>)
    requires
        !says(given, "identity"@),
        !says(given, "snappy"@),
    ensures
        decode::decoded_body(limits, Some(given), body) == Err::<Seq<u8>, Seq<char>>(
            "unsupported remote-read content-encoding"@,
        ),
{
    reading::lemma_same_but_case(given, "snappy"@);
    reading::lemma_same_but_case(given, "identity"@);
}

/// The number that bytes say, seven bits each, the first being the lowest.
pub open spec fn number_in(bytes: Seq<u8>) -> int
    decreases bytes.len(),
{
    if bytes.len() == 0 {
        0
    } else {
        bytes[0] as int % 128 + 128 * number_in(bytes.drop_first())
    }
}

/// Whether bytes are one number in sevens: all but the last have their highest bit set.
pub open spec fn is_varint(bytes: Seq<u8>) -> bool {
    &&& bytes.len() > 0
    &&& forall|i: int| 0 <= i < bytes.len() - 1 ==> #[trigger] bytes[i] >= 128
    &&& bytes.last() < 128
}

/// A number is written in sevens of bits, the lowest first, in no more bytes than it needs.
pub proof fn lemma_number_written(value: nat)
    ensures
        is_varint(wire::varint_bytes(value)),
        number_in(wire::varint_bytes(value)) == value,
        wire::varint_bytes(value).len() > 1 ==> wire::varint_bytes(value).last() > 0,
    decreases value,
{
    reveal_with_fuel(number_in, 2);
    let bytes = wire::varint_bytes(value);
    if value < 128 {
        assert(bytes.drop_first() =~= Seq::empty());
    } else {
        let rest = wire::varint_bytes(value / 128);
        lemma_number_written(value / 128);
        assert(bytes.drop_first() =~= rest);
        assert(bytes.last() == rest.last());
        assert(bytes[0] as int % 128 == value % 128);
        assert forall|i: int| 0 <= i < bytes.len() - 1 implies #[trigger] bytes[i] >= 128 by {
            if i > 0 {
                assert(bytes[i] == rest[i - 1]);
            }
        }
    }
}

proof fn lemma_number_read_from(bytes: Seq<u8>, cursor: int, place: nat)
    requires
        place <= 10,
    ensures
        wire::varint_from(bytes, cursor, place) matches Ok((value, next)) ==> 0 <= cursor < next
            <= bytes.len() && next - cursor <= 10 - place && is_varint(
            bytes.subrange(cursor, next),
        ) && value == number_in(bytes.subrange(cursor, next)),
    decreases 10 - place,
{
    reveal_with_fuel(number_in, 2);
    if place < 10 && 0 <= cursor < bytes.len() {
        lemma_number_read_from(bytes, cursor + 1, place + 1);
        if let Ok((value, next)) = wire::varint_from(bytes, cursor, place) {
            let own = bytes.subrange(cursor, next);
            if bytes[cursor] < 128 {
                assert(own.drop_first() =~= Seq::empty());
            } else {
                let rest = bytes.subrange(cursor + 1, next);
                assert(own.drop_first() =~= rest);
                assert(own.last() == rest.last());
                assert forall|i: int| 0 <= i < own.len() - 1 implies #[trigger] own[i] >= 128 by {
                    if i > 0 {
                        assert(own[i] == rest[i - 1]);
                    }
                }
            }
        }
    }
}

/// A number that is read is the one that the bytes there say in sevens of bits, ten at most.
pub proof fn lemma_number_read(bytes: Seq<u8>, cursor: int)
    ensures
        wire::varint_at(bytes, cursor) matches Ok((value, next)) ==> 0 <= cursor < next
            <= bytes.len() && next - cursor <= 10 && is_varint(bytes.subrange(cursor, next))
            && value == number_in(bytes.subrange(cursor, next)),
{
    lemma_number_read_from(bytes, cursor, 0);
}

/// A query result stands in a response behind the byte of its field and its length in sevens of
/// bits.
pub proof fn lemma_result_framed(message: Seq<u8>)
    ensures
        ({
            let frame = response::result_frame(message);
            let len = frame.len() - 1 - message.len();
            &&& len > 0
            &&& frame[0] == 0x0a
            &&& is_varint(frame.subrange(1, 1 + len))
            &&& number_in(frame.subrange(1, 1 + len)) == message.len()
            &&& frame.skip(1 + len) == message
        }),
{
    let frame = response::result_frame(message);
    let written = wire::varint_bytes(message.len());
    lemma_number_written(message.len());
    assert(frame.subrange(1, 1 + written.len() as int) =~= written);
    assert(frame.skip(1 + written.len() as int) =~= message);
}

/// A field that is read has the number and the kind that the bytes at its place say together, the
/// kind in the lowest three bits, and what follows is its own: a number, eight bytes, as many bytes
/// as a number there says, or four.
pub proof fn lemma_field_read(bytes: Seq<u8>, cursor: int) -> (at: (int, int))
    requires
        wire::field_at(bytes, cursor) is Ok,
    ensures
        ({
            let (field, end) = wire::field_at(bytes, cursor)->Ok_0;
            let (body, start) = at;
            let key = number_in(bytes.subrange(cursor, body));
            &&& 0 <= cursor < body <= start <= end <= bytes.len()
            &&& is_varint(bytes.subrange(cursor, body))
            &&& field.number > 0
            &&& field.number == key / 8 || key / 8 > u32::MAX && field.number == u32::MAX
            &&& field.wire_type == key % 8
            &&& match field.wire_type {
                0 => is_varint(bytes.subrange(body, end)) && field.payload.len() == 0,
                1 => end == body + 8 && field.payload.len() == 0,
                2 => is_varint(bytes.subrange(body, start)) && end - start == number_in(
                    bytes.subrange(body, start),
                ) && field.payload == bytes.subrange(start, end),
                5 => end == body + 4 && field.payload.len() == 0,
                _ => false,
            }
        }),
{
    lemma_number_read(bytes, cursor);
    let (key, body) = wire::varint_at(bytes, cursor)->Ok_0;
    lemma_number_read(bytes, body);
    if key % 8 == 2 {
        (body, wire::varint_at(bytes, body)->Ok_0.1)
    } else {
        (body, body)
    }
}

/// A response says that it is a packed one of the format, in the version of the protocol.
pub proof fn lemma_response_headers_given()
    ensures
        response::response_headers().len() == 3,
        response::response_headers().contains(("Content-Type"@, "application/x-protobuf"@)),
        response::response_headers().contains(("Content-Encoding"@, "snappy"@)),
        response::response_headers().contains(("X-Prometheus-Remote-Read-Version"@, "0.1.0"@)),
{
    let headers = response::response_headers();
    assert(headers[0] == ("Content-Type"@, "application/x-protobuf"@));
    assert(headers[1] == ("Content-Encoding"@, "snappy"@));
    assert(headers[2] == ("X-Prometheus-Remote-Read-Version"@, "0.1.0"@));
}

/// The room that is asked for a query result in a response is what it takes there.
pub proof fn lemma_result_takes_its_room(message: Seq<u8>)
    ensures
        response::frame_len(message.len()) == response::result_frame(message).len(),
{
}

proof fn lemma_leading_number(bytes: Seq<u8>, most: nat) -> (len: int)
    requires
        response::leading_number(bytes, most) is Some,
    ensures
        0 < len <= most,
        len <= bytes.len(),
        is_varint(bytes.take(len)),
        response::leading_number(bytes, most) == Some(number_in(bytes.take(len)) as nat),
        number_in(bytes.take(len)) >= 0,
    decreases most,
{
    reveal_with_fuel(number_in, 2);
    if bytes[0] < 128 {
        assert(bytes.take(1).drop_first() =~= Seq::empty());
        1
    } else {
        let rest = bytes.skip(1);
        let len = lemma_leading_number(rest, (most - 1) as nat);
        let own = bytes.take(len + 1);
        assert(own.drop_first() =~= rest.take(len));
        assert(own.last() == rest.take(len).last());
        assert forall|i: int| 0 <= i < own.len() - 1 implies #[trigger] own[i] >= 128 by {
            if i > 0 {
                assert(own[i] == rest.take(len)[i - 1]);
            }
        }
        len + 1
    }
}

/// The length that a packed body declares is the number in sevens of bits that it begins with, five
/// bytes at most.
pub proof fn lemma_declared_length_read(body: Seq<u8>) -> (len: int)
    requires
        response::snappy_declared_len(body) is Ok,
        body.len() > 0,
    ensures
        0 < len <= 5,
        len <= body.len(),
        is_varint(body.take(len)),
        response::snappy_declared_len(body)->Ok_0 == number_in(body.take(len)),
{
    lemma_leading_number(body, 5)
}

/// Whether a field of a matcher is a name or a value.
pub open spec fn is_text(field: Field) -> bool {
    field.wire_type == 2 && (field.number == 2 || field.number == 3)
}

/// The bytes of the names and values among fields.
pub open spec fn text_sum(fields: Seq<Field>) -> nat
    decreases fields.len(),
{
    if fields.len() == 0 {
        0
    } else {
        (if is_text(fields[0]) {
            fields[0].payload.len()
        } else {
            0
        }) + text_sum(fields.drop_first())
    }
}

/// The bytes of the names and values of the matchers among fields.
pub open spec fn matchers_sum(fields: Seq<Field>) -> nat
    decreases fields.len(),
{
    if fields.len() == 0 {
        0
    } else {
        (if laws::is_matcher(fields[0]) {
            text_sum(wire::fields_of(fields[0].payload).0)
        } else {
            0
        }) + matchers_sum(fields.drop_first())
    }
}

/// The number of the matchers among fields.
pub open spec fn matchers_in(fields: Seq<Field>) -> nat
    decreases fields.len(),
{
    if fields.len() == 0 {
        0
    } else {
        (if laws::is_matcher(fields[0]) {
            1nat
        } else {
            0nat
        }) + matchers_in(fields.drop_first())
    }
}

/// Whether the fields of a matcher can be read whole, its name and value are not too long, and they
/// are texts.
#[verifier::opaque]
pub open spec fn matcher_fine(limits: RemoteReadLimits, bytes: Seq<u8>) -> bool {
    let fields = wire::fields_of(bytes);
    fields.1 is None && forall|i: int|
        0 <= i < fields.0.len() ==> text_fine(limits, #[trigger] fields.0[i])
}

/// Whether a field of a matcher, if it is a name or a value, is a text that is not too long.
pub open spec fn text_fine(limits: RemoteReadLimits, field: Field) -> bool {
    is_text(field) ==> {
        &&& valid_utf8(field.payload)
        &&& field.number == 2 ==> field.payload.len() <= limits.max_matcher_name_bytes
        &&& field.number == 3 ==> field.payload.len() <= limits.max_matcher_value_bytes
    }
}

/// Whether the hints of a query can be read whole and what they say in texts are texts.
#[verifier::opaque]
pub open spec fn hints_fine(bytes: Seq<u8>) -> bool {
    let fields = wire::fields_of(bytes);
    fields.1 is None && forall|i: int|
        0 <= i < fields.0.len() ==> hint_fine(#[trigger] fields.0[i])
}

/// Whether a field of the hints, if it is a text, is one.
pub open spec fn hint_fine(field: Field) -> bool {
    field.wire_type == 2 && (field.number == 2 || field.number == 5) ==> valid_utf8(field.payload)
}

/// Whether a field of a query, if it is a matcher or holds hints, is fine.
pub open spec fn query_field_fine(limits: RemoteReadLimits, field: Field) -> bool {
    &&& laws::is_matcher(field) ==> matcher_fine(limits, field.payload)
    &&& field.wire_type == 2 && field.number == 4 ==> hints_fine(field.payload)
}

/// Whether a query can be read whole, has no more matchers than it may, each fine, no more bytes in
/// their names and values together than it may, and fine hints.
#[verifier::opaque]
pub open spec fn query_fine(limits: RemoteReadLimits, bytes: Seq<u8>) -> bool {
    let fields = wire::fields_of(bytes);
    &&& fields.1 is None
    &&& matchers_in(fields.0) <= limits.max_matchers
    &&& matchers_sum(fields.0) <= limits.max_selection_matcher_bytes
    &&& forall|i: int|
        0 <= i < fields.0.len() ==> query_field_fine(limits, #[trigger] fields.0[i])
}

/// Whether bytes from a place on are numbers one behind the other.
pub open spec fn numbers_whole(bytes: Seq<u8>, cursor: int) -> bool
    decreases bytes.len() - cursor,
{
    if cursor >= bytes.len() {
        true
    } else {
        proof {
            wire::lemma_varint_bounds(bytes, cursor, 0);
        }
        match wire::varint_at(bytes, cursor) {
            Err(_) => false,
            Ok((_, next)) => numbers_whole(bytes, next),
        }
    }
}

/// Whether a field of a request, if it is a query or holds response types, is fine.
pub open spec fn request_field_fine(limits: RemoteReadLimits, field: Field) -> bool {
    &&& field.wire_type == 2 && field.number == 1 ==> query_fine(limits, field.payload)
    &&& field.wire_type == 2 && field.number == 2 ==> numbers_whole(field.payload, 0)
}

proof fn lemma_matcher_rest(
    limits: RemoteReadLimits,
    query_index: usize,
    matcher_index: usize,
    state: (u64, usize),
    fields: (Seq<Field>, Option<Seq<char>>),
)
    requires
        state.1 <= limits.max_selection_matcher_bytes,
        limits.max_selection_matcher_bytes < usize::MAX,
    ensures
        scan::matcher_rest(limits, query_index, matcher_index, state, fields) is Ok <==> fields.1
            is None && state.1 + text_sum(fields.0) <= limits.max_selection_matcher_bytes
            && forall|i: int| 0 <= i < fields.0.len() ==> text_fine(limits, #[trigger] fields.0[i]),
        scan::matcher_rest(limits, query_index, matcher_index, state, fields) matches Ok(after)
            ==> after.1 == state.1 + text_sum(fields.0),
    decreases fields.0.len(),
{
    if fields.0.len() > 0 {
        let first = fields.0[0];
        let rest = fields.0.drop_first();
        match scan::matcher_step(limits, query_index, matcher_index, state, first) {
            Ok(next) => {
                lemma_matcher_rest(limits, query_index, matcher_index, next, (rest, fields.1));
                assert(text_fine(limits, first));
                lemma_fine_from_front(fields.0, |field: Field| text_fine(limits, field));
            },
            Err(_) => {
                assert(!text_fine(limits, first) || state.1 + text_sum(fields.0)
                    > limits.max_selection_matcher_bytes);
            },
        }
    }
}

/// What holds of the first and of the rest holds of all.
proof fn lemma_fine_from_front(fields: Seq<Field>, fine: spec_fn(Field) -> bool)
    requires
        fields.len() > 0,
        fine(fields[0]),
    ensures
        (forall|i: int| 0 <= i < fields.len() ==> fine(#[trigger] fields[i])) <==> (forall|i: int|
            0 <= i < fields.drop_first().len() ==> fine(#[trigger] fields.drop_first()[i])),
{
    let rest = fields.drop_first();
    if forall|i: int| 0 <= i < rest.len() ==> fine(#[trigger] rest[i]) {
        assert forall|i: int| 0 <= i < fields.len() implies fine(#[trigger] fields[i]) by {
            if i > 0 {
                assert(rest[i - 1] == fields[i]);
            }
        }
    }
    if forall|i: int| 0 <= i < fields.len() ==> fine(#[trigger] fields[i]) {
        assert forall|i: int| 0 <= i < rest.len() implies fine(#[trigger] rest[i]) by {
            assert(rest[i] == fields[i + 1]);
        }
    }
}

proof fn lemma_hints_rest(state: (u64, usize), fields: (Seq<Field>, Option<Seq<char>>))
    ensures
        scan::hints_rest(state, fields) is Ok <==> fields.1 is None && forall|i: int|
            0 <= i < fields.0.len() ==> hint_fine(#[trigger] fields.0[i]),
    decreases fields.0.len(),
{
    if fields.0.len() > 0 {
        let first = fields.0[0];
        match scan::hints_step(state, first) {
            Ok(next) => {
                lemma_hints_rest(next, (fields.0.drop_first(), fields.1));
                lemma_fine_from_front(fields.0, |field: Field| hint_fine(field));
            },
            Err(_) => {
                assert(!hint_fine(first));
            },
        }
    }
}

proof fn lemma_query_rest(
    limits: RemoteReadLimits,
    query_index: usize,
    state: QueryScan,
    fields: (Seq<Field>, Option<Seq<char>>),
)
    requires
        state.matcher_bytes <= limits.max_selection_matcher_bytes,
        limits.max_selection_matcher_bytes < usize::MAX,
        state.matchers <= limits.max_matchers,
        limits.max_matchers < usize::MAX,
    ensures
        scan::query_rest(limits, query_index, state, fields) is Ok <==> fields.1 is None
            && state.matchers + matchers_in(fields.0) <= limits.max_matchers && state.matcher_bytes
            + matchers_sum(fields.0) <= limits.max_selection_matcher_bytes && forall|i: int|
            0 <= i < fields.0.len() ==> query_field_fine(limits, #[trigger] fields.0[i]),
    decreases fields.0.len(),
{
    if fields.0.len() > 0 {
        let first = fields.0[0];
        let rest = fields.0.drop_first();
        assert(matchers_in(rest) >= 0);
        if laws::is_matcher(first) {
            reveal(matcher_fine);
            lemma_matcher_rest(
                limits,
                query_index,
                state.matchers,
                (0, state.matcher_bytes),
                wire::fields_of(first.payload),
            );
        } else if first.wire_type == 2 && first.number == 4 {
            reveal(hints_fine);
            lemma_hints_rest((0, 0), wire::fields_of(first.payload));
        }
        match scan::query_step(limits, query_index, state, first) {
            Ok(next) => {
                lemma_query_rest(limits, query_index, next, (rest, fields.1));
                assert(query_field_fine(limits, first));
                lemma_fine_from_front(fields.0, |field: Field| query_field_fine(limits, field));
            },
            Err(_) => {
                assert(!query_field_fine(limits, first) || state.matchers + matchers_in(fields.0)
                    > limits.max_matchers || state.matcher_bytes + matchers_sum(fields.0)
                    > limits.max_selection_matcher_bytes);
            },
        }
    }
}

proof fn lemma_numbers_whole(bytes: Seq<u8>, cursor: int, count: usize)
    ensures
        scan::packed_count(bytes, cursor, count) is Ok <==> numbers_whole(bytes, cursor),
    decreases bytes.len() - cursor,
{
    if cursor < bytes.len() {
        wire::lemma_varint_bounds(bytes, cursor, 0);
        if let Ok((_, next)) = wire::varint_at(bytes, cursor) {
            lemma_numbers_whole(bytes, next, sizes::sat_size(count + 1));
        }
    }
}

proof fn lemma_request_rest(
    limits: RemoteReadLimits,
    state: RequestScan,
    fields: (Seq<Field>, Option<Seq<char>>),
)
    requires
        limits.max_selection_matcher_bytes < usize::MAX,
        limits.max_matchers < usize::MAX,
    ensures
        scan::request_rest(limits, state, fields) is Ok <==> fields.1 is None && forall|i: int|
            0 <= i < fields.0.len() ==> request_field_fine(limits, #[trigger] fields.0[i]),
    decreases fields.0.len(),
{
    if fields.0.len() > 0 {
        let first = fields.0[0];
        if first.wire_type == 2 && first.number == 1 {
            reveal(query_fine);
            lemma_query_rest(
                limits,
                state.queries,
                QueryScan { matchers: 0, matcher_bytes: 0, heap: 0 },
                wire::fields_of(first.payload),
            );
        } else if first.wire_type == 2 && first.number == 2 {
            lemma_numbers_whole(first.payload, 0, state.responses);
        }
        match scan::request_step(limits, state, first) {
            Ok(next) => {
                lemma_request_rest(limits, next, (fields.0.drop_first(), fields.1));
                assert(request_field_fine(limits, first));
                lemma_fine_from_front(fields.0, |field: Field| request_field_fine(limits, field));
            },
            Err(_) => {
                assert(!request_field_fine(limits, first));
            },
        }
    }
}

/// The scan lets a request through exactly where it can be read whole and its queries and response
/// types are fine.
pub proof fn lemma_request_let_through(limits: RemoteReadLimits, bytes: Seq<u8>)
    requires
        limits.max_selection_matcher_bytes < usize::MAX,
        limits.max_matchers < usize::MAX,
    ensures
        scan::request_scan(limits, bytes) is Ok <==> wire::fields_of(bytes).1 is None && forall|
            i: int,
        |
            0 <= i < wire::fields_of(bytes).0.len() ==> request_field_fine(
                limits,
                #[trigger] wire::fields_of(bytes).0[i],
            ),
{
    lemma_request_rest(
        limits,
        RequestScan { queries: 0, responses: 0, heap: 0 },
        wire::fields_of(bytes),
    );
}

/// The response types that a request asks for are taken exactly where each is the plain one.
pub proof fn lemma_response_types_taken(kinds: Seq<i32>)
    ensures
        errors::response_types_problem(kinds) is None <==> forall|i: int|
            0 <= i < kinds.len() ==> #[trigger] kinds[i] == 0,
    decreases kinds.len(),
{
    if kinds.len() > 0 {
        let rest = kinds.drop_first();
        lemma_response_types_taken(rest);
        if errors::response_types_problem(kinds) is None {
            assert forall|i: int| 0 <= i < kinds.len() implies #[trigger] kinds[i] == 0 by {
                if i > 0 {
                    assert(rest[i - 1] == kinds[i]);
                }
            }
        }
        if forall|i: int| 0 <= i < kinds.len() ==> #[trigger] kinds[i] == 0 {
            assert forall|i: int| 0 <= i < rest.len() implies #[trigger] rest[i] == 0 by {
                assert(rest[i] == kinds[i + 1]);
            }
            assert(kinds[0] == 0);
        }
    }
}

/// Whether an answer carries a text as far as it has room for it.
pub open spec fn carries(answer: ErrorAnswerView, limits: RemoteReadLimits, said: Seq<char>) -> bool {
    answer.text == text::clipped(said, limits.max_diagnostic_bytes as nat)
}

/// What the query budget refuses is answered by whose limit it was: a limit that queries share asks
/// for another try in a second, a limit of the query itself does not; limits that make no sense are
/// the caller's, a stop is not.
pub proof fn lemma_budget_refusal_answered(
    limits: RemoteReadLimits,
    error: QueryBudgetError,
    described: Seq<char>,
)
    ensures
        ({
            let answer = errors::budget_answer(limits, error, described);
            match error {
                QueryBudgetError::LimitExceeded(exceeded) => {
                    let shared = exceeded.reason is ConcurrentQueries || exceeded.reason
                        is SharedMemoryBytes;
                    &&& answer.status == if shared {
                        429u16
                    } else {
                        413u16
                    }
                    &&& answer.retry_after is Some <==> shared
                    &&& answer.retry_after matches Some(secs) ==> secs == 1
                    &&& answer.error_code == Some("query_limit_"@ + exceeded.reason.name_text())
                    &&& carries(answer, limits, described)
                },
                QueryBudgetError::InvalidLimits(_) => answer.status == 400 && answer.retry_after
                    is None && answer.error_code == Some("invalid_query_limits"@) && carries(
                    answer,
                    limits,
                    described,
                ),
                QueryBudgetError::Cancelled => answer.status == 503 && answer.retry_after is None
                    && answer.error_code == Some("query_cancelled"@) && carries(
                    answer,
                    limits,
                    described,
                ),
                QueryBudgetError::DeadlineExceeded => answer.status == 503 && answer.retry_after
                    is None && answer.error_code == Some("query_deadline_exceeded"@) && carries(
                    answer,
                    limits,
                    described,
                ),
                QueryBudgetError::Failed(_) => answer.status == 500 && answer.retry_after is None
                    && answer.error_code is None && answer.text == "query failed"@,
            }
        }),
{
}

/// A failed query is answered with 400 where the request was wrong, with 503 where the storage is
/// not there for now, and else with 500; only what the request said wrong and what failed inside is
/// told, and of the storage no more than what was being done.
pub proof fn lemma_failed_query_answered(
    limits: RemoteReadLimits,
    error: RemoteReadQueryError,
    described: Seq<char>,
)
    ensures
        ({
            let answer = errors::query_answer(limits, error, described);
            match error {
                RemoteReadQueryError::InvalidRequest(message) => answer.status == 400 && carries(
                    answer,
                    limits,
                    message@,
                ) && answer.error_code is None && answer.retry_after is None,
                RemoteReadQueryError::Internal(message) => answer.status == 500 && carries(
                    answer,
                    limits,
                    message@,
                ) && answer.error_code is None && answer.retry_after is None,
                RemoteReadQueryError::Budget(refusal) => answer == errors::budget_answer(
                    limits,
                    refusal,
                    described,
                ),
                RemoteReadQueryError::Storage {
                    error: StorageError::QueryBudget(refusal),
                    ..
                } => answer == errors::budget_answer(limits, refusal, described),
                RemoteReadQueryError::Storage { context, error: failure } => {
                    let asked_wrong = failure is InvalidTimeRange || failure is MetricRequired
                        || failure is InvalidMetricName || failure is InvalidLabel || failure
                        is InvalidConfiguration;
                    let away = failure is StorageShuttingDown || failure is StorageClosed || failure
                        is LifecycleTimeout || failure is ChannelTimeout;
                    &&& answer.error_code is None
                    &&& answer.retry_after is None
                    &&& asked_wrong ==> answer.status == 400 && answer.text == context@ + ": "@
                        + "invalid remote-read query"@
                    &&& away ==> answer.status == 503 && answer.text == context@ + ": "@
                        + "remote-read storage unavailable"@
                    &&& !asked_wrong && !away ==> answer.status == 500 && answer.text == context@
                        + ": "@ + "remote-read storage failure"@
                },
            }
        }),
{
}

/// A read over the cluster that fails is answered by why it failed.
pub proof fn lemma_failed_fanout_answered(
    limits: RemoteReadLimits,
    error: ReadFanoutError,
    described: Seq<char>,
)
    ensures
        ({
            let answer = errors::fanout_answer(limits, error, described);
            match error {
                ReadFanoutError::QueryBudget { error: refusal } => answer == errors::budget_answer(
                    limits,
                    refusal,
                    described,
                ),
                ReadFanoutError::InvalidRequest { .. } => answer.status == 400 && answer.error_code
                    is None && answer.retry_after is None,
                ReadFanoutError::MergeLimitExceeded => answer.status == 413 && answer.error_code
                    == Some("read_merge_limit_exceeded"@) && answer.retry_after is None,
                ReadFanoutError::ResourceLimitExceeded { retryable } => {
                    &&& answer.status == if retryable {
                        429u16
                    } else {
                        413u16
                    }
                    &&& answer.retry_after is Some <==> retryable
                    &&& retryable ==> answer.retry_after->0 == 1 && answer.error_code == Some(
                        "read_overloaded"@,
                    )
                    &&& !retryable ==> answer.error_code == Some("read_resource_limit_exceeded"@)
                },
                ReadFanoutError::ConsistencyUnmet { strict } => {
                    &&& answer.status == if strict {
                        409u16
                    } else {
                        503u16
                    }
                    &&& answer.retry_after is None
                    &&& answer.error_code == Some(
                        if strict {
                            "strict_consistency_unmet"@
                        } else {
                            "read_consistency_unmet"@
                        },
                    )
                },
                ReadFanoutError::Failed { retryable } => {
                    &&& answer.status == if retryable {
                        503u16
                    } else {
                        500u16
                    }
                    &&& answer.error_code is None
                    &&& answer.retry_after is None
                },
            }
        }),
{
}

/// Whether a step is the one after another that passed, in a request with so many queries: the
/// tenant, the budget, the request itself, quota and admission for as many units as there are
/// queries but one at least, the cluster where the read is distributed, then every query in its
/// turn, then the response.
pub open spec fn comes_next(step: ReadStep, next: ReadStep, queries: nat, distributed: bool) -> bool {
    let units: nat = if queries == 0 {
        1
    } else {
        queries
    };
    match step {
        ReadStep::ResolveTenant => next is PrepareTenant,
        ReadStep::PrepareTenant => next is BeginExecution,
        ReadStep::BeginExecution => next matches ReadStep::ReserveDiagnostics(bytes) && bytes
            == 4096,
        ReadStep::ReserveDiagnostics(_) => next is Decode,
        ReadStep::Decode => next is Checkpoint,
        ReadStep::Checkpoint => next matches ReadStep::EnforceQuota(asked) && asked == queries,
        ReadStep::EnforceQuota(_) => next matches ReadStep::AdmitTenant(asked) && asked == units,
        ReadStep::AdmitTenant(_) => next matches ReadStep::AdmitRead(asked) && asked == units,
        ReadStep::AdmitRead(_) => if distributed {
            next is ResolveFanout
        } else {
            next is OpenEncoder
        },
        ReadStep::ResolveFanout => next is ApplyPolicies,
        ReadStep::ApplyPolicies => next matches ReadStep::ReserveMetadata(bytes) && bytes == 0,
        ReadStep::ReserveMetadata(_) => next is OpenEncoder,
        ReadStep::OpenEncoder => if queries > 0 {
            next matches ReadStep::RunQuery(at) && at == 0
        } else {
            next is Compress
        },
        ReadStep::RunQuery(i) => if i + 1 < queries {
            next matches ReadStep::RunQuery(at) && at == i + 1
        } else {
            next is Compress
        },
        _ => next is Finished,
    }
}

/// A request goes through its steps one after the other. One that asks for another response than
/// the plain one is answered with 400 as soon as it was decoded and the budget let it go on; a step
/// that fails ends it with that failure's answer; after the last step it is answered for all of its
/// queries.
pub proof fn lemma_request_goes_through_steps(
    session: RemoteReadSession,
    limits: RemoteReadLimits,
    event: ReadEvent,
    after: RemoteReadSession,
    action: ReadAction,
)
    requires
        session.well_formed(),
        session.fits(event),
        session.leads_to(limits, event, after, action),
        session.queries() <= usize::MAX,
    ensures
        after.distributed == session.distributed,
        event matches ReadEvent::Decoded(request) ==> after.request == Some(request),
        !(event is Decoded) ==> after.request == session.request,
        !(event is Passed) && !(event is Decoded) ==> after.step is Finished && action is Answer,
        event is Passed || event is Decoded ==> {
            let wrong = session.step is Checkpoint && (session.request matches Some(request)
                && exists|i: int|
                0 <= i < request.accepted_response_types@.len()
                    && #[trigger] request.accepted_response_types@[i] != 0);
            &&& wrong ==> after.step is Finished && (action matches ReadAction::Answer {
                answer,
                record,
            } && answer.status == 400 && record is None)
            &&& !wrong ==> comes_next(
                session.step,
                after.step,
                session.queries(),
                session.distributed,
            )
            &&& !wrong && !(session.step is Compress) ==> action == ReadAction::Do(after.step)
            &&& session.step is Compress ==> (action matches ReadAction::Respond {
                queries,
                usage_units,
                read_metadata,
            } && queries == session.queries() && usage_units == (if session.queries() == 0 {
                1
            } else {
                session.queries() as int
            }) && read_metadata == session.distributed)
        },
{
    if let Some(request) = session.request {
        lemma_response_types_taken(request.accepted_response_types@);
    }
}

} // verus!
