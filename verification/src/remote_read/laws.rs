//! What holds of remote reads as a whole.

use vstd::prelude::*;
use vstd::utf8::valid_utf8;

use crate::remote_read::request::RemoteReadLimits;
use crate::remote_read::response;
use crate::remote_read::scan;
use crate::remote_read::scan::QueryScan;
use crate::remote_read::scan::RequestScan;
use crate::remote_read::wire;
use crate::remote_read::wire::Field;
use crate::sizes;

verus! {

/// A response with these query results.
pub open spec fn framed(messages: Seq<Seq<u8>>) -> Seq<u8>
    decreases messages.len(),
{
    if messages.len() == 0 {
        Seq::empty()
    } else {
        framed(messages.drop_last()) + response::result_frame(messages.last())
    }
}

/// Appending a query result to a response with some gives the response with one more.
pub proof fn lemma_append_frames(messages: Seq<Seq<u8>>, message: Seq<u8>)
    ensures
        framed(messages.push(message)) == framed(messages) + response::result_frame(message),
{
    assert(messages.push(message).drop_last() =~= messages);
}

/// The field that a query result is read back as.
pub open spec fn result_field(message: Seq<u8>) -> Field {
    Field { number: 1, wire_type: 2, payload: message }
}

proof fn lemma_frame_not_empty(message: Seq<u8>)
    ensures
        response::result_frame(message).len() > 0,
{
}

proof fn lemma_read_frames_from(messages: Seq<Seq<u8>>, before: Seq<u8>)
    requires
        before.len() + framed(messages).len() <= usize::MAX,
    ensures
        wire::fields_from(before + framed(messages), before.len() as int) == (
            Seq::new(messages.len(), |i: int| result_field(messages[i])),
            None::<Seq<char>>,
        ),
    decreases messages.len(),
{
    let fields = Seq::new(messages.len(), |i: int| result_field(messages[i]));
    if messages.len() == 0 {
        assert(before + framed(messages) =~= before);
        assert(fields =~= Seq::empty());
    } else {
        let first = messages[0];
        let rest = messages.drop_first();
        lemma_framed_first(messages);
        let frame = response::result_frame(first);
        let bytes = before + framed(messages);
        let longer = before + frame;
        assert(bytes =~= longer + framed(rest));
        lemma_read_frames_from(rest, longer);
        assert(bytes =~= before + wire::delimited_frame(1, first) + framed(rest));
        wire::lemma_frame_round_trip(before, 1, first, framed(rest));
        lemma_frame_not_empty(first);
        let read = wire::fields_from(bytes, longer.len() as int);
        assert(wire::field_at(bytes, before.len() as int) == Ok::<(Field, int), Seq<char>>(
            (result_field(first), longer.len() as int),
        ));
        assert(fields =~= seq![result_field(first)] + read.0);
    }
}

proof fn lemma_framed_first(messages: Seq<Seq<u8>>)
    requires
        messages.len() > 0,
    ensures
        framed(messages) == response::result_frame(messages[0]) + framed(messages.drop_first()),
    decreases messages.len(),
{
    let rest = messages.drop_first();
    if messages.len() == 1 {
        assert(messages.drop_last() =~= Seq::empty());
        assert(rest =~= Seq::empty());
        assert(framed(messages) =~= response::result_frame(messages[0]));
        assert(framed(messages) =~= response::result_frame(messages[0]) + framed(rest));
    } else {
        let shorter = messages.drop_last();
        lemma_framed_first(shorter);
        assert(shorter.drop_first() =~= rest.drop_last());
        assert(rest.last() == messages.last());
        assert(framed(messages) =~= response::result_frame(messages[0]) + framed(rest));
    }
}

/// A response is read back as the query results that were appended to it, in their order and
/// nothing else.
pub proof fn lemma_response_read_back(messages: Seq<Seq<u8>>)
    requires
        framed(messages).len() <= usize::MAX,
    ensures
        wire::fields_of(framed(messages)) == (
            Seq::new(messages.len(), |i: int| result_field(messages[i])),
            None::<Seq<char>>,
        ),
{
    assert(Seq::<u8>::empty() + framed(messages) =~= framed(messages));
    lemma_read_frames_from(messages, Seq::empty());
}

/// Whether a field of a matcher is within the limits.
pub open spec fn matcher_field_within(limits: RemoteReadLimits, field: Field) -> bool {
    field.wire_type == 2 ==> {
        &&& field.number == 2 ==> field.payload.len() <= limits.max_matcher_name_bytes
            && valid_utf8(field.payload)
        &&& field.number == 3 ==> field.payload.len() <= limits.max_matcher_value_bytes
            && valid_utf8(field.payload)
    }
}

/// Whether a matcher can be read whole and its name and value are within the limits.
pub open spec fn matcher_within(limits: RemoteReadLimits, bytes: Seq<u8>) -> bool {
    &&& wire::fields_of(bytes).1 is None
    &&& forall|i: int|
        0 <= i < wire::fields_of(bytes).0.len() ==> matcher_field_within(
            limits,
            #[trigger] wire::fields_of(bytes).0[i],
        )
}

proof fn lemma_matcher_rest_within(
    limits: RemoteReadLimits,
    query_index: usize,
    matcher_index: usize,
    state: (u64, usize),
    fields: (Seq<Field>, Option<Seq<char>>),
)
    requires
        scan::matcher_rest(limits, query_index, matcher_index, state, fields) is Ok,
    ensures
        fields.1 is None,
        forall|i: int|
            0 <= i < fields.0.len() ==> matcher_field_within(limits, #[trigger] fields.0[i]),
        scan::matcher_rest(limits, query_index, matcher_index, state, fields)->Ok_0.1 >= state.1,
        state.1 <= limits.max_selection_matcher_bytes ==> scan::matcher_rest(
            limits,
            query_index,
            matcher_index,
            state,
            fields,
        )->Ok_0.1 <= limits.max_selection_matcher_bytes,
    decreases fields.0.len(),
{
    if fields.0.len() > 0 {
        let step = scan::matcher_step(limits, query_index, matcher_index, state, fields.0[0]);
        let rest = (fields.0.drop_first(), fields.1);
        lemma_matcher_rest_within(limits, query_index, matcher_index, step->Ok_0, rest);
        assert forall|i: int| 0 <= i < fields.0.len() implies matcher_field_within(
            limits,
            #[trigger] fields.0[i],
        ) by {
            if i > 0 {
                assert(fields.0[i] == rest.0[i - 1]);
            }
        }
    }
}

/// Whether a field is a matcher of a query.
pub open spec fn is_matcher(field: Field) -> bool {
    field.number == 3 && field.wire_type == 2
}

/// Whether a query can be read whole, has no more matchers than it may, and each is within the
/// limits.
pub open spec fn query_within(limits: RemoteReadLimits, bytes: Seq<u8>) -> bool {
    let fields = wire::fields_of(bytes);
    &&& fields.1 is None
    &&& fields.0.filter(|field: Field| is_matcher(field)).len() <= limits.max_matchers
    &&& forall|i: int|
        0 <= i < fields.0.len() && is_matcher(fields.0[i]) ==> matcher_within(
            limits,
            (#[trigger] fields.0[i]).payload,
        )
}

proof fn lemma_filter_first(fields: Seq<Field>, keep: spec_fn(Field) -> bool)
    requires
        fields.len() > 0,
    ensures
        fields.filter(keep).len() == fields.drop_first().filter(keep).len() + if keep(fields[0]) {
            1int
        } else {
            0int
        },
    decreases fields.len(),
{
    reveal(Seq::filter);
    let rest = fields.drop_first();
    if fields.len() == 1 {
        assert(fields.drop_last() =~= Seq::empty());
        assert(rest =~= Seq::empty());
    } else {
        lemma_filter_first(fields.drop_last(), keep);
        assert(fields.drop_last().drop_first() =~= rest.drop_last());
        assert(rest.last() == fields.last());
    }
}

proof fn lemma_query_rest_within(
    limits: RemoteReadLimits,
    query_index: usize,
    state: QueryScan,
    fields: (Seq<Field>, Option<Seq<char>>),
)
    requires
        scan::query_rest(limits, query_index, state, fields) is Ok,
        state.matchers <= limits.max_matchers,
        limits.max_matchers < usize::MAX,
    ensures
        fields.1 is None,
        state.matchers + fields.0.filter(|field: Field| is_matcher(field)).len()
            <= limits.max_matchers,
        forall|i: int|
            0 <= i < fields.0.len() && is_matcher(fields.0[i]) ==> matcher_within(
                limits,
                (#[trigger] fields.0[i]).payload,
            ),
    decreases fields.0.len(),
{
    let keep = |field: Field| is_matcher(field);
    if fields.0.len() == 0 {
        reveal(Seq::filter);
    } else {
        let first = fields.0[0];
        let step = scan::query_step(limits, query_index, state, first);
        let rest = (fields.0.drop_first(), fields.1);
        lemma_filter_first(fields.0, keep);
        if is_matcher(first) {
            lemma_matcher_rest_within(
                limits,
                query_index,
                (sizes::sat_size(state.matchers + 1) - 1) as usize,
                (0, state.matcher_bytes),
                wire::fields_of(first.payload),
            );
            assert(matcher_within(limits, first.payload));
        }
        lemma_query_rest_within(limits, query_index, step->Ok_0, rest);
        assert forall|i: int|
            0 <= i < fields.0.len() && is_matcher(fields.0[i]) implies matcher_within(
            limits,
            (#[trigger] fields.0[i]).payload,
        ) by {
            if i > 0 {
                assert(fields.0[i] == rest.0[i - 1]);
            }
        }
    }
}

/// Whether a field is a query of a request.
pub open spec fn is_query(field: Field) -> bool {
    field.number == 1 && field.wire_type == 2
}

proof fn lemma_request_rest_within(
    limits: RemoteReadLimits,
    state: RequestScan,
    fields: (Seq<Field>, Option<Seq<char>>),
)
    requires
        scan::request_rest(limits, state, fields) is Ok,
        limits.max_matchers < usize::MAX,
    ensures
        fields.1 is None,
        forall|i: int|
            0 <= i < fields.0.len() && is_query(fields.0[i]) ==> query_within(
                limits,
                (#[trigger] fields.0[i]).payload,
            ),
    decreases fields.0.len(),
{
    if fields.0.len() > 0 {
        let first = fields.0[0];
        let step = scan::request_step(limits, state, first);
        let rest = (fields.0.drop_first(), fields.1);
        if is_query(first) {
            lemma_query_rest_within(
                limits,
                state.queries,
                QueryScan { matchers: 0, matcher_bytes: 0, heap: 0 },
                wire::fields_of(first.payload),
            );
            assert(query_within(limits, first.payload));
        }
        lemma_request_rest_within(limits, step->Ok_0, rest);
        assert forall|i: int|
            0 <= i < fields.0.len() && is_query(fields.0[i]) implies query_within(
            limits,
            (#[trigger] fields.0[i]).payload,
        ) by {
            if i > 0 {
                assert(fields.0[i] == rest.0[i - 1]);
            }
        }
    }
}

/// A request that the scan lets through can be read whole, and every query of it keeps within the
/// limits on the number of its matchers and on their names and values.
pub proof fn lemma_scanned_request_within(limits: RemoteReadLimits, bytes: Seq<u8>)
    requires
        scan::request_scan(limits, bytes) is Ok,
        limits.max_matchers < usize::MAX,
    ensures
        wire::fields_of(bytes).1 is None,
        forall|i: int|
            0 <= i < wire::fields_of(bytes).0.len() && is_query(wire::fields_of(bytes).0[i])
                ==> query_within(limits, (#[trigger] wire::fields_of(bytes).0[i]).payload),
{
    lemma_request_rest_within(
        limits,
        RequestScan { queries: 0, responses: 0, heap: 0 },
        wire::fields_of(bytes),
    );
}

} // verus!
