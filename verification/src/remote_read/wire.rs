//! The protobuf wire format: varints, keys and fields.

use vstd::prelude::*;
use vstd::slice::*;

use crate::text;

verus! {

/// The largest number that the varint bytes from a place on can add: the tenth byte holds one bit,
/// every other byte seven.
pub open spec fn room(place: nat) -> nat
    decreases 10 - place,
{
    if place >= 10 {
        0
    } else if place == 9 {
        1
    } else {
        127 + 128 * room(place + 1)
    }
}

/// The number that the varint bytes from a place on stand for, and where they end; the first byte
/// holds the lowest seven bits.
pub open spec fn varint_from(bytes: Seq<u8>, cursor: int, place: nat) -> Result<
    (nat, int),
    Seq<char>,
>
    decreases 10 - place,
{
    if place >= 10 {
        Err("protobuf varint overflow"@)
    } else if !(0 <= cursor < bytes.len()) {
        Err("truncated protobuf varint"@)
    } else if place == 9 && bytes[cursor] > 1 {
        Err("protobuf varint overflow"@)
    } else if bytes[cursor] < 128 {
        Ok((bytes[cursor] as nat, cursor + 1))
    } else {
        match varint_from(bytes, cursor + 1, place + 1) {
            Ok((rest, next)) => Ok(((bytes[cursor] - 128) as nat + 128 * rest, next)),
            Err(message) => Err(message),
        }
    }
}

/// The varint at a place, and where it ends.
pub open spec fn varint_at(bytes: Seq<u8>, cursor: int) -> Result<(nat, int), Seq<char>> {
    varint_from(bytes, cursor, 0)
}

/// A varint ends after it begins and within the bytes, and fits in its room.
pub proof fn lemma_varint_bounds(bytes: Seq<u8>, cursor: int, place: nat)
    ensures
        varint_from(bytes, cursor, place) matches Ok((value, next)) ==> value <= room(place)
            && cursor < next <= bytes.len(),
    decreases 10 - place,
{
    if place < 10 && 0 <= cursor < bytes.len() {
        lemma_varint_bounds(bytes, cursor + 1, place + 1);
    }
}

/// The room of a whole varint is that of a 64-bit number.
pub proof fn lemma_room()
    ensures
        room(0) == u64::MAX,
        forall|place: nat| 0 < place < 10 ==> 128 * #[trigger] room(place) + 127 <= u64::MAX,
{
    reveal_with_fuel(room, 11);
    assert forall|place: nat| 0 < place < 10 implies 128 * #[trigger] room(place) + 127
        <= u64::MAX by {
        assert(place == 1 || place == 2 || place == 3 || place == 4 || place == 5 || place == 6
            || place == 7 || place == 8 || place == 9);
    }
}

fn read_varint_rest(bytes: &[u8], cursor: usize, place: u32) -> (read: Result<
    (u64, usize),
    &'static str,
>)
    requires
        place <= 10,
    ensures
        match varint_from(bytes@, cursor as int, place as nat) {
            Ok((value, next)) => read == Ok::<(u64, usize), &'static str>(
                (value as u64, next as usize),
            ) && value <= u64::MAX && next <= usize::MAX,
            Err(message) => read matches Err(text) && text@ == message,
        },
    decreases 10 - place,
{
    proof {
        lemma_varint_bounds(bytes@, cursor as int, place as nat);
        lemma_varint_bounds(bytes@, cursor as int + 1, place as nat + 1);
        lemma_room();
    }
    if place >= 10 {
        return Err("protobuf varint overflow");
    }
    if cursor >= bytes.len() {
        return Err("truncated protobuf varint");
    }
    let byte: u8 = bytes[cursor];
    if place == 9 && byte > 1 {
        return Err("protobuf varint overflow");
    }
    if byte < 128 {
        return Ok((byte as u64, cursor + 1));
    }
    match read_varint_rest(bytes, cursor + 1, place + 1) {
        Err(message) => Err(message),
        Ok((rest, next)) => {
            proof {
                assert(rest <= room(place as nat + 1));
                assert(place + 1 < 10 ==> 128 * room(place as nat + 1) + 127 <= u64::MAX);
            }
            Ok(((byte - 128) as u64 + 128 * rest, next))
        },
    }
}

/// Reads the varint at a place, and where it ends.
pub fn read_protobuf_varint(bytes: &[u8], cursor: usize) -> (read: Result<(u64, usize), &'static str>)
    ensures
        match varint_at(bytes@, cursor as int) {
            Ok((value, next)) => read == Ok::<(u64, usize), &'static str>(
                (value as u64, next as usize),
            ) && value <= u64::MAX && cursor < next <= bytes@.len(),
            Err(message) => read matches Err(text) && text@ == message,
        },
{
    proof {
        lemma_varint_bounds(bytes@, cursor as int, 0);
    }
    read_varint_rest(bytes, cursor, 0)
}

/// The number of a field, or the largest where it does not fit.
pub open spec fn field_number(key: nat) -> u32 {
    if key / 8 > u32::MAX {
        u32::MAX
    } else {
        (key / 8) as u32
    }
}

/// A field: its number, how it is written, and what it holds where it is written with its length.
#[verifier::ext_equal]
pub struct Field {
    pub number: u32,
    pub wire_type: u8,
    pub payload: Seq<u8>,
}

/// Where the field that follows a key ends, and what it holds where it is written with its length.
pub open spec fn field_body(bytes: Seq<u8>, cursor: int, wire_type: u8) -> Result<
    (Seq<u8>, int),
    Seq<char>,
> {
    if wire_type == 0 {
        match varint_at(bytes, cursor) {
            Ok((_, next)) => Ok((Seq::empty(), next)),
            Err(message) => Err(message),
        }
    } else if wire_type == 1 {
        if cursor + 8 <= bytes.len() {
            Ok((Seq::empty(), cursor + 8))
        } else {
            Err("truncated fixed64 protobuf field"@)
        }
    } else if wire_type == 2 {
        match varint_at(bytes, cursor) {
            Err(message) => Err(message),
            Ok((len, start)) => if len > usize::MAX {
                Err("protobuf length exceeds this platform"@)
            } else if start + len > usize::MAX {
                Err("protobuf length overflow"@)
            } else if start + len > bytes.len() {
                Err("truncated length-delimited protobuf field"@)
            } else {
                Ok((bytes.subrange(start, start + len), start + len))
            },
        }
    } else if wire_type == 5 {
        if cursor + 4 <= bytes.len() {
            Ok((Seq::empty(), cursor + 4))
        } else {
            Err("truncated fixed32 protobuf field"@)
        }
    } else {
        Err("unsupported protobuf wire type "@ + text::decimal(wire_type as nat))
    }
}

/// The field at a place, and where it ends.
pub open spec fn field_at(bytes: Seq<u8>, cursor: int) -> Result<(Field, int), Seq<char>> {
    match varint_at(bytes, cursor) {
        Err(message) => Err(message),
        Ok((key, next)) => {
            let number = field_number(key);
            let wire_type = (key % 8) as u8;
            if number == 0 {
                Err("protobuf field number zero is invalid"@)
            } else {
                match field_body(bytes, next, wire_type) {
                    Err(message) => Err(message),
                    Ok((payload, end)) => Ok((Field { number, wire_type, payload }, end)),
                }
            }
        },
    }
}

/// A field ends after it begins and within the bytes.
pub proof fn lemma_field_bounds(bytes: Seq<u8>, cursor: int)
    requires
        0 <= cursor,
    ensures
        field_at(bytes, cursor) matches Ok((field, end)) ==> cursor < end <= bytes.len(),
{
    lemma_varint_bounds(bytes, cursor, 0);
    if let Ok((key, next)) = varint_at(bytes, cursor) {
        lemma_varint_bounds(bytes, next, 0);
    }
}

/// The fields from a place on, up to the end or to the first that cannot be read, and what is wrong
/// with that one.
pub open spec fn fields_from(bytes: Seq<u8>, cursor: int) -> (Seq<Field>, Option<Seq<char>>)
    decreases bytes.len() - cursor,
{
    if !(0 <= cursor < bytes.len()) {
        (Seq::empty(), None)
    } else {
        proof {
            lemma_field_bounds(bytes, cursor);
        }
        match field_at(bytes, cursor) {
            Err(message) => (Seq::empty(), Some(message)),
            Ok((field, end)) => {
                let (rest, problem) = fields_from(bytes, end);
                (seq![field] + rest, problem)
            },
        }
    }
}

/// The fields of a message, up to the end or to the first that cannot be read, and what is wrong
/// with that one.
pub open spec fn fields_of(bytes: Seq<u8>) -> (Seq<Field>, Option<Seq<char>>) {
    fields_from(bytes, 0)
}

/// A field that was read: its number, how it is written, where its payload stands, and where it
/// ends.
#[derive(Debug, Clone, Copy, PartialEq, Eq)]
pub struct FieldPlace {
    pub number: u32,
    pub wire_type: u8,
    pub start: usize,
    pub end: usize,
}

impl FieldPlace {
    /// The field that stands there.
    pub open spec fn field(self, bytes: Seq<u8>) -> Field {
        Field {
            number: self.number,
            wire_type: self.wire_type,
            payload: if self.wire_type == 2 {
                bytes.subrange(self.start as int, self.end as int)
            } else {
                Seq::empty()
            },
        }
    }
}

fn own(message: &'static str) -> (owned: String)
    ensures
        owned@ == message@,
{
    text::owned(message)
}

/// Reads the field at a place.
pub fn read_field(bytes: &[u8], cursor: usize) -> (read: Result<FieldPlace, String>)
    ensures
        match field_at(bytes@, cursor as int) {
            Ok((field, end)) => read matches Ok(place) && place.field(bytes@) == field && place.end
                == end && cursor < place.start <= place.end <= bytes@.len(),
            Err(message) => read matches Err(text) && text@ == message,
        },
{
    let (key, next) = match read_protobuf_varint(bytes, cursor) {
        Ok(found) => found,
        Err(message) => {
            return Err(own(message));
        },
    };
    let wide: u64 = key / 8;
    let number: u32 = if wide > 4294967295 {
        u32::MAX
    } else {
        wide as u32
    };
    let wire_type: u8 = (key % 8) as u8;
    if number == 0 {
        return Err(own("protobuf field number zero is invalid"));
    }
    let len = bytes.len();
    if wire_type == 0 {
        match read_protobuf_varint(bytes, next) {
            Ok((_, end)) => Ok(FieldPlace { number, wire_type, start: next, end }),
            Err(message) => Err(own(message)),
        }
    } else if wire_type == 1 {
        if len >= 8 && next <= len - 8 {
            Ok(FieldPlace { number, wire_type, start: next, end: next + 8 })
        } else {
            Err(own("truncated fixed64 protobuf field"))
        }
    } else if wire_type == 2 {
        match read_protobuf_varint(bytes, next) {
            Err(message) => Err(own(message)),
            Ok((size, start)) => {
                if size > usize::MAX as u64 {
                    return Err(own("protobuf length exceeds this platform"));
                }
                match start.checked_add(size as usize) {
                    None => Err(own("protobuf length overflow")),
                    Some(end) => {
                        if end > len {
                            Err(own("truncated length-delimited protobuf field"))
                        } else {
                            Ok(FieldPlace { number, wire_type, start, end })
                        }
                    },
                }
            },
        }
    } else if wire_type == 5 {
        if len >= 4 && next <= len - 4 {
            Ok(FieldPlace { number, wire_type, start: next, end: next + 4 })
        } else {
            Err(own("truncated fixed32 protobuf field"))
        }
    } else {
        Err(
            text::text2(
                "unsupported protobuf wire type ",
                text::format_u64(wire_type as u64).as_str(),
            ),
        )
    }
}

/// The bytes of a number written as a varint.
pub open spec fn varint_bytes(value: nat) -> Seq<u8>
    decreases value,
{
    if value < 128 {
        seq![value as u8]
    } else {
        seq![(value % 128 + 128) as u8] + varint_bytes(value / 128)
    }
}

/// Reading a varint back gives the number that was written, wherever it stands.
pub proof fn lemma_varint_round_trip(before: Seq<u8>, value: nat, after: Seq<u8>, place: nat)
    requires
        value <= room(place),
        place < 10,
    ensures
        varint_from(before + varint_bytes(value) + after, before.len() as int, place) == Ok::<
            (nat, int),
            Seq<char>,
        >((value, (before.len() + varint_bytes(value).len()) as int)),
    decreases value,
{
    let bytes = before + varint_bytes(value) + after;
    let cursor = before.len() as int;
    if value < 128 {
        assert(bytes[cursor] == value as u8);
        if place == 9 {
            assert(room(place) == 1);
        }
    } else {
        let low = (value % 128 + 128) as u8;
        assert(bytes[cursor] == low);
        assert(place < 9) by {
            if place == 9 {
                assert(room(place) == 1);
            }
        }
        assert(value / 128 <= room(place + 1)) by {
            assert(room(place) == 127 + 128 * room(place + 1));
        }
        let longer = before.push(low);
        assert(bytes =~= longer + varint_bytes(value / 128) + after);
        lemma_varint_round_trip(longer, value / 128, after, place + 1);
    }
}

/// The bytes of a field with its length: one byte of key, the length, and what it holds.
pub open spec fn delimited_frame(number: nat, payload: Seq<u8>) -> Seq<u8> {
    seq![(number * 8 + 2) as u8] + varint_bytes(payload.len()) + payload
}

/// A field with its length is read back as it was written, wherever it stands.
pub proof fn lemma_frame_round_trip(before: Seq<u8>, number: nat, payload: Seq<u8>, after: Seq<u8>)
    requires
        0 < number < 16,
        before.len() + delimited_frame(number, payload).len() + after.len() <= usize::MAX,
    ensures
        field_at(before + delimited_frame(number, payload) + after, before.len() as int) == Ok::<
            (Field, int),
            Seq<char>,
        >(
            (
                Field { number: number as u32, wire_type: 2, payload },
                (before.len() + delimited_frame(number, payload).len()) as int,
            ),
        ),
{
    let frame = delimited_frame(number, payload);
    let bytes = before + frame + after;
    let key = (number * 8 + 2) as u8;
    let size = varint_bytes(payload.len());
    lemma_room();
    assert(varint_bytes(key as nat) =~= seq![key]);
    assert(bytes =~= before + varint_bytes(key as nat) + (size + payload + after));
    lemma_varint_round_trip(before, key as nat, size + payload + after, 0);
    let head = before.push(key);
    assert(bytes =~= head + size + (payload + after));
    lemma_varint_round_trip(head, payload.len(), payload + after, 0);
    let start = (head.len() + size.len()) as int;
    assert(bytes.subrange(start, start + payload.len()) =~= payload);
    assert((key as nat) / 8 == number);
    assert((key as nat) % 8 == 2);
}

} // verus!
