//! How many bytes the values of a request and its answer are modeled to hold on the heap.

use vstd::layout;
use vstd::prelude::*;

use crate::sizes;
use crate::text;

verus! {

/// What one allocation is counted beyond what it holds.
pub const REMOTE_READ_COLLECTION_ALLOCATION_ALLOWANCE_BYTES: u64 = 64;

/// The bytes of a list with room for a number of items of a size.
pub open spec fn list_bytes(capacity: nat, size: nat) -> u64 {
    if capacity == 0 {
        0
    } else {
        sizes::sat64(capacity * size + REMOTE_READ_COLLECTION_ALLOCATION_ALLOWANCE_BYTES)
    }
}

/// The bytes of an owned text of a length.
pub open spec fn text_bytes(len: nat) -> u64 {
    list_bytes(len, 1)
}

/// The bytes of a list with room for a number of items of a type.
pub fn modeled_vec_capacity_bytes<T>(capacity: usize) -> (bytes: u64)
    ensures
        bytes == list_bytes(capacity as nat, layout::size_of::<T>()),
{
    if capacity == 0 {
        return 0;
    }
    sizes::times64(capacity as u64, core::mem::size_of::<T>() as u64).saturating_add(
        REMOTE_READ_COLLECTION_ALLOCATION_ALLOWANCE_BYTES,
    )
}

/// The bytes of an owned text of a length in bytes.
pub fn modeled_text_bytes(len: usize) -> (bytes: u64)
    ensures
        bytes == text_bytes(len as nat),
{
    if len == 0 {
        0
    } else {
        (len as u64).saturating_add(REMOTE_READ_COLLECTION_ALLOCATION_ALLOWANCE_BYTES)
    }
}

/// The bytes of a copy of a text.
pub fn modeled_owned_str_bytes(value: &str) -> (bytes: u64)
    ensures
        bytes == text_bytes(text::utf8_len(value@)),
{
    modeled_text_bytes(text::byte_len(value))
}

/// A room, doubled until it is at least a length.
pub open spec fn doubled_until(room: nat, len: nat) -> nat
    decreases
            if room == 0 || room >= len {
                0
            } else {
                len - room
            },
{
    if room == 0 || room >= len {
        room
    } else {
        doubled_until(room * 2, len)
    }
}

/// The most room that a list which grew to a length by doubling has.
pub open spec fn grown_room(len: nat) -> usize {
    if len == 0 {
        0
    } else {
        sizes::sat_size(doubled_until(4, len) as int)
    }
}

/// The doubling ends at the length or above it.
proof fn lemma_doubled_bounds(room: nat, len: nat)
    requires
        room > 0,
    ensures
        doubled_until(room, len) >= len,
        doubled_until(room, len) >= room,
    decreases
            if room >= len {
                0
            } else {
                len - room
            },
{
    if room < len {
        lemma_doubled_bounds(room * 2, len);
    }
}

/// The room of a list that grew by doubling is at least its length.
pub proof fn lemma_grown_room_covers(len: nat)
    requires
        len <= usize::MAX,
    ensures
        grown_room(len) >= len,
{
    lemma_doubled_bounds(4, len);
}

/// The most room that a list which grew to a length by doubling has: the next power of two, and at
/// least four where it holds anything.
pub fn protobuf_growth_capacity_upper(len: usize) -> (room: usize)
    ensures
        room == grown_room(len as nat),
        room >= len,
{
    proof {
        lemma_doubled_bounds(4, len as nat);
    }
    if len == 0 {
        return 0;
    }
    let mut room: usize = 4;
    while room < len
        invariant
            room > 0,
            doubled_until(room as nat, len as nat) == doubled_until(4, len as nat),
            doubled_until(4, len as nat) >= len,
        decreases 2 * len - room,
    {
        match room.checked_mul(2) {
            Some(more) => {
                room = more;
            },
            None => {
                proof {
                    lemma_doubled_bounds(room as nat * 2, len as nat);
                }
                return usize::MAX;
            },
        }
    }
    room
}

} // verus!
