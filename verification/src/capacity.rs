//! What the allocator gave: capacities are at least lengths, and nothing more is known of them.

use vstd::prelude::*;

use crate::text;

verus! {

/// Calls `String::capacity`, which is at least the length in bytes. How far it is above it is the
/// allocator's choice, and nothing is said of that.
#[verifier::external_body]
pub(crate) fn string_capacity(value: &String) -> (capacity: usize)
    ensures
        capacity >= text::utf8_len(value@),
{
    value.capacity()
}

/// Calls `Vec::capacity`, which is at least the length. How far it is above it is the allocator's
/// choice, and nothing is said of that.
#[verifier::external_body]
pub(crate) fn vec_capacity<T>(values: &Vec<T>) -> (capacity: usize)
    ensures
        capacity >= values@.len(),
{
    values.capacity()
}

} // verus!
