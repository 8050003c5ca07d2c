//! Saturating sizes: sums and products that stop at the largest value of their type.

use vstd::prelude::*;

verus! {

/// A count as a `u64`, or the largest `u64` where it does not fit.
pub open spec fn sat64(n: int) -> u64 {
    if n > u64::MAX {
        u64::MAX
    } else {
        n as u64
    }
}

/// A count as a `usize`, or the largest `usize` where it does not fit.
pub open spec fn sat_size(n: int) -> usize {
    if n > usize::MAX {
        usize::MAX
    } else {
        n as usize
    }
}

/// The smaller of two counts.
pub open spec fn least(a: int, b: int) -> int {
    if a <= b {
        a
    } else {
        b
    }
}

/// The larger of two counts.
pub open spec fn greatest(a: int, b: int) -> int {
    if a >= b {
        a
    } else {
        b
    }
}

/// The sum of a list of counts.
pub open spec fn total(parts: Seq<nat>) -> nat
    decreases parts.len(),
{
    if parts.len() == 0 {
        0
    } else {
        total(parts.drop_last()) + parts.last()
    }
}

/// The sum of a prefix grows by the part that follows it.
pub proof fn lemma_total_step(parts: Seq<nat>, n: int)
    requires
        0 <= n < parts.len(),
    ensures
        total(parts.subrange(0, n + 1)) == total(parts.subrange(0, n)) + parts[n],
{
    let longer = parts.subrange(0, n + 1);
    assert(longer.drop_last() =~= parts.subrange(0, n));
}

/// Replacing a part changes the sum by the difference.
pub proof fn lemma_total_update(parts: Seq<nat>, i: int, part: nat)
    requires
        0 <= i < parts.len(),
    ensures
        total(parts.update(i, part)) + parts[i] == total(parts) + part,
    decreases parts.len(),
{
    let changed = parts.update(i, part);
    if i == parts.len() - 1 {
        assert(changed.drop_last() =~= parts.drop_last());
    } else {
        assert(changed.drop_last() =~= parts.drop_last().update(i, part));
        lemma_total_update(parts.drop_last(), i, part);
    }
}

/// A new part adds to the sum wherever it is put.
pub proof fn lemma_total_insert(parts: Seq<nat>, i: int, part: nat)
    requires
        0 <= i <= parts.len(),
    ensures
        total(parts.insert(i, part)) == total(parts) + part,
    decreases parts.len(),
{
    let longer = parts.insert(i, part);
    if i == parts.len() {
        assert(longer.drop_last() =~= parts);
    } else {
        assert(longer.drop_last() =~= parts.drop_last().insert(i, part));
        lemma_total_insert(parts.drop_last(), i, part);
    }
}

/// A product that stops at the largest `u64`.
pub fn times64(a: u64, b: u64) -> (product: u64)
    ensures
        product == sat64(a * b),
{
    match a.checked_mul(b) {
        Some(product) => product,
        None => u64::MAX,
    }
}

/// A product that stops at the largest `usize`.
pub fn times_size(a: usize, b: usize) -> (product: usize)
    ensures
        product == sat_size(a * b),
{
    match a.checked_mul(b) {
        Some(product) => product,
        None => usize::MAX,
    }
}

/// The larger of two sizes.
pub fn max_size(a: usize, b: usize) -> (larger: usize)
    ensures
        larger == greatest(a as int, b as int),
{
    if a >= b {
        a
    } else {
        b
    }
}

/// The larger of two numbers.
pub fn max64(a: u64, b: u64) -> (larger: u64)
    ensures
        larger == greatest(a as int, b as int),
{
    if a >= b {
        a
    } else {
        b
    }
}

} // verus!
