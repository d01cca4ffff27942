//! Rounding to whole words, used to size an allocation.
use vstd::prelude::*;

verus! {

/// Allocations are sized in multiples of eight bytes, a word on 64-bit targets.
pub const USIZE_BYTES: usize = 8;

/// `x` rounded down to a multiple of the word size.
pub open spec fn round_down(x: int) -> int {
    x - x % (USIZE_BYTES as int)
}

/// `x` rounded up to a multiple of the word size.
pub open spec fn round_up(x: int) -> int {
    round_down(x + USIZE_BYTES - 1)
}

pub fn usize_bytes_round_down(x: usize) -> (r: usize)
    ensures
        r == round_down(x as int),
{
    let r = x & !(USIZE_BYTES - 1);
    assert(x & !7usize == x - x % 8) by (bit_vector);
    r
}

pub fn usize_bytes_round_up(x: usize) -> (r: usize)
    requires
        x + USIZE_BYTES - 1 <= usize::MAX,
    ensures
        r == round_up(x as int),
        x <= r < x + USIZE_BYTES,
        r as int % USIZE_BYTES as int == 0,
{
    usize_bytes_round_down(x + (USIZE_BYTES - 1))
}

} // verus!
