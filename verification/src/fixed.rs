//! Fixed-point numbers and the linear blend built on them.
//!
//! A quantity `x` is stored as the integer `x * 65536`. Samples are `i32`,
//! mix factors and frequencies are `u32`, positions are `u64`.

use vstd::prelude::*;

verus! {

/// Number of fractional bits of every fixed-point quantity.
pub const FRACTION_BITS: u32 = 16;

/// The fixed-point number 1.0.
pub const ONE: u32 = 65536;

/// Whole part of a non-negative fixed-point number (its floor).
pub open spec fn whole(x: int) -> int {
    x / (ONE as int)
}

/// Fractional part of a non-negative fixed-point number, in `[0, ONE)`.
pub open spec fn fraction(x: int) -> int {
    x % (ONE as int)
}

/// Smallest whole number that is not below `x` (its ceiling).
pub open spec fn ceiling(x: int) -> int {
    if fraction(x) == 0 {
        whole(x)
    } else {
        whole(x) + 1
    }
}

/// Linear blend `(1 - t) * low + t * high`, rounded down to the next
/// representable number.
pub open spec fn mix_spec(mix_factor: int, low: int, high: int) -> int {
    ((ONE - mix_factor) * low + mix_factor * high) / (ONE as int)
}

/// A blend factor of zero selects `low`, a factor of one selects `high`,
/// whatever the two values are.
pub proof fn lemma_mix_boundaries(low: int, high: int)
    ensures
        mix_spec(0, low, high) == low,
        mix_spec(ONE as int, low, high) == high,
{
    assert((ONE - 0) * low + 0 * high == 65536 * low) by (nonlinear_arith);
    assert((ONE - ONE) * low + ONE * high == 65536 * high) by (nonlinear_arith);
}

/// A blend with a factor in `[0, 1]` never leaves the interval spanned by the
/// two blended values.
pub proof fn lemma_mix_between(mix_factor: int, low: int, high: int)
    requires
        0 <= mix_factor <= ONE,
    ensures
        low <= high ==> low <= mix_spec(mix_factor, low, high) <= high,
        high <= low ==> high <= mix_spec(mix_factor, low, high) <= low,
{
    let n = (ONE - mix_factor) * low + mix_factor * high;
    assert(low <= high ==> 65536 * low <= n <= 65536 * high) by (nonlinear_arith)
        requires
            0 <= mix_factor <= 65536,
            n == (65536 - mix_factor) * low + mix_factor * high,
    ;
    assert(high <= low ==> 65536 * high <= n <= 65536 * low) by (nonlinear_arith)
        requires
            0 <= mix_factor <= 65536,
            n == (65536 - mix_factor) * low + mix_factor * high,
    ;
}

/// Linear blend of two samples; the single interpolation primitive of the
/// engine.
pub fn mix(mix_factor: u32, low: i32, high: i32) -> (r: i32)
    requires
        mix_factor <= ONE,
    ensures
        r == mix_spec(mix_factor as int, low as int, high as int),
{
    let t: i64 = mix_factor as i64;
    let l: i64 = low as i64;
    let h: i64 = high as i64;
    proof {
        lemma_mix_between(t as int, l as int, h as int);
        assert(-0x8000_0000_0000 <= (65536 - t) * l <= 0x8000_0000_0000) by (nonlinear_arith)
            requires
                0 <= t <= 65536,
                -0x8000_0000 <= l < 0x8000_0000,
        ;
        assert(-0x8000_0000_0000 <= t * h <= 0x8000_0000_0000) by (nonlinear_arith)
            requires
                0 <= t <= 65536,
                -0x8000_0000 <= h < 0x8000_0000,
        ;
    }
    let n: i64 = (65536 - t) * l + t * h;
    let q: i64 = if n >= 0 {
        n / 65536
    } else {
        -((65535 - n) / 65536)
    };
    q as i32
}

} // verus!
