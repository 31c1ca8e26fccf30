//! Conversions between the bit patterns of `f32` and of bfloat16 (the upper
//! half of an `f32`).
use vstd::prelude::*;

verus! {

/// The `f32` bit pattern `x` is a NaN: all exponent bits set and a non-zero
/// mantissa.
pub open spec fn is_nan_f32_bits(x: u32) -> bool {
    x % 0x8000_0000 > 0x7F80_0000
}

/// The bfloat16 bit pattern `h` is a NaN.
pub open spec fn is_nan_bf16_bits(h: u16) -> bool {
    h % 0x8000 > 0x7F80
}

/// Rounding `x` to its upper half goes up: the highest dropped bit is set and
/// either a lower dropped bit is set or the kept half is odd (round half to
/// even).
pub open spec fn rounds_up(x: u32) -> bool {
    &&& (x / 0x8000) % 2 == 1
    &&& (x % 0x8000 != 0 || (x / 0x10000) % 2 == 1)
}

/// bfloat16 pattern for the `f32` pattern `x`: a NaN keeps its upper half with
/// the quiet bit set; any other value is rounded to nearest, ties to even.
pub open spec fn bf16_of(x: u32) -> int {
    if is_nan_f32_bits(x) {
        (x / 0x10000) as int + (if (x / 0x10000) % 0x80 >= 0x40 { 0int } else { 0x40 })
    } else if rounds_up(x) {
        (x / 0x10000) as int + 1
    } else {
        (x / 0x10000) as int
    }
}

/// `f32` pattern for the bfloat16 pattern `h`: `h` in the upper half, the
/// lower half zero; a NaN also gets the quiet bit set.
pub open spec fn f32_bits_of(h: u16) -> int {
    if is_nan_bf16_bits(h) {
        (h as int + (if h % 0x80 >= 0x40 { 0int } else { 0x40 })) * 0x10000
    } else {
        h as int * 0x10000
    }
}

proof fn lemma_f32_bits(x: u32)
    by (bit_vector)
    ensures
        x & 0x7FFF_FFFF == x % 0x8000_0000,
        x >> 16 == x / 0x10000,
        x >> 16 <= 0xFFFF,
        (x >> 16) % 0x80 >= 0x40 ==> ((x >> 16) | 0x40) == x >> 16,
        (x >> 16) % 0x80 < 0x40 ==> ((x >> 16) | 0x40) == (x >> 16) + 0x40,
        ((x & 0x8000) != 0) == ((x / 0x8000) % 2 == 1),
        ((x & 0x17FFF) != 0) == (x % 0x8000 != 0 || (x / 0x10000) % 2 == 1),
{
}

proof fn lemma_bf16_bits(i: u16)
    by (bit_vector)
    ensures
        i & 0x7FFF == i % 0x8000,
        i % 0x80 >= 0x40 ==> ((i as u32) | 0x40) == i,
        i % 0x80 < 0x40 ==> ((i as u32) | 0x40) == i + 0x40,
        ((i as u32) << 16) == (i as u32) * 0x10000,
        (((i as u32) | 0x40) << 16) == ((i as u32) | 0x40) * 0x10000,
{
}

/// Rounds the `f32` bit pattern `x` to a bfloat16 bit pattern.
pub fn f32_bits_to_bf16(x: u32) -> (r: u16)
    ensures
        r == bf16_of(x),
{
    proof {
        lemma_f32_bits(x);
    }
    // check for NaN
    if x & 0x7FFF_FFFFu32 > 0x7F80_0000u32 {
        // Keep high part of current mantissa but also set most significiant mantissa bit
        return ((x >> 16) | 0x0040u32) as u16;
    }
    // round and shift
    let round_bit = 0x0000_8000u32;
    if (x & round_bit) != 0 && (x & (3 * round_bit - 1)) != 0 {
        (x >> 16) as u16 + 1
    } else {
        (x >> 16) as u16
    }
}

/// Widens the bfloat16 bit pattern `i` to an `f32` bit pattern.
pub fn bf16_to_f32_bits(i: u16) -> (r: u32)
    ensures
        r == f32_bits_of(i),
{
    proof {
        lemma_bf16_bits(i);
    }
    if i & 0x7FFFu16 > 0x7F80u16 {
        (i as u32 | 0x0040u32) << 16
    } else {
        (i as u32) << 16
    }
}

/// Widening a bfloat16 pattern and rounding it back gives the same pattern,
/// except that a NaN comes back with its quiet bit set.
pub proof fn narrow_inverts_widen(h: u16)
    ensures
        bf16_of(f32_bits_of(h) as u32) == (if is_nan_bf16_bits(h) {
            h as int + (if h % 0x80 >= 0x40 { 0int } else { 0x40 })
        } else {
            h as int
        }),
{
    let q: int = if h % 0x80 >= 0x40 { h as int } else { h as int + 0x40 };
    let x = f32_bits_of(h);
    if is_nan_bf16_bits(h) {
        assert(x == q * 0x10000);
        assert(q <= 0xFFFF);
        assert((q * 0x10000) % 0x8000_0000 == (q % 0x8000) * 0x10000) by (nonlinear_arith)
            requires 0 <= q <= 0xFFFF;
        assert((q * 0x10000) / 0x10000 == q) by (nonlinear_arith);
        assert(q % 0x80 >= 0x40);
    } else {
        assert((h as int * 0x10000) % 0x8000_0000 == (h as int % 0x8000) * 0x10000) by (nonlinear_arith)
            requires 0 <= h <= 0xFFFF;
        assert((h as int * 0x10000) / 0x10000 == h as int) by (nonlinear_arith);
        assert((h as int * 0x10000) / 0x8000 == 2 * h as int) by (nonlinear_arith);
        assert((h as int * 0x10000) % 0x8000 == 0) by (nonlinear_arith);
    }
}

} // verus!
