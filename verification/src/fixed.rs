//! 16.16 fixed-point numbers. A position, a distance, an angle or a time
//! step `v` stands for the real number `v / ONE`.

use vstd::prelude::*;

verus! {

/// The fixed-point representation of 1.
pub const ONE: i64 = 65536;

/// The grid cell (or whole part) that the fixed-point coordinate `v` lies in:
/// `v / ONE` rounded down.
pub open spec fn cell_of(v: int) -> int {
    v / (ONE as int)
}

/// How far the fixed-point coordinate `v` lies above the lower edge of its
/// cell: a value from 0 up to, but not including, `ONE`.
pub open spec fn frac_of(v: int) -> int {
    v % (ONE as int)
}

/// `v` limited to the range of `i64`.
pub open spec fn saturated(v: int) -> int {
    if v < i64::MIN {
        i64::MIN as int
    } else if v > i64::MAX {
        i64::MAX as int
    } else {
        v
    }
}

/// The fixed-point product of `a` and `b`, rounded down and limited to the
/// range of `i64`.
pub open spec fn fx_mul(a: int, b: int) -> int {
    saturated((a * b) / (ONE as int))
}

/// `v` limited to the range of `i32`.
pub open spec fn narrowed(v: int) -> int {
    if v < i32::MIN {
        i32::MIN as int
    } else if v > i32::MAX {
        i32::MAX as int
    } else {
        v
    }
}

/// The magnitude of `v`.
pub open spec fn magnitude(v: int) -> int {
    if v < 0 {
        -v
    } else {
        v
    }
}

/// The cell of a fixed-point coordinate.
pub fn cell(v: i64) -> (c: i64)
    ensures
        c == cell_of(v as int),
{
    if v >= 0 {
        v / ONE
    } else {
        -1 - ((-1 - v) / ONE)
    }
}

/// The offset of a fixed-point coordinate within its cell.
pub fn frac(v: i64) -> (f: i64)
    ensures
        f == frac_of(v as int),
        0 <= f < ONE,
{
    if v >= 0 {
        v % ONE
    } else {
        ONE - 1 - ((-1 - v) % ONE)
    }
}

/// Fixed-point multiplication.
pub fn mul_fixed(a: i64, b: i64) -> (r: i64)
    ensures
        r == fx_mul(a as int, b as int),
{
    assert(-0x4000_0000_0000_0000_0000_0000_0000_0000 <= a * b
        <= 0x4000_0000_0000_0000_0000_0000_0000_0000) by (nonlinear_arith)
        requires
            -0x8000_0000_0000_0000 <= a <= 0x7fff_ffff_ffff_ffff,
            -0x8000_0000_0000_0000 <= b <= 0x7fff_ffff_ffff_ffff,
    ;
    let p: i128 = (a as i128) * (b as i128);
    let q: i128 = if p >= 0 {
        p / (ONE as i128)
    } else {
        -1 - ((-1 - p) / (ONE as i128))
    };
    if q < i64::MIN as i128 {
        i64::MIN
    } else if q > i64::MAX as i128 {
        i64::MAX
    } else {
        q as i64
    }
}

/// Narrows to `i32`, stopping at the ends of its range.
pub fn narrow(v: i64) -> (r: i32)
    ensures
        r == narrowed(v as int),
{
    if v < i32::MIN as i64 {
        i32::MIN
    } else if v > i32::MAX as i64 {
        i32::MAX
    } else {
        v as i32
    }
}

/// The magnitude of a 32-bit integer.
pub fn abs32(v: i32) -> (r: u64)
    ensures
        r == magnitude(v as int),
{
    if v < 0 {
        (-(v as i64)) as u64
    } else {
        v as u64
    }
}

/// Fixed-point addition, stopping at the ends of the range of `i64`.
pub fn add_fixed(a: i64, b: i64) -> (r: i64)
    ensures
        r == saturated(a + b),
{
    let sum: i128 = a as i128 + b as i128;
    if sum < i64::MIN as i128 {
        i64::MIN
    } else if sum > i64::MAX as i128 {
        i64::MAX
    } else {
        sum as i64
    }
}

/// Squaring keeps the order of numbers that are not negative.
pub proof fn lemma_square_monotone(a: int, b: int)
    by (nonlinear_arith)
    requires
        0 <= a <= b,
    ensures
        a * a <= b * b,
{
}

/// A product of numbers that are not negative grows with its factors.
pub proof fn lemma_product_monotone(a: int, b: int, c: int, d: int)
    by (nonlinear_arith)
    requires
        0 <= a <= b,
        0 <= c <= d,
    ensures
        a * c <= b * d,
{
}

/// Multiplying by a positive number keeps a strict order.
pub proof fn lemma_product_strict(a: int, b: int, c: int)
    by (nonlinear_arith)
    requires
        0 <= a < b,
        0 < c,
    ensures
        a * c < b * c,
{
}

} // verus!
