//! Angles and directions. An angle is held in fixed-point radians; a
//! direction is held as the cosine and sine of its angle, which the caller
//! supplies. Everything derived from them here is integer arithmetic.

use vstd::prelude::*;
use crate::fixed::{cell, cell_of, lemma_square_monotone, ONE};

verus! {

/// A full turn.
pub const TWO_PI: i64 = 411775;

/// Half a turn.
pub const PI: i64 = 205887;

/// A quarter turn.
pub const HALF_PI: i64 = 102944;

/// Three quarters of a turn.
pub const THREE_HALVES_PI: i64 = 308831;

/// A direction: the fixed-point cosine and sine of an angle that is measured
/// counter-clockwise from the positive x axis.
#[derive(Clone, Copy, Debug, PartialEq, Eq, Structural)]
pub struct Heading {
    pub cos: i64,
    pub sin: i64,
}

impl Heading {
    /// Neither component exceeds 1 in magnitude.
    pub open spec fn wf(&self) -> bool {
        &&& -ONE <= self.cos <= ONE
        &&& -ONE <= self.sin <= ONE
    }
}

/// The angle `a` brought into the range from 0 up to, but not including, a
/// full turn.
pub open spec fn wrapped(a: int) -> int {
    a % (TWO_PI as int)
}

/// Whether `r` is the square root of `n`, rounded down.
pub open spec fn is_root(r: int, n: int) -> bool {
    0 <= r && r * r <= n < (r + 1) * (r + 1)
}

/// The square root of `n`, rounded down.
pub open spec fn root(n: int) -> int {
    choose|r: int| is_root(r, n)
}

/// Tangent of the angle between the view axis and the ray through column `x`
/// of `width`: the columns are spaced evenly on a plane across the view axis,
/// whose half width is `spread`.
pub open spec fn slope(x: int, width: int, spread: int) -> int {
    (spread * (2 * x - width)) / width
}

/// Cosine of the angle whose tangent is `t`.
pub open spec fn cos_of_slope(t: int) -> int {
    (ONE * ONE) / root(ONE * ONE + t * t)
}

/// Sine of the angle whose tangent is `t`.
pub open spec fn sin_of_slope(t: int) -> int {
    (t * cos_of_slope(t)) / (ONE as int)
}

/// The direction of column `x` of `width` relative to the view axis.
pub open spec fn column_heading(x: int, width: int, spread: int) -> Heading {
    let t = slope(x, width, spread);
    Heading { cos: cos_of_slope(t) as i64, sin: sin_of_slope(t) as i64 }
}

/// The direction `h` turned clockwise by `by`, as a vector in screen space,
/// where y grows downward: `(cos(a - b), -sin(a - b))`.
pub open spec fn turned(h: Heading, by: Heading) -> (i32, i32) {
    (
        cell_of(h.cos * by.cos + h.sin * by.sin) as i32,
        cell_of(h.cos * by.sin - h.sin * by.cos) as i32,
    )
}

/// At most one integer is the rounded square root.
pub proof fn lemma_root_unique(a: int, b: int, n: int)
    requires
        is_root(a, n),
        is_root(b, n),
    ensures
        a == b,
{
    if a < b {
        lemma_square_monotone(a + 1, b);
    } else if b < a {
        lemma_square_monotone(b + 1, a);
    }
}

/// Brings an angle into the range of one turn.
pub fn wrap(a: i128) -> (r: i64)
    ensures
        r == wrapped(a as int),
        0 <= r < TWO_PI,
{
    let turn = TWO_PI as i128;
    if a >= 0 {
        (a % turn) as i64
    } else {
        (turn - 1 - ((-1 - a) % turn)) as i64
    }
}

/// The square root of `n`, rounded down.
pub fn isqrt(n: u64) -> (r: u64)
    ensures
        r == root(n as int),
        is_root(r as int, n as int),
        r <= 0xffff_ffff,
{
    let mut lo: u64 = 0;
    let mut hi: u64 = 0x1_0000_0000;
    assert(0x1_0000_0000 * 0x1_0000_0000 > n) by (nonlinear_arith)
        requires
            n <= 0xffff_ffff_ffff_ffff,
    ;
    while hi - lo > 1
        invariant
            lo < hi <= 0x1_0000_0000,
            lo * lo <= n < hi * hi,
        decreases hi - lo,
    {
        let mid: u64 = lo + (hi - lo) / 2;
        proof {
            lemma_square_monotone(mid as int, 0xffff_ffff);
        }
        if mid * mid <= n {
            lo = mid;
        } else {
            hi = mid;
        }
    }
    proof {
        lemma_root_unique(lo as int, root(n as int), n as int);
    }
    lo
}

/// The direction of one column relative to the view axis.
pub fn column(x: i32, width: i32, spread: i64) -> (h: Heading)
    requires
        0 <= x < width,
        0 <= spread <= ONE,
    ensures
        h == column_heading(x as int, width as int, spread as int),
        h.wf(),
{
    let w = width as i64;
    let span: i64 = 2 * (x as i64) - w;
    assert(-w * spread <= spread * span <= w * spread && -0x8000_0000_0000 <= spread * span
        <= 0x8000_0000_0000) by (nonlinear_arith)
        requires
            -w <= span <= w,
            0 <= spread <= 0x1_0000,
            0 < w <= 0x7fff_ffff,
    ;
    let scaled: i64 = spread * span;
    let t: i64 = if scaled >= 0 {
        scaled / w
    } else {
        -1 - ((-1 - scaled) / w)
    };
    assert(t == slope(x as int, width as int, spread as int) && -ONE <= t <= ONE) by {
        lemma_floor_quotient(scaled as int, w as int, spread as int);
    }
    assert(0 <= t * t <= ONE * ONE) by (nonlinear_arith)
        requires
            -ONE <= t <= ONE,
    ;
    let r = isqrt((ONE * ONE + t * t) as u64);
    assert(ONE <= r) by {
        if r < ONE {
            lemma_square_monotone(r as int + 1, ONE as int);
        }
    }
    let c: i64 = (ONE * ONE) / (r as i64);
    assert(0 <= c <= ONE) by (nonlinear_arith)
        requires
            c == (ONE * ONE) / (r as int),
            ONE <= r,
    ;
    assert(-ONE * ONE <= t * c <= ONE * ONE) by (nonlinear_arith)
        requires
            -ONE <= t <= ONE,
            0 <= c <= ONE,
    ;
    let p: i64 = t * c;
    let s: i64 = if p >= 0 {
        p / ONE
    } else {
        -1 - ((-1 - p) / ONE)
    };
    Heading { cos: c, sin: s }
}

/// The quotient of `a` by a positive `d`, rounded down, stays within `bound`
/// if `a` stays within `d * bound`.
proof fn lemma_floor_quotient(a: int, d: int, bound: int)
    requires
        0 < d,
        0 <= bound,
        -d * bound <= a <= d * bound,
    ensures
        -bound <= a / d <= bound,
        a < 0 ==> a / d == -1 - ((-1 - a) / d),
{
    let q = a / d;
    vstd::arithmetic::div_mod::lemma_fundamental_div_mod(a, d);
    assert(-bound <= q <= bound) by (nonlinear_arith)
        requires
            0 < d,
            0 <= bound,
            -d * bound <= a <= d * bound,
            a == d * q + a % d,
            0 <= a % d < d,
    ;
    if a < 0 {
        let b = -1 - a;
        vstd::arithmetic::div_mod::lemma_fundamental_div_mod(b, d);
        assert((-1 - b / d) * d == -d - d * (b / d)) by (nonlinear_arith);
        vstd::arithmetic::div_mod::lemma_fundamental_div_mod_converse(
            a,
            d,
            -1 - b / d,
            d - 1 - b % d,
        );
    }
}

/// The directions of all `width` columns of a view, left to right.
pub fn fan(width: i32, spread: i64) -> (columns: Vec<Heading>)
    requires
        0 <= spread <= ONE,
    ensures
        columns@.len() == (if width < 0 {
            0
        } else {
            width as int
        }),
        forall|x: int|
            0 <= x < columns@.len() ==> columns@[x] == column_heading(
                x,
                width as int,
                spread as int,
            ),
        forall|x: int| 0 <= x < columns@.len() ==> (#[trigger] columns@[x]).wf(),
{
    let mut columns: Vec<Heading> = Vec::new();
    let mut x: i32 = 0;
    while x < width
        invariant
            0 <= x,
            x <= width || x == 0,
            0 <= spread <= ONE,
            columns@.len() == x,
            forall|k: int|
                0 <= k < x ==> columns@[k] == column_heading(k, width as int, spread as int),
            forall|k: int| 0 <= k < x ==> (#[trigger] columns@[k]).wf(),
        decreases width - x,
    {
        columns.push(column(x, width, spread));
        x += 1;
    }
    columns
}

/// Turns the direction `h` clockwise by `by`.
pub fn turn(h: &Heading, by: &Heading) -> (d: (i32, i32))
    requires
        h.wf(),
        by.wf(),
    ensures
        d == turned(*h, *by),
        -2 * ONE <= d.0 <= 2 * ONE,
        -2 * ONE <= d.1 <= 2 * ONE,
{
    assert(-ONE * ONE <= h.cos * by.cos <= ONE * ONE && -ONE * ONE <= h.sin * by.sin <= ONE * ONE
        && -ONE * ONE <= h.cos * by.sin <= ONE * ONE && -ONE * ONE <= h.sin * by.cos <= ONE * ONE)
        by (nonlinear_arith)
        requires
            -ONE <= h.cos <= ONE,
            -ONE <= h.sin <= ONE,
            -ONE <= by.cos <= ONE,
            -ONE <= by.sin <= ONE,
    ;
    let a: i64 = h.cos * by.cos + h.sin * by.sin;
    let b: i64 = h.cos * by.sin - h.sin * by.cos;
    (cell(a) as i32, cell(b) as i32)
}

} // verus!
