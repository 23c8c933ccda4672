//! Ray casting by grid traversal.
//!
//! A ray leaves its origin and crosses cell boundaries one at a time, always
//! the nearer of the next vertical and the next horizontal one. The first solid
//! cell it enters is the hit. Positions are 16.16 fixed-point; the direction is
//! any integer vector, of which only the ratio of the components matters. The
//! `y` axis points down the screen: a positive `dy` moves to larger rows.
//!
//! All comparisons are made exactly, on cross-multiplied integers, so a
//! direction with a zero component needs no special case: that axis is simply
//! never the nearer one.

use vstd::prelude::*;
use crate::fixed::{
    abs32, cell, cell_of, frac, frac_of, lemma_product_monotone, lemma_product_strict,
    lemma_square_monotone, magnitude, ONE,
};
use crate::grid::Grid;

verus! {

/// Which kind of boundary a ray crossed to enter the cell it hit.
#[derive(Clone, Copy, Debug, PartialEq, Eq, Structural)]
pub enum HitSide {
    /// A horizontal boundary, running along the x axis: the ray stepped in y.
    X,
    /// A vertical boundary, running along the y axis: the ray stepped in x.
    Y,
}

/// Where a ray met a wall.
#[derive(Clone, Copy, Debug, PartialEq, Eq, Structural)]
pub struct RayHit {
    /// Length of the ray from its origin to the wall, in fixed-point cells,
    /// rounded down.
    pub distance: u32,
    /// The kind of boundary crossed last.
    pub side: HitSide,
}

/// A ray as a mathematical object: a fixed-point origin and an integer
/// direction.
pub struct Ray {
    pub ox: int,
    pub oy: int,
    pub dx: int,
    pub dy: int,
}

/// -1, 0 or 1 as `d` is negative, zero or positive.
pub open spec fn sign(d: int) -> int {
    if d < 0 {
        -1
    } else if d > 0 {
        1
    } else {
        0
    }
}

/// Travel along one axis from the coordinate `o` to the first cell boundary
/// in the direction of `d`.
pub open spec fn first_boundary(o: int, d: int) -> int {
    if d < 0 {
        frac_of(o)
    } else {
        ONE - frac_of(o)
    }
}

impl Ray {
    /// Travel along x from the origin to the `k`-th vertical boundary ahead.
    pub open spec fn reach_x(self, k: int) -> int {
        first_boundary(self.ox, self.dx) + (k - 1) * ONE
    }

    /// Travel along y from the origin to the `k`-th horizontal boundary ahead.
    pub open spec fn reach_y(self, k: int) -> int {
        first_boundary(self.oy, self.dy) + (k - 1) * ONE
    }

    /// Whether, with `i` vertical and `j` horizontal boundaries behind it, the
    /// ray meets a vertical boundary next: the ray is strictly shorter there
    /// than at the next horizontal one.
    pub open spec fn x_next(self, i: int, j: int) -> bool {
        self.reach_x(i + 1) * magnitude(self.dy) < self.reach_y(j + 1) * magnitude(self.dx)
    }

    /// Number of vertical boundaries among the first `n` crossings.
    pub open spec fn x_crossings(self, n: nat) -> nat
        decreases n,
    {
        if n == 0 {
            0
        } else {
            let i = self.x_crossings((n - 1) as nat);
            if self.x_next(i as int, n - 1 - i) {
                i + 1
            } else {
                i
            }
        }
    }

    /// Number of horizontal boundaries among the first `n` crossings.
    pub open spec fn y_crossings(self, n: nat) -> nat {
        (n - self.x_crossings(n)) as nat
    }

    /// Column of the cell that the ray is in after `n` crossings.
    pub open spec fn cell_x(self, n: nat) -> int {
        cell_of(self.ox) + sign(self.dx) * self.x_crossings(n)
    }

    /// Row of the cell that the ray is in after `n` crossings.
    pub open spec fn cell_y(self, n: nat) -> int {
        cell_of(self.oy) + sign(self.dy) * self.y_crossings(n)
    }

    /// Whether the `n`-th crossing is of a vertical boundary.
    pub open spec fn crossed_x(self, n: nat) -> bool {
        n >= 1 && self.x_crossings(n) > self.x_crossings((n - 1) as nat)
    }

    /// The side that the `n`-th crossing reports.
    pub open spec fn side(self, n: nat) -> HitSide {
        if self.crossed_x(n) {
            HitSide::Y
        } else {
            HitSide::X
        }
    }

    /// Travel of the `n`-th crossing along the axis that it steps on.
    pub open spec fn travel(self, n: nat) -> int {
        if self.crossed_x(n) {
            self.reach_x(self.x_crossings(n) as int)
        } else {
            self.reach_y(self.y_crossings(n) as int)
        }
    }

    /// Magnitude of the direction's component on the axis that the `n`-th
    /// crossing steps on.
    pub open spec fn along(self, n: nat) -> int {
        if self.crossed_x(n) {
            magnitude(self.dx)
        } else {
            magnitude(self.dy)
        }
    }

    /// Square of the direction's length.
    pub open spec fn norm_sq(self) -> int {
        self.dx * self.dx + self.dy * self.dy
    }

    /// Whether the ray is no longer than `max` at its `n`-th crossing. The
    /// length there is `travel * |d| / along`.
    pub open spec fn within(self, n: nat, max: int) -> bool {
        longer(self.travel(n), self.along(n), self.norm_sq(), max) == false
    }

    /// The length of the ray at its `n`-th crossing, rounded down.
    pub open spec fn length(self, n: nat) -> int {
        rounded_length(self.travel(n), self.along(n), self.norm_sq())
    }
}

/// Whether `travel * sqrt(norm_sq) / along` exceeds `max`.
pub open spec fn longer(travel: int, along: int, norm_sq: int, max: int) -> bool {
    (travel * travel) * norm_sq > (max * max) * (along * along)
}

/// Whether `len` is `travel * sqrt(norm_sq) / along` rounded down.
pub open spec fn is_rounded_length(len: int, travel: int, along: int, norm_sq: int) -> bool {
    &&& 0 <= len
    &&& (len * len) * (along * along) <= (travel * travel) * norm_sq
    &&& (travel * travel) * norm_sq < ((len + 1) * (len + 1)) * (along * along)
}

/// `travel * sqrt(norm_sq) / along` rounded down.
pub open spec fn rounded_length(travel: int, along: int, norm_sq: int) -> int {
    choose|len: int| is_rounded_length(len, travel, along, norm_sq)
}

/// Whether the cell that `ray` is in after `n` crossings is solid.
pub open spec fn blocked(ray: Ray, grid: Grid, n: nat) -> bool {
    grid.solid(ray.cell_x(n), ray.cell_y(n))
}

/// Whether `ray` got through its first `n - 1` crossings: none led into a solid
/// cell, and none lay beyond `max`.
pub open spec fn clear_before(ray: Ray, grid: Grid, max: int, n: nat) -> bool {
    forall|m: nat| 1 <= m < n ==> !#[trigger] blocked(ray, grid, m) && ray.within(m, max)
}

/// Whether `ray` hits a wall at its `n`-th crossing: that crossing is the first
/// to lead into a solid cell, and the ray is no longer than `max` there.
pub open spec fn hits_at(ray: Ray, grid: Grid, max: int, n: nat) -> bool {
    &&& n >= 1
    &&& (ray.dx != 0 || ray.dy != 0)
    &&& blocked(ray, grid, n)
    &&& ray.within(n, max)
    &&& clear_before(ray, grid, max, n)
}

/// What casting `ray` over `grid` gives: the hit at the first solid cell that
/// the ray enters, if it gets there within `max`; nothing otherwise, and
/// nothing for a ray without direction.
pub open spec fn cast(ray: Ray, grid: Grid, max: int) -> Option<RayHit> {
    if exists|n: nat| hits_at(ray, grid, max, n) {
        let n = choose|n: nat| hits_at(ray, grid, max, n);
        Some(RayHit { distance: ray.length(n) as u32, side: ray.side(n) })
    } else {
        None
    }
}

/// The ray with the given origin and direction.
pub open spec fn ray_of(origin: (i64, i64), direction: (i32, i32)) -> Ray {
    Ray { ox: origin.0 as int, oy: origin.1 as int, dx: direction.0 as int, dy: direction.1 as int }
}

/// A ray is at least as long as its travel along either axis: where the
/// travel exceeds `max`, so does the length.
proof fn lemma_beyond_travel(travel: int, along: int, norm_sq: int, max: int)
    requires
        0 <= max < travel,
        0 < along,
        along * along <= norm_sq,
    ensures
        longer(travel, along, norm_sq, max),
{
    lemma_square_monotone(max + 1, travel);
    lemma_product_monotone((max + 1) * (max + 1), travel * travel, along * along, norm_sq);
    assert((max * max) * (along * along) < ((max + 1) * (max + 1)) * (along * along))
        by (nonlinear_arith)
        requires
            0 <= max,
            0 < along,
    ;
}

/// Past a crossing that led into a solid cell or lay beyond `max`, the ray
/// hits nothing.
proof fn lemma_stopped(ray: Ray, grid: Grid, max: int, n: nat, k: nat)
    requires
        1 <= n < k,
        blocked(ray, grid, n) || !ray.within(n, max),
    ensures
        !clear_before(ray, grid, max, k),
        !hits_at(ray, grid, max, k),
{
}

/// A ray hits at no more than one of its crossings.
pub proof fn lemma_hit_unique(ray: Ray, grid: Grid, max: int, a: nat, b: nat)
    requires
        hits_at(ray, grid, max, a),
        hits_at(ray, grid, max, b),
    ensures
        a == b,
{
    if a < b {
        lemma_stopped(ray, grid, max, a, b);
    } else if b < a {
        lemma_stopped(ray, grid, max, b, a);
    }
}

/// If `ray` hits at its `n`-th crossing, the cast reports that crossing.
pub proof fn lemma_cast_at(ray: Ray, grid: Grid, max: int, n: nat)
    requires
        hits_at(ray, grid, max, n),
    ensures
        cast(ray, grid, max) == Some(
            RayHit { distance: ray.length(n) as u32, side: ray.side(n) },
        ),
{
    let k = choose|k: nat| hits_at(ray, grid, max, k);
    lemma_hit_unique(ray, grid, max, k, n);
}

/// If `ray` got through the crossings before its `n`-th and lies beyond `max`
/// at that one, the cast reports a miss.
proof fn lemma_miss_at(ray: Ray, grid: Grid, max: int, n: nat)
    requires
        n >= 1,
        clear_before(ray, grid, max, n),
        !ray.within(n, max),
    ensures
        cast(ray, grid, max) == None::<RayHit>,
{
    assert forall|k: nat| !hits_at(ray, grid, max, k) by {
        if k > n {
            lemma_stopped(ray, grid, max, n, k);
        } else if 1 <= k < n {
            assert(!blocked(ray, grid, k) && ray.within(k, max));
        }
    }
}

/// At most one integer is the rounded length.
pub proof fn lemma_rounded_length_unique(a: int, b: int, travel: int, along: int, norm_sq: int)
    requires
        along != 0,
        is_rounded_length(a, travel, along, norm_sq),
        is_rounded_length(b, travel, along, norm_sq),
    ensures
        a == b,
{
    let c = along * along;
    assert(c > 0) by (nonlinear_arith)
        requires
            along != 0,
            c == along * along,
    ;
    if a < b {
        lemma_square_monotone(a + 1, b);
        lemma_product_monotone((a + 1) * (a + 1), b * b, c, c);
    } else if b < a {
        lemma_square_monotone(b + 1, a);
        lemma_product_monotone((b + 1) * (b + 1), a * a, c, c);
    }
}

/// Whether the ray is longer than `max` at a crossing.
fn exceeds(travel: u64, along: u64, norm_sq: u128, max: u32) -> (r: bool)
    requires
        0 < along <= 0x8000_0000,
        along * along <= norm_sq <= 0x8000_0000_0000_0000,
        travel <= 0x2_0000_0000,
    ensures
        r == longer(travel as int, along as int, norm_sq as int, max as int),
{
    if travel > max as u64 {
        proof {
            lemma_beyond_travel(travel as int, along as int, norm_sq as int, max as int);
        }
        return true;
    }
    proof {
        lemma_square_monotone(travel as int, 0xffff_ffff);
        lemma_square_monotone(max as int, 0xffff_ffff);
        lemma_square_monotone(along as int, 0x8000_0000);
        lemma_product_monotone(
            travel * travel,
            0xffff_fffe_0000_0001,
            norm_sq as int,
            0x8000_0000_0000_0000,
        );
        lemma_product_monotone(
            max * max,
            0xffff_fffe_0000_0001,
            along * along,
            0x4000_0000_0000_0000,
        );
    }
    let t: u128 = travel as u128;
    let m: u128 = max as u128;
    let a: u128 = along as u128;
    (t * t) * norm_sq > (m * m) * (a * a)
}

/// The length of the ray at a crossing where it is no longer than `max`.
fn measure(travel: u64, along: u64, norm_sq: u128, max: u32) -> (len: u32)
    requires
        0 < along <= 0x8000_0000,
        along * along <= norm_sq <= 0x8000_0000_0000_0000,
        !longer(travel as int, along as int, norm_sq as int, max as int),
    ensures
        is_rounded_length(len as int, travel as int, along as int, norm_sq as int),
        len <= max,
{
    let ghost tt = travel * travel;
    let ghost aa = along * along;
    proof {
        lemma_square_monotone(along as int, 0x8000_0000);
        assert(aa > 0) by (nonlinear_arith)
            requires
                0 < along,
                aa == along * along,
        ;
        assert(tt >= 0) by (nonlinear_arith)
            requires
                tt == travel * travel,
        ;
        if travel > max {
            lemma_beyond_travel(travel as int, along as int, norm_sq as int, max as int);
        }
        lemma_square_monotone(travel as int, 0xffff_ffff);
        lemma_product_monotone(tt, 0xffff_fffe_0000_0001, norm_sq as int, 0x8000_0000_0000_0000);
        lemma_product_monotone(tt, tt, aa, norm_sq as int);
        assert(0 <= max * max < (max + 1) * (max + 1)) by (nonlinear_arith)
            requires
                0 <= max,
        ;
        lemma_product_strict(max * max, (max + 1) * (max + 1), aa);
    }
    let t: u128 = travel as u128;
    let a: u128 = along as u128;
    let target: u128 = (t * t) * norm_sq;
    let scale: u128 = a * a;
    let mut lo: u64 = travel;
    let mut hi: u64 = max as u64 + 1;
    while hi - lo > 1
        invariant
            travel <= lo < hi <= max + 1,
            target == tt * norm_sq,
            scale == aa,
            0 < scale <= 0x4000_0000_0000_0000,
            (lo * lo) * aa <= tt * norm_sq,
            tt * norm_sq < (hi * hi) * aa,
        decreases hi - lo,
    {
        let mid: u64 = lo + (hi - lo) / 2;
        proof {
            lemma_square_monotone(mid as int, 0xffff_ffff);
            lemma_product_monotone(
                mid * mid,
                0xffff_fffe_0000_0001,
                aa as int,
                0x4000_0000_0000_0000,
            );
        }
        let m: u128 = mid as u128;
        if (m * m) * scale <= target {
            lo = mid;
        } else {
            hi = mid;
        }
    }
    lo as u32
}

/// Casts a ray from `origin` in `direction` over `grid`, giving up once the
/// ray is longer than `max_distance`.
///
/// Returns the first solid cell's distance and the kind of boundary crossed
/// to enter it. The function reads nothing but its arguments.
pub fn cast_ray(origin: (i64, i64), direction: (i32, i32), grid: &Grid, max_distance: u32) -> (hit:
    Option<RayHit>)
    requires
        grid.wf(),
    ensures
        hit == cast(ray_of(origin, direction), *grid, max_distance as int),
        hit matches Some(h) ==> h.distance <= max_distance,
{
    let ghost ray = ray_of(origin, direction);
    let ghost max = max_distance as int;
    let adx: u64 = abs32(direction.0);
    let ady: u64 = abs32(direction.1);
    if adx == 0 && ady == 0 {
        return None;
    }
    proof {
        lemma_square_monotone(adx as int, 0x8000_0000);
        lemma_square_monotone(ady as int, 0x8000_0000);
        assert(adx * adx == ray.dx * ray.dx) by (nonlinear_arith)
            requires
                adx == magnitude(ray.dx),
        ;
        assert(ady * ady == ray.dy * ray.dy) by (nonlinear_arith)
            requires
                ady == magnitude(ray.dy),
        ;
        assert(adx * adx >= 0 && ady * ady >= 0) by (nonlinear_arith);
    }
    let norm_sq: u128 = (adx as u128) * (adx as u128) + (ady as u128) * (ady as u128);
    let step_x: i64 = if direction.0 < 0 {
        -1
    } else if direction.0 > 0 {
        1
    } else {
        0
    };
    let step_y: i64 = if direction.1 < 0 {
        -1
    } else if direction.1 > 0 {
        1
    } else {
        0
    };
    let mut tile_x: i64 = cell(origin.0);
    let mut tile_y: i64 = cell(origin.1);
    let mut next_x: u64 = if direction.0 < 0 {
        frac(origin.0) as u64
    } else {
        (ONE - frac(origin.0)) as u64
    };
    let mut next_y: u64 = if direction.1 < 0 {
        frac(origin.1) as u64
    } else {
        (ONE - frac(origin.1)) as u64
    };
    let ghost mut n: nat = 0;
    let ghost mut i: nat = 0;
    let ghost mut j: nat = 0;
    loop
        invariant
            grid.wf(),
            ray == ray_of(origin, direction),
            max == max_distance,
            adx == magnitude(ray.dx),
            ady == magnitude(ray.dy),
            adx != 0 || ady != 0,
            adx <= 0x8000_0000,
            ady <= 0x8000_0000,
            norm_sq == ray.norm_sq(),
            adx * adx <= norm_sq,
            ady * ady <= norm_sq,
            norm_sq <= 0x8000_0000_0000_0000,
            step_x == sign(ray.dx),
            step_y == sign(ray.dy),
            i == ray.x_crossings(n),
            j == ray.y_crossings(n),
            i + j == n,
            tile_x == ray.cell_x(n),
            tile_y == ray.cell_y(n),
            next_x == ray.reach_x(i as int + 1),
            next_y == ray.reach_y(j as int + 1),
            0 <= next_x <= max + ONE,
            0 <= next_y <= max + ONE,
            ady == 0 ==> next_y > 0,
            -0x1_0000_0000_0000 <= cell_of(ray.ox) < 0x1_0000_0000_0000,
            -0x1_0000_0000_0000 <= cell_of(ray.oy) < 0x1_0000_0000_0000,
            i * ONE <= next_x,
            j * ONE <= next_y,
            clear_before(ray, *grid, max, n + 1),
        decreases 2 * max + 2 * ONE - next_x - next_y,
    {
        proof {
            lemma_product_monotone(next_x as int, 0x2_0000_0000, ady as int, 0x8000_0000);
            lemma_product_monotone(next_y as int, 0x2_0000_0000, adx as int, 0x8000_0000);
        }
        let x_nearer = (next_x as u128) * (ady as u128) < (next_y as u128) * (adx as u128);
        assert(x_nearer == ray.x_next(i as int, j as int));
        let travel: u64;
        let along: u64;
        let side: HitSide;
        if x_nearer {
            assert(adx != 0) by (nonlinear_arith)
                requires
                    next_x * ady < next_y * adx,
                    0 <= next_x,
                    0 <= ady,
            ;
            travel = next_x;
            along = adx;
            side = HitSide::Y;
            tile_x = tile_x + step_x;
            next_x = next_x + ONE as u64;
            proof {
                i = i + 1;
            }
        } else {
            assert(ady != 0) by (nonlinear_arith)
                requires
                    !(next_x * ady < next_y * adx),
                    ady == 0 ==> next_y > 0,
                    adx != 0 || ady != 0,
                    0 <= adx,
                    0 <= next_y,
            ;
            travel = next_y;
            along = ady;
            side = HitSide::X;
            tile_y = tile_y + step_y;
            next_y = next_y + ONE as u64;
            proof {
                j = j + 1;
            }
        }
        proof {
            n = n + 1;
            assert(ray.x_crossings(n) == i);
            assert(ray.crossed_x(n) == x_nearer);
            assert(ray.travel(n) == travel);
            assert(ray.along(n) == along);
            assert(ray.side(n) == side);
        }
        let too_long = exceeds(travel, along, norm_sq, max_distance);
        assert(ray.within(n, max) == !too_long);
        if too_long {
            proof {
                lemma_miss_at(ray, *grid, max, n);
            }
            return None;
        }
        if grid.is_wall(tile_x, tile_y) {
            let len = measure(travel, along, norm_sq, max_distance);
            proof {
                lemma_cast_at(ray, *grid, max, n);
                lemma_rounded_length_unique(
                    len as int,
                    ray.length(n),
                    travel as int,
                    along as int,
                    norm_sq as int,
                );
            }
            return Some(RayHit { distance: len, side });
        }
        proof {
            assert(!blocked(ray, *grid, n));
            if travel > max {
                lemma_beyond_travel(travel as int, along as int, norm_sq as int, max);
            }
        }
    }
}

/// Casting is a function of the ray, the limit and the cells of the grid and
/// of nothing else: two casts that agree on these agree on the result.
pub proof fn lemma_cast_is_pure(
    origin_a: (i64, i64),
    direction_a: (i32, i32),
    grid_a: Grid,
    max_a: u32,
    origin_b: (i64, i64),
    direction_b: (i32, i32),
    grid_b: Grid,
    max_b: u32,
)
    requires
        origin_a == origin_b,
        direction_a == direction_b,
        max_a == max_b,
        grid_a.width == grid_b.width,
        grid_a.height == grid_b.height,
        grid_a.tiles@ == grid_b.tiles@,
    ensures
        cast(ray_of(origin_a, direction_a), grid_a, max_a as int) == cast(
            ray_of(origin_b, direction_b),
            grid_b,
            max_b as int,
        ),
{
    let ray = ray_of(origin_a, direction_a);
    let max = max_a as int;
    assert forall|n: nat| hits_at(ray, grid_a, max, n) == hits_at(ray, grid_b, max, n) by {
        assert forall|m: nat| blocked(ray, grid_a, m) == blocked(ray, grid_b, m) by {}
    }
    if exists|n: nat| hits_at(ray, grid_a, max, n) {
        let n = choose|n: nat| hits_at(ray, grid_a, max, n);
        lemma_cast_at(ray, grid_a, max, n);
        lemma_cast_at(ray, grid_b, max, n);
    } else {
        assert forall|n: nat| !hits_at(ray, grid_b, max, n) by {
            assert(!hits_at(ray, grid_a, max, n));
        }
    }
}

/// No more than `n` of the first `n` crossings are of vertical boundaries.
pub proof fn lemma_crossings_bounded(ray: Ray, n: nat)
    ensures
        ray.x_crossings(n) <= n,
        n >= 1 ==> ray.x_crossings((n - 1) as nat) <= ray.x_crossings(n) <= ray.x_crossings(
            (n - 1) as nat,
        ) + 1,
    decreases n,
{
    if n > 0 {
        lemma_crossings_bounded(ray, (n - 1) as nat);
    }
}

/// On the axis that a crossing steps on, the direction is not zero.
pub proof fn lemma_along_positive(ray: Ray, n: nat)
    requires
        ray.dx != 0 || ray.dy != 0,
        n >= 1,
    ensures
        ray.along(n) > 0,
        ray.travel(n) >= 0,
{
    lemma_crossings_bounded(ray, (n - 1) as nat);
    let i = ray.x_crossings((n - 1) as nat) as int;
    let j = n - 1 - i;
    let rx = ray.reach_x(i + 1);
    let ry = ray.reach_y(j + 1);
    let ax = magnitude(ray.dx);
    let ay = magnitude(ray.dy);
    assert(rx >= 0 && ry >= 0 && (ray.dy == 0 ==> ry > 0)) by (nonlinear_arith)
        requires
            rx == first_boundary(ray.ox, ray.dx) + i * ONE,
            ry == first_boundary(ray.oy, ray.dy) + j * ONE,
            0 <= first_boundary(ray.ox, ray.dx),
            0 <= first_boundary(ray.oy, ray.dy),
            ray.dy == 0 ==> 0 < first_boundary(ray.oy, ray.dy),
            0 <= i,
            0 <= j,
    ;
    if ray.x_next(i, j) {
        assert(ax != 0) by (nonlinear_arith)
            requires
                rx * ay < ry * ax,
                0 <= rx,
                0 <= ay,
        ;
    } else {
        assert(ay != 0) by (nonlinear_arith)
            requires
                !(rx * ay < ry * ax),
                ay == 0 ==> ry > 0,
                ax != 0 || ay != 0,
                0 <= ax,
                0 <= ry,
        ;
    }
}

/// A crossing is no farther along the ray than either of the two boundaries
/// that are pending after it.
proof fn lemma_before_pending(ray: Ray, n: nat)
    requires
        ray.dx != 0 || ray.dy != 0,
        n >= 1,
    ensures
        ray.travel(n) * magnitude(ray.dx) <= ray.reach_x(ray.x_crossings(n) as int + 1)
            * ray.along(n),
        ray.travel(n) * magnitude(ray.dy) <= ray.reach_y(ray.y_crossings(n) as int + 1)
            * ray.along(n),
{
    let i = ray.x_crossings(n) as int;
    let j = ray.y_crossings(n) as int;
    let ax = magnitude(ray.dx);
    let ay = magnitude(ray.dy);
    lemma_along_positive(ray, n);
    lemma_crossings_bounded(ray, n);
    lemma_crossings_bounded(ray, (n - 1) as nat);
    if ray.crossed_x(n) {
        assert(ray.x_next(i - 1, j));
        let t = ray.reach_x(i);
        assert(ray.reach_x(i + 1) == t + ONE);
        assert(t * ax <= (t + ONE) * ax) by (nonlinear_arith)
            requires
                0 <= ax,
        ;
    } else {
        assert(!ray.x_next(i, j - 1));
        let t = ray.reach_y(j);
        assert(ray.reach_y(j + 1) == t + ONE);
        assert(t * ay <= (t + ONE) * ay) by (nonlinear_arith)
            requires
                0 <= ay,
        ;
    }
}

/// If `t1 / a1 <= t2 / a2` and `t2 / a2 <= t3 / a3`, then `t1 / a1 <= t3 / a3`.
proof fn lemma_ratio_transitive(t1: int, a1: int, t2: int, a2: int, t3: int, a3: int)
    by (nonlinear_arith)
    requires
        0 < a1,
        0 < a2,
        0 < a3,
        t1 * a2 <= t2 * a1,
        t2 * a3 <= t3 * a2,
    ensures
        t1 * a3 <= t3 * a1,
{
    assert((t1 * a2) * a3 <= (t2 * a1) * a3);
    assert((t2 * a3) * a1 <= (t3 * a2) * a1);
    assert((t1 * a3) * a2 <= (t3 * a1) * a2);
}

/// The crossings of a ray come in the order of their distance from the
/// origin: an earlier crossing is never farther along the ray than a later
/// one.
pub proof fn lemma_crossings_ascend(ray: Ray, m: nat, n: nat)
    requires
        ray.dx != 0 || ray.dy != 0,
        1 <= m <= n,
    ensures
        ray.travel(m) * ray.along(n) <= ray.travel(n) * ray.along(m),
    decreases n - m,
{
    lemma_along_positive(ray, m);
    lemma_along_positive(ray, n);
    if m < n {
        let k = (m + 1) as nat;
        lemma_along_positive(ray, k);
        lemma_before_pending(ray, m);
        lemma_crossings_bounded(ray, m);
        lemma_crossings_bounded(ray, k);
        lemma_crossings_ascend(ray, k, n);
        assert(ray.travel(m) * ray.along(k) <= ray.travel(k) * ray.along(m)) by {
            if ray.crossed_x(k) {
                assert(ray.x_crossings(k) == ray.x_crossings(m) + 1);
            } else {
                assert(ray.y_crossings(k) == ray.y_crossings(m) + 1);
            }
        }
        lemma_ratio_transitive(
            ray.travel(m),
            ray.along(m),
            ray.travel(k),
            ray.along(k),
            ray.travel(n),
            ray.along(n),
        );
    }
}

/// If `t1 / a1 <= t2 / a2` and `t2 * sqrt(norm) / a2` does not exceed `max`,
/// then neither does `t1 * sqrt(norm) / a1`.
proof fn lemma_shorter_within(t1: int, a1: int, t2: int, a2: int, norm: int, max: int)
    requires
        0 < a1,
        0 < a2,
        0 <= t1,
        0 <= t2,
        0 <= norm,
        t1 * a2 <= t2 * a1,
        !longer(t2, a2, norm, max),
    ensures
        !longer(t1, a1, norm, max),
{
    let lhs = t1 * a2;
    let rhs = t2 * a1;
    assert(0 <= lhs) by (nonlinear_arith)
        requires
            lhs == t1 * a2,
            0 <= t1,
            0 < a2,
    ;
    lemma_square_monotone(lhs, rhs);
    lemma_product_monotone(lhs * lhs, rhs * rhs, norm, norm);
    assert((lhs * lhs) * norm == ((t1 * t1) * norm) * (a2 * a2)) by (nonlinear_arith)
        requires
            lhs == t1 * a2,
    ;
    assert((rhs * rhs) * norm == ((t2 * t2) * norm) * (a1 * a1)) by (nonlinear_arith)
        requires
            rhs == t2 * a1,
    ;
    let bound = (max * max) * (a2 * a2);
    assert(0 <= a1 * a1) by (nonlinear_arith);
    assert(0 <= (t2 * t2) * norm) by (nonlinear_arith)
        requires
            0 <= norm,
    ;
    lemma_product_monotone((t2 * t2) * norm, bound, a1 * a1, a1 * a1);
    assert(((t1 * t1) * norm) * (a2 * a2) <= ((max * max) * (a1 * a1)) * (a2 * a2))
        by (nonlinear_arith)
        requires
            ((t1 * t1) * norm) * (a2 * a2) <= ((t2 * t2) * norm) * (a1 * a1),
            ((t2 * t2) * norm) * (a1 * a1) <= ((max * max) * (a2 * a2)) * (a1 * a1),
    ;
    assert((t1 * t1) * norm <= (max * max) * (a1 * a1)) by (nonlinear_arith)
        requires
            ((t1 * t1) * norm) * (a2 * a2) <= ((max * max) * (a1 * a1)) * (a2 * a2),
            0 < a2,
    ;
}

/// A ray that is within `max` at a crossing was within `max` at every
/// crossing before it.
pub proof fn lemma_within_earlier(ray: Ray, m: nat, n: nat, max: int)
    requires
        ray.dx != 0 || ray.dy != 0,
        1 <= m <= n,
        ray.within(n, max),
    ensures
        ray.within(m, max),
{
    lemma_along_positive(ray, m);
    lemma_along_positive(ray, n);
    lemma_crossings_ascend(ray, m, n);
    assert(0 <= ray.norm_sq()) by (nonlinear_arith)
        requires
            ray.norm_sq() == ray.dx * ray.dx + ray.dy * ray.dy,
    ;
    lemma_shorter_within(
        ray.travel(m),
        ray.along(m),
        ray.travel(n),
        ray.along(n),
        ray.norm_sq(),
        max,
    );
}

/// The cast finds the first solid cell on the ray's path, and nothing else:
/// if the `n`-th crossing is the first that leads into a solid cell, the cast
/// reports that crossing if the ray is no longer than `max` there, and
/// reports a miss if it is.
pub proof fn lemma_first_wall(ray: Ray, grid: Grid, max: int, n: nat)
    requires
        ray.dx != 0 || ray.dy != 0,
        n >= 1,
        blocked(ray, grid, n),
        forall|m: nat| 1 <= m < n ==> !#[trigger] blocked(ray, grid, m),
    ensures
        cast(ray, grid, max) == if ray.within(n, max) {
            Some(RayHit { distance: ray.length(n) as u32, side: ray.side(n) })
        } else {
            None
        },
{
    if ray.within(n, max) {
        assert forall|m: nat| 1 <= m < n implies !#[trigger] blocked(ray, grid, m) && ray.within(
            m,
            max,
        ) by {
            lemma_within_earlier(ray, m, n, max);
        }
        lemma_cast_at(ray, grid, max, n);
    } else {
        assert forall|k: nat| !hits_at(ray, grid, max, k) by {
            if k > n {
                lemma_stopped(ray, grid, max, n, k);
            }
        }
    }
}

/// A ray without a vertical component crosses vertical boundaries only.
pub proof fn lemma_level_walk(ray: Ray, n: nat)
    requires
        ray.dy == 0,
        ray.dx != 0,
    ensures
        ray.x_crossings(n) == n,
    decreases n,
{
    if n > 0 {
        lemma_level_walk(ray, (n - 1) as nat);
        let reach = ray.reach_y(1);
        assert(0 < reach * magnitude(ray.dx)) by (nonlinear_arith)
            requires
                0 < reach,
                0 < magnitude(ray.dx),
        ;
        assert(ray.reach_x(n as int) * magnitude(ray.dy) == 0) by (nonlinear_arith)
            requires
                magnitude(ray.dy) == 0,
        ;
        assert(ray.x_next(n - 1, 0));
    }
}

/// A ray without a horizontal component crosses horizontal boundaries only.
pub proof fn lemma_plumb_walk(ray: Ray, n: nat)
    requires
        ray.dx == 0,
        ray.dy != 0,
    ensures
        ray.x_crossings(n) == 0,
    decreases n,
{
    if n > 0 {
        lemma_plumb_walk(ray, (n - 1) as nat);
        let reach = ray.reach_x(1);
        assert(0 <= reach * magnitude(ray.dy)) by (nonlinear_arith)
            requires
                0 <= reach,
                0 < magnitude(ray.dy),
        ;
        assert(ray.reach_y(n as int) * magnitude(ray.dx) == 0) by (nonlinear_arith)
            requires
                magnitude(ray.dx) == 0,
        ;
        assert(!ray.x_next(0, n - 1));
    }
}

/// On an axis-aligned ray the length at a crossing is the travel itself, and
/// the crossing lies within `max` exactly if the travel does.
proof fn lemma_aligned_length(travel: int, along: int, max: int)
    requires
        0 <= travel,
        0 <= max,
        along != 0,
    ensures
        rounded_length(travel, magnitude(along), along * along) == travel,
        longer(travel, magnitude(along), along * along, max) == (travel > max),
{
    let a = magnitude(along);
    let c = along * along;
    assert(a * a == c && c > 0) by (nonlinear_arith)
        requires
            a == magnitude(along),
            c == along * along,
            along != 0,
    ;
    assert(travel * travel < (travel + 1) * (travel + 1)) by (nonlinear_arith)
        requires
            0 <= travel,
    ;
    lemma_product_strict(travel * travel, (travel + 1) * (travel + 1), c);
    assert(is_rounded_length(travel, travel, a, c));
    lemma_rounded_length_unique(travel, rounded_length(travel, a, c), travel, a, c);
    if travel > max {
        assert(max * max < travel * travel) by (nonlinear_arith)
            requires
                0 <= max < travel,
        ;
        lemma_product_strict(max * max, travel * travel, c);
    } else {
        lemma_square_monotone(travel, max);
        lemma_product_monotone(travel * travel, max * max, c, c);
    }
}

/// A horizontal ray behaves as a walk along its row: it hits the first solid
/// cell of the row in its direction, on that cell's vertical face, at a
/// distance that is exactly the travel along x to that face; and it misses
/// exactly if that face lies beyond `max`.
pub proof fn lemma_horizontal_cast(ray: Ray, grid: Grid, max: int, k: nat)
    requires
        ray.dy == 0,
        ray.dx != 0,
        0 <= max,
        k >= 1,
        grid.solid(cell_of(ray.ox) + sign(ray.dx) * k, cell_of(ray.oy)),
        forall|m: int|
            1 <= m < k ==> !#[trigger] grid.solid(
                cell_of(ray.ox) + sign(ray.dx) * m,
                cell_of(ray.oy),
            ),
    ensures
        cast(ray, grid, max) == if ray.reach_x(k as int) <= max {
            Some(RayHit { distance: ray.reach_x(k as int) as u32, side: HitSide::Y })
        } else {
            None
        },
{
    assert forall|n: nat| n >= 1 implies ray.cell_x(n) == cell_of(ray.ox) + sign(ray.dx) * n
        && ray.cell_y(n) == cell_of(ray.oy) && ray.crossed_x(n) && ray.travel(n) == ray.reach_x(
        n as int,
    ) && ray.length(n) == ray.reach_x(n as int) && ray.within(n, max) == (ray.reach_x(n as int)
        <= max) by {
        lemma_level_walk(ray, n);
        lemma_level_walk(ray, (n - 1) as nat);
        lemma_aligned_length(ray.reach_x(n as int), ray.dx, max);
    }
    assert forall|m: nat| 1 <= m < k implies !blocked(ray, grid, m) by {
        assert(!grid.solid(cell_of(ray.ox) + sign(ray.dx) * m, cell_of(ray.oy)));
    }
    assert(blocked(ray, grid, k));
    if ray.reach_x(k as int) <= max {
        assert(hits_at(ray, grid, max, k));
        lemma_cast_at(ray, grid, max, k);
    } else {
        assert forall|n: nat| !hits_at(ray, grid, max, n) by {
            if n > k {
                lemma_stopped(ray, grid, max, k, n);
            }
        }
    }
}

/// A vertical ray behaves as a walk along its column: it hits the first
/// solid cell of the column in its direction, on that cell's horizontal face,
/// at a distance that is exactly the travel along y to that face; and it
/// misses exactly if that face lies beyond `max`.
pub proof fn lemma_vertical_cast(ray: Ray, grid: Grid, max: int, k: nat)
    requires
        ray.dx == 0,
        ray.dy != 0,
        0 <= max,
        k >= 1,
        grid.solid(cell_of(ray.ox), cell_of(ray.oy) + sign(ray.dy) * k),
        forall|m: int|
            1 <= m < k ==> !#[trigger] grid.solid(
                cell_of(ray.ox),
                cell_of(ray.oy) + sign(ray.dy) * m,
            ),
    ensures
        cast(ray, grid, max) == if ray.reach_y(k as int) <= max {
            Some(RayHit { distance: ray.reach_y(k as int) as u32, side: HitSide::X })
        } else {
            None
        },
{
    assert forall|n: nat| n >= 1 implies ray.cell_y(n) == cell_of(ray.oy) + sign(ray.dy) * n
        && ray.cell_x(n) == cell_of(ray.ox) && !ray.crossed_x(n) && ray.travel(n) == ray.reach_y(
        n as int,
    ) && ray.length(n) == ray.reach_y(n as int) && ray.within(n, max) == (ray.reach_y(n as int)
        <= max) by {
        lemma_plumb_walk(ray, n);
        lemma_plumb_walk(ray, (n - 1) as nat);
        lemma_aligned_length(ray.reach_y(n as int), ray.dy, max);
    }
    assert forall|m: nat| 1 <= m < k implies !blocked(ray, grid, m) by {
        assert(!grid.solid(cell_of(ray.ox), cell_of(ray.oy) + sign(ray.dy) * m));
    }
    assert(blocked(ray, grid, k));
    if ray.reach_y(k as int) <= max {
        assert(hits_at(ray, grid, max, k));
        lemma_cast_at(ray, grid, max, k);
    } else {
        assert forall|n: nat| !hits_at(ray, grid, max, n) by {
            if n > k {
                lemma_stopped(ray, grid, max, k, n);
            }
        }
    }
}

/// A ray fired along an axis toward a solid neighbouring cell hits the face
/// that the two cells share, if that face is within `max`: the distance is the
/// offset from the origin to the face, half a cell from the centre of the
/// cell, and the side is that of the face.
pub proof fn lemma_neighbour_hit(ray: Ray, grid: Grid, max: int)
    requires
        (ray.dx == 0) != (ray.dy == 0),
        grid.solid(cell_of(ray.ox) + sign(ray.dx), cell_of(ray.oy) + sign(ray.dy)),
        0 <= max,
    ensures
        ray.dy == 0 ==> cast(ray, grid, max) == if first_boundary(ray.ox, ray.dx) <= max {
            Some(RayHit { distance: first_boundary(ray.ox, ray.dx) as u32, side: HitSide::Y })
        } else {
            None
        },
        ray.dx == 0 ==> cast(ray, grid, max) == if first_boundary(ray.oy, ray.dy) <= max {
            Some(RayHit { distance: first_boundary(ray.oy, ray.dy) as u32, side: HitSide::X })
        } else {
            None
        },
        ray.dy == 0 && frac_of(ray.ox) == ONE / 2 && ONE / 2 <= max ==> cast(ray, grid, max)
            == Some(RayHit { distance: (ONE / 2) as u32, side: HitSide::Y }),
        ray.dx == 0 && frac_of(ray.oy) == ONE / 2 && ONE / 2 <= max ==> cast(ray, grid, max)
            == Some(RayHit { distance: (ONE / 2) as u32, side: HitSide::X }),
{
    if ray.dy == 0 {
        lemma_horizontal_cast(ray, grid, max, 1);
    } else {
        lemma_vertical_cast(ray, grid, max, 1);
    }
}

} // verus!
