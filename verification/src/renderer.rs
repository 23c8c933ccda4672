//! The short-range cast that the map overlay uses.

use vstd::prelude::*;
use crate::grid::Grid;
use crate::ray::{cast, ray_of};

verus! {

/// How far a ray is followed on the map: two and a half cells.
pub const SHORT_RANGE: u32 = 163840;

/// What a short-range cast gives: the distance of the hit, if there is one.
pub open spec fn short_cast(origin: (i64, i64), direction: (i32, i32), grid: Grid) -> Option<u32> {
    match cast(ray_of(origin, direction), grid, SHORT_RANGE as int) {
        Some(hit) => Some(hit.distance),
        None => None,
    }
}

/// Casts a ray of at most `SHORT_RANGE` and returns the distance to the wall
/// it hits.
pub fn cast_ray(origin: (i64, i64), direction: (i32, i32), grid: &Grid) -> (distance: Option<u32>)
    requires
        grid.wf(),
    ensures
        distance == short_cast(origin, direction, *grid),
        distance matches Some(d) ==> d <= SHORT_RANGE,
{
    match crate::ray::cast_ray(origin, direction, grid, SHORT_RANGE) {
        Some(hit) => Some(hit.distance),
        None => None,
    }
}

} // verus!
