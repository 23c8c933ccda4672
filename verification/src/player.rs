//! The viewer: a position and a facing angle, moved once per tick.
//!
//! Movement is resolved one axis at a time. Before the step along an axis is
//! taken, the cell a fixed distance ahead on that axis is probed, and the step
//! is dropped if that cell is solid. The viewer therefore slides along a wall
//! that it meets at an angle, and does not cut through corners.

use vstd::prelude::*;
use crate::angle::{
    column_heading, fan, turn, turned, wrap, wrapped, Heading, HALF_PI, PI, THREE_HALVES_PI,
    TWO_PI,
};
use crate::drawing::{
    filled, lemma_filled_narrowed, lemma_lined_narrowed, line, lined, rect_filled, Point,
};
use crate::fixed::{
    add_fixed, cell, cell_of, fx_mul, mul_fixed, narrow, narrowed, saturated, ONE,
};
use crate::grid::Grid;
use crate::renderer::{cast_ray, short_cast};

verus! {

/// How far ahead of the viewer a cell is probed before a step: a quarter of
/// a cell.
pub const LOOKAHEAD: i64 = 16384;

/// Walking speed: two cells per second.
pub const SPEED: i64 = 131072;

/// Turning speed: one and a half radians per second.
pub const TURN_RATE: i64 = 98304;

/// The longest tick for which a step cannot pass the probed cell: an eighth
/// of a second.
pub const SAFE_TICK: u32 = 8192;

/// Colour of the viewer's mark on the map.
pub const MARK_COLOUR: [u8; 4] = [255, 0, 0, 255];

/// Colour of the line that shows where the viewer faces.
pub const FACING_COLOUR: [u8; 4] = [255, 255, 0, 255];

/// Colour of the rays on the map.
pub const BEAM_COLOUR: [u8; 4] = [255, 0, 0, 255];

/// Colour of the marks where the rays end.
pub const HIT_COLOUR: [u8; 4] = [0, 0, 255, 255];

/// Number of rays drawn on the map.
pub const MAP_RAYS: i32 = 800;

/// Sine of half the angle over which the rays of the map fan out: an eighth
/// of a turn to each side.
pub const MAP_SPREAD: i64 = 46341;

/// Length at which a ray that hits nothing is drawn on the map: ten cells.
pub const MISS_LENGTH: i64 = 655360;

/// Length in pixels of the line that shows where the viewer faces.
pub const FACING_LENGTH: i64 = 25;

/// Half the edge, in pixels, of the marks on the map.
pub const MARK_REACH: i64 = 5;

/// The viewer. `x` and `y` are fixed-point grid coordinates, `angle` is in
/// fixed-point radians.
#[derive(Clone, Copy, Debug, PartialEq, Eq, Structural)]
pub struct Player {
    pub x: i64,
    pub y: i64,
    pub angle: i64,
}

/// What the viewer is asked to do during one tick.
#[derive(Clone, Copy, Debug, PartialEq, Eq, Structural)]
pub struct Intents {
    pub forward: bool,
    pub backward: bool,
    pub turn_left: bool,
    pub turn_right: bool,
    /// Face along the positive x axis.
    pub face_east: bool,
    /// Face up the screen.
    pub face_north: bool,
    /// Face along the negative x axis.
    pub face_west: bool,
    /// Face down the screen.
    pub face_south: bool,
}

/// One tick of input: what is held, the cosine and sine of the viewer's angle
/// as the tick begins, and the length of the tick in fixed-point seconds.
pub struct Tick {
    pub intents: Intents,
    pub heading: Heading,
    pub delta: u32,
}

/// The offset of the probe for a step in the direction of `d`.
pub open spec fn probe(d: int) -> int {
    if d < 0 {
        -LOOKAHEAD
    } else {
        LOOKAHEAD as int
    }
}

/// The largest coordinate that the viewer may have along an axis of `cells`
/// cells.
pub open spec fn limit(cells: int, tile_size: int) -> int {
    saturated(cells * tile_size * ONE)
}

/// `v` confined to the range from 0 to `hi`.
pub open spec fn confined(v: int, hi: int) -> int {
    if v < 0 {
        0
    } else if v > hi {
        hi
    } else {
        v
    }
}

/// The pixel on the map of the fixed-point coordinate `v`.
pub open spec fn on_map(v: int, tile_size: int) -> int {
    narrowed(cell_of(v * tile_size))
}

/// Offset in pixels, along one axis, of the far end of a ray of `length`
/// whose direction has the component `d` on that axis.
pub open spec fn beam_span(d: int, length: int, tile_size: int) -> int {
    (d * length * tile_size) / (ONE * ONE)
}

/// The frame `s` with a square mark around `(cx, cy)`.
pub open spec fn marked(s: Seq<u8>, cx: int, cy: int, colour: [u8; 4]) -> Seq<u8> {
    filled(s, cx - MARK_REACH, cy - MARK_REACH, cx + MARK_REACH, cy + MARK_REACH, colour)
}

impl Player {
    /// The frame `s` with one ray of the map drawn from the viewer's pixel
    /// `(sx, sy)`: a line as long as the ray, or of `MISS_LENGTH` where the
    /// ray hits nothing, and a mark at its end.
    pub open spec fn beam_drawn(
        self,
        s: Seq<u8>,
        grid: Grid,
        sx: int,
        sy: int,
        direction: (i32, i32),
    ) -> Seq<u8> {
        let length = match short_cast((self.x, self.y), direction, grid) {
            Some(d) => d as int,
            None => MISS_LENGTH as int,
        };
        let cx = sx + beam_span(direction.0 as int, length, grid.tile_size as int);
        let cy = sy + beam_span(direction.1 as int, length, grid.tile_size as int);
        marked(lined(s, sx, sy, cx, cy, BEAM_COLOUR), cx, cy, HIT_COLOUR)
    }

    /// The frame `s` with the first `n` rays of the map drawn.
    pub open spec fn beams_drawn(
        self,
        s: Seq<u8>,
        n: nat,
        grid: Grid,
        heading: Heading,
        sx: int,
        sy: int,
    ) -> Seq<u8>
        decreases n,
    {
        if n == 0 {
            s
        } else {
            let direction = turned(
                heading,
                column_heading(n - 1, MAP_RAYS as int, MAP_SPREAD as int),
            );
            self.beam_drawn(
                self.beams_drawn(s, (n - 1) as nat, grid, heading, sx, sy),
                grid,
                sx,
                sy,
                direction,
            )
        }
    }

    /// The frame `s` with the viewer drawn on the map: a mark where they
    /// stand, a line along `heading`, and the fan of rays.
    pub open spec fn drawn(self, s: Seq<u8>, grid: Grid, heading: Heading) -> Seq<u8> {
        let sx = on_map(self.x as int, grid.tile_size as int);
        let sy = on_map(self.y as int, grid.tile_size as int);
        let stand = marked(s, sx, sy, MARK_COLOUR);
        let face = lined(
            stand,
            sx,
            sy,
            sx + cell_of(heading.cos * FACING_LENGTH),
            sy + cell_of(-heading.sin * FACING_LENGTH),
            FACING_COLOUR,
        );
        self.beams_drawn(face, MAP_RAYS as nat, grid, heading, sx, sy)
    }

    /// Whether the viewer stands in a cell that is not solid.
    pub open spec fn clear(self, grid: Grid) -> bool {
        !grid.solid(cell_of(self.x as int), cell_of(self.y as int))
    }

    /// The viewer after a step of `(mx, my)`, taken one axis at a time: first
    /// x, if the cell at the probe `px` ahead is free, then y, from the new x,
    /// if the cell at the probe `py` ahead is free.
    pub open spec fn slid(self, grid: Grid, mx: int, my: int, px: int, py: int) -> Player {
        let x = if grid.solid(cell_of(saturated(self.x + px)), cell_of(self.y as int)) {
            self.x
        } else {
            saturated(self.x + mx) as i64
        };
        let y = if grid.solid(cell_of(x as int), cell_of(saturated(self.y + py))) {
            self.y
        } else {
            saturated(self.y + my) as i64
        };
        Player { x, y, angle: self.angle }
    }

    /// The viewer after walking `reach` along `(c, s)`, a direction in screen
    /// space.
    pub open spec fn walked(self, grid: Grid, c: int, s: int, reach: int) -> Player {
        self.slid(grid, fx_mul(c, reach), fx_mul(s, reach), probe(c), probe(s))
    }

    /// The viewer after the turns of one tick.
    pub open spec fn swung(self, intents: Intents, delta: int) -> Player {
        let by = fx_mul(TURN_RATE as int, delta);
        let left = if intents.turn_left {
            wrapped(self.angle + by)
        } else {
            self.angle as int
        };
        let right = if intents.turn_right {
            wrapped(left - by)
        } else {
            left
        };
        Player { x: self.x, y: self.y, angle: right as i64 }
    }

    /// The viewer after the facing commands of one tick; where several are
    /// held, the last of east, north, west, south wins.
    pub open spec fn faced(self, intents: Intents) -> Player {
        let angle = if intents.face_south {
            THREE_HALVES_PI
        } else if intents.face_west {
            PI
        } else if intents.face_north {
            HALF_PI
        } else if intents.face_east {
            0
        } else {
            self.angle
        };
        Player { x: self.x, y: self.y, angle }
    }

    /// The viewer held inside the bounds of the map.
    pub open spec fn bounded(self, grid: Grid) -> Player {
        Player {
            x: confined(self.x as int, limit(grid.width as int, grid.tile_size as int)) as i64,
            y: confined(self.y as int, limit(grid.height as int, grid.tile_size as int)) as i64,
            angle: self.angle,
        }
    }

    /// The viewer after one tick.
    pub open spec fn updated(self, intents: Intents, heading: Heading, grid: Grid, delta: int)
        -> Player {
        let reach = fx_mul(SPEED as int, delta);
        let ahead = if intents.forward {
            self.walked(grid, heading.cos as int, -heading.sin, reach)
        } else {
            self
        };
        let back = if intents.backward {
            ahead.walked(grid, -heading.cos, heading.sin as int, reach)
        } else {
            ahead
        };
        back.swung(intents, delta).faced(intents).bounded(grid)
    }

    /// The viewer after a run of ticks.
    pub open spec fn replayed(self, ticks: Seq<Tick>, grid: Grid) -> Player
        decreases ticks.len(),
    {
        if ticks.len() == 0 {
            self
        } else {
            let t = ticks.last();
            self.replayed(ticks.drop_last(), grid).updated(
                t.intents,
                t.heading,
                grid,
                t.delta as int,
            )
        }
    }

    fn slide(&mut self, grid: &Grid, mx: i64, my: i64, px: i64, py: i64)
        requires
            grid.wf(),
        ensures
            *final(self) == old(self).slid(*grid, mx as int, my as int, px as int, py as int),
    {
        if !grid.is_wall(cell(add_fixed(self.x, px)), cell(self.y)) {
            self.x = add_fixed(self.x, mx);
        }
        if !grid.is_wall(cell(self.x), cell(add_fixed(self.y, py))) {
            self.y = add_fixed(self.y, my);
        }
    }

    fn walk(&mut self, grid: &Grid, c: i64, s: i64, reach: i64)
        requires
            grid.wf(),
        ensures
            *final(self) == old(self).walked(*grid, c as int, s as int, reach as int),
    {
        let px = if c < 0 {
            -LOOKAHEAD
        } else {
            LOOKAHEAD
        };
        let py = if s < 0 {
            -LOOKAHEAD
        } else {
            LOOKAHEAD
        };
        self.slide(grid, mul_fixed(c, reach), mul_fixed(s, reach), px, py);
    }

    /// Moves the viewer by one tick of `delta` fixed-point seconds.
    ///
    /// `heading` holds the cosine and sine of the angle that the viewer has as
    /// the tick begins. Walking comes first, forward and then backward, each
    /// resolved axis by axis against `grid`; then the turns, the facing
    /// commands, and last the confinement to the map.
    pub fn update(&mut self, intents: &Intents, heading: &Heading, grid: &Grid, delta: u32)
        requires
            grid.wf(),
            heading.wf(),
        ensures
            *final(self) == old(self).updated(*intents, *heading, *grid, delta as int),
            0 <= final(self).x <= limit(grid.width as int, grid.tile_size as int),
            0 <= final(self).y <= limit(grid.height as int, grid.tile_size as int),
            0 <= old(self).angle < TWO_PI ==> 0 <= final(self).angle < TWO_PI,
            intents.turn_left || intents.turn_right || intents.face_east || intents.face_north
                || intents.face_west || intents.face_south ==> 0 <= final(self).angle < TWO_PI,
    {
        let reach = mul_fixed(SPEED, delta as i64);
        if intents.forward {
            self.walk(grid, heading.cos, -heading.sin, reach);
        }
        if intents.backward {
            self.walk(grid, -heading.cos, heading.sin, reach);
        }
        let by = mul_fixed(TURN_RATE, delta as i64);
        if intents.turn_left {
            self.angle = wrap(self.angle as i128 + by as i128);
        }
        if intents.turn_right {
            self.angle = wrap(self.angle as i128 - by as i128);
        }
        if intents.face_east {
            self.angle = 0;
        }
        if intents.face_north {
            self.angle = HALF_PI;
        }
        if intents.face_west {
            self.angle = PI;
        }
        if intents.face_south {
            self.angle = THREE_HALVES_PI;
        }
        let hi_x = bound(grid.width, grid.tile_size);
        let hi_y = bound(grid.height, grid.tile_size);
        self.x = confine(self.x, hi_x);
        self.y = confine(self.y, hi_y);
    }
}

impl Player {
    /// Casts one ray of the map from the viewer, draws it from the viewer's
    /// pixel `(screen_x, screen_y)`, and returns its length: 0 where it hits
    /// nothing.
    pub fn cast_ray(
        &self,
        screen_x: i32,
        screen_y: i32,
        grid: &Grid,
        frame: &mut [u8],
        direction: (i32, i32),
    ) -> (length: u32)
        requires
            grid.wf(),
        ensures
            final(frame)@ == self.beam_drawn(
                old(frame)@,
                *grid,
                screen_x as int,
                screen_y as int,
                direction,
            ),
            length == (match short_cast((self.x, self.y), direction, *grid) {
                Some(d) => d,
                None => 0,
            }),
    {
        let hit = cast_ray((self.x, self.y), direction, grid);
        let (length, shown): (u32, i64) = match hit {
            Some(d) => (d, d as i64),
            None => (0, MISS_LENGTH),
        };
        let cx = screen_x as i64 + span(direction.0, shown, grid.tile_size);
        let cy = screen_y as i64 + span(direction.1, shown, grid.tile_size);
        proof {
            lemma_lined_narrowed(
                frame@,
                screen_x as int,
                screen_y as int,
                cx as int,
                cy as int,
                BEAM_COLOUR,
            );
        }
        line(
            frame,
            &Point { x: screen_x, y: screen_y },
            &Point { x: narrow(cx), y: narrow(cy) },
            BEAM_COLOUR,
        );
        mark(frame, cx, cy, HIT_COLOUR);
        length
    }

    /// Draws the viewer on the map.
    pub fn draw(&self, frame: &mut [u8], grid: &Grid, heading: &Heading)
        requires
            grid.wf(),
            heading.wf(),
        ensures
            final(frame)@ == self.drawn(old(frame)@, *grid, *heading),
    {
        let screen_x = to_map(self.x, grid.tile_size);
        let screen_y = to_map(self.y, grid.tile_size);
        mark(frame, screen_x as i64, screen_y as i64, MARK_COLOUR);
        let tip_x = screen_x as i64 + cell(heading.cos * FACING_LENGTH);
        let tip_y = screen_y as i64 + cell(-heading.sin * FACING_LENGTH);
        proof {
            lemma_lined_narrowed(
                frame@,
                screen_x as int,
                screen_y as int,
                tip_x as int,
                tip_y as int,
                FACING_COLOUR,
            );
        }
        line(
            frame,
            &Point { x: screen_x, y: screen_y },
            &Point { x: narrow(tip_x), y: narrow(tip_y) },
            FACING_COLOUR,
        );
        let columns = fan(MAP_RAYS, MAP_SPREAD);
        let ghost base = frame@;
        let mut x: usize = 0;
        while x < columns.len()
            invariant
                grid.wf(),
                heading.wf(),
                columns@.len() == MAP_RAYS,
                x <= columns@.len(),
                forall|k: int|
                    0 <= k < columns@.len() ==> columns@[k] == column_heading(
                        k,
                        MAP_RAYS as int,
                        MAP_SPREAD as int,
                    ),
                forall|k: int| 0 <= k < columns@.len() ==> (#[trigger] columns@[k]).wf(),
                frame@ == self.beams_drawn(
                    base,
                    x as nat,
                    *grid,
                    *heading,
                    screen_x as int,
                    screen_y as int,
                ),
            decreases columns@.len() - x,
        {
            let direction = turn(heading, &columns[x]);
            self.cast_ray(screen_x, screen_y, grid, frame, direction);
            x += 1;
        }
    }
}

/// The pixel on the map of a fixed-point coordinate.
fn to_map(v: i64, tile_size: i32) -> (r: i32)
    ensures
        r == on_map(v as int, tile_size as int),
{
    assert(-0x4000_0000_0000_0000_0000_0000 <= v * tile_size <= 0x4000_0000_0000_0000_0000_0000)
        by (nonlinear_arith)
        requires
            -0x8000_0000_0000_0000 <= v <= 0x7fff_ffff_ffff_ffff,
            -0x8000_0000 <= tile_size <= 0x7fff_ffff,
    ;
    let p: i128 = (v as i128) * (tile_size as i128);
    let q: i128 = if p >= 0 {
        p / 65536
    } else {
        -1 - ((-1 - p) / 65536)
    };
    if q < i32::MIN as i128 {
        i32::MIN
    } else if q > i32::MAX as i128 {
        i32::MAX
    } else {
        q as i32
    }
}

/// Offset in pixels of the far end of a ray along one axis.
fn span(d: i32, length: i64, tile_size: i32) -> (r: i64)
    requires
        0 <= length <= 0xffff_ffff,
    ensures
        r == beam_span(d as int, length as int, tile_size as int),
        -0x4000_0000_0000_0000 <= r <= 0x4000_0000_0000_0000,
{
    assert(-0x4000_0000_0000_0000_0000_0000 <= d * length * tile_size
        <= 0x4000_0000_0000_0000_0000_0000 && -0x8000_0000_0000_0000 <= d * length
        <= 0x8000_0000_0000_0000) by (nonlinear_arith)
        requires
            -0x8000_0000 <= d <= 0x7fff_ffff,
            0 <= length <= 0xffff_ffff,
            -0x8000_0000 <= tile_size <= 0x7fff_ffff,
    ;
    let p: i128 = (d as i128) * (length as i128) * (tile_size as i128);
    assert(ONE * ONE == 0x1_0000_0000);
    let q: i128 = if p >= 0 {
        p / 0x1_0000_0000
    } else {
        -1 - ((-1 - p) / 0x1_0000_0000)
    };
    q as i64
}

/// Paints a square mark around `(cx, cy)`.
fn mark(frame: &mut [u8], cx: i64, cy: i64, colour: [u8; 4])
    requires
        -0x7000_0000_0000_0000 <= cx <= 0x7000_0000_0000_0000,
        -0x7000_0000_0000_0000 <= cy <= 0x7000_0000_0000_0000,
    ensures
        final(frame)@ == marked(old(frame)@, cx as int, cy as int, colour),
{
    proof {
        lemma_filled_narrowed(
            frame@,
            cx - MARK_REACH,
            cy - MARK_REACH,
            cx + MARK_REACH,
            cy + MARK_REACH,
            colour,
        );
    }
    rect_filled(
        frame,
        &Point { x: narrow(cx - MARK_REACH), y: narrow(cy - MARK_REACH) },
        &Point { x: narrow(cx + MARK_REACH), y: narrow(cy + MARK_REACH) },
        colour,
    );
}

fn bound(cells: i32, tile_size: i32) -> (r: i64)
    requires
        0 <= cells,
        0 <= tile_size,
    ensures
        r == limit(cells as int, tile_size as int),
        0 <= r,
{
    assert(0 <= cells * tile_size <= 0x4000_0000_0000_0000) by (nonlinear_arith)
        requires
            0 <= cells <= 0x7fff_ffff,
            0 <= tile_size <= 0x7fff_ffff,
    ;
    let area: i128 = (cells as i128) * (tile_size as i128);
    assert(0 <= area <= 0x4000_0000_0000_0000);
    let scaled: i128 = area * 65536;
    if scaled > i64::MAX as i128 {
        i64::MAX
    } else {
        scaled as i64
    }
}

fn confine(v: i64, hi: i64) -> (r: i64)
    ensures
        r == confined(v as int, hi as int),
{
    if v < 0 {
        0
    } else if v > hi {
        hi
    } else {
        v
    }
}

/// A fixed-point product of a factor of magnitude at most 1 with a reach that
/// is not negative has the sign of the factor and at most the size of the
/// reach.
proof fn lemma_step_bounds(c: int, reach: int)
    requires
        -ONE <= c <= ONE,
        0 <= reach <= LOOKAHEAD,
    ensures
        c >= 0 ==> 0 <= fx_mul(c, reach) <= reach,
        c < 0 ==> -reach <= fx_mul(c, reach) <= 0,
{
    let p = c * reach;
    assert(-65536 * reach <= p <= 65536 * reach && (c >= 0 ==> p >= 0) && (c < 0 ==> p <= 0))
        by (nonlinear_arith)
        requires
            p == c * reach,
            -65536 <= c <= 65536,
            0 <= reach,
    ;
    assert(-reach <= p / 65536 <= reach);
}

/// A step that stays behind its probe on each axis leaves the viewer in a
/// cell that is not solid.
proof fn lemma_slide_stays_clear(p: Player, grid: Grid, mx: int, my: int, px: int, py: int)
    requires
        grid.wf(),
        p.clear(grid),
        px == LOOKAHEAD || px == -LOOKAHEAD,
        py == LOOKAHEAD || py == -LOOKAHEAD,
        px > 0 ==> 0 <= mx <= px,
        px < 0 ==> px <= mx <= 0,
        py > 0 ==> 0 <= my <= py,
        py < 0 ==> py <= my <= 0,
    ensures
        p.slid(grid, mx, my, px, py).clear(grid),
{
    let q = p.slid(grid, mx, my, px, py);
    assert(cell_of(q.x as int) == cell_of(p.x as int) || cell_of(q.x as int) == cell_of(
        saturated(p.x + px),
    ));
    assert(!grid.solid(cell_of(q.x as int), cell_of(p.y as int)));
    assert(cell_of(q.y as int) == cell_of(p.y as int) || cell_of(q.y as int) == cell_of(
        saturated(p.y + py),
    ));
}

/// Confinement to the map leaves a viewer who stands inside the grid where
/// they are.
proof fn lemma_bounded_keeps(p: Player, grid: Grid)
    requires
        grid.wf(),
        grid.tile_size >= 1,
        p.clear(grid),
    ensures
        p.bounded(grid) == p,
{
    assert(grid.width * grid.tile_size * ONE >= grid.width * ONE && grid.height * grid.tile_size
        * ONE >= grid.height * ONE) by (nonlinear_arith)
        requires
            grid.tile_size >= 1,
            grid.width >= 0,
            grid.height >= 0,
    ;
}

/// A tick of at most `SAFE_TICK` never moves the viewer from a cell that is
/// not solid into one that is: whatever is held, the viewer stands in a free
/// cell afterwards.
pub proof fn lemma_update_stays_clear(
    p: Player,
    intents: Intents,
    heading: Heading,
    grid: Grid,
    delta: u32,
)
    requires
        grid.wf(),
        grid.tile_size >= 1,
        heading.wf(),
        delta <= SAFE_TICK,
        p.clear(grid),
    ensures
        p.updated(intents, heading, grid, delta as int).clear(grid),
{
    let reach = fx_mul(SPEED as int, delta as int);
    assert(reach == 2 * delta) by {
        assert(SPEED as int * delta as int == 131072 * delta);
        assert((131072 * delta) / 65536 == 2 * delta);
    }
    let ahead = if intents.forward {
        p.walked(grid, heading.cos as int, -heading.sin, reach)
    } else {
        p
    };
    if intents.forward {
        lemma_step_bounds(heading.cos as int, reach);
        lemma_step_bounds(-heading.sin, reach);
        lemma_slide_stays_clear(
            p,
            grid,
            fx_mul(heading.cos as int, reach),
            fx_mul(-heading.sin, reach),
            probe(heading.cos as int),
            probe(-heading.sin),
        );
    }
    let back = if intents.backward {
        ahead.walked(grid, -heading.cos, heading.sin as int, reach)
    } else {
        ahead
    };
    if intents.backward {
        lemma_step_bounds(-heading.cos, reach);
        lemma_step_bounds(heading.sin as int, reach);
        lemma_slide_stays_clear(
            ahead,
            grid,
            fx_mul(-heading.cos, reach),
            fx_mul(heading.sin as int, reach),
            probe(-heading.cos),
            probe(heading.sin as int),
        );
    }
    let turned = back.swung(intents, delta as int).faced(intents);
    assert(turned.x == back.x && turned.y == back.y);
    lemma_bounded_keeps(turned, grid);
}

/// However many ticks of at most `SAFE_TICK` follow one another, and whatever
/// is held during each, a viewer who starts in a cell that is not solid is
/// never found in a solid one.
pub proof fn lemma_replay_stays_clear(p: Player, ticks: Seq<Tick>, grid: Grid)
    requires
        grid.wf(),
        grid.tile_size >= 1,
        p.clear(grid),
        forall|k: int|
            0 <= k < ticks.len() ==> (#[trigger] ticks[k]).heading.wf() && ticks[k].delta
                <= SAFE_TICK,
    ensures
        p.replayed(ticks, grid).clear(grid),
    decreases ticks.len(),
{
    if ticks.len() > 0 {
        let t = ticks.last();
        lemma_replay_stays_clear(p, ticks.drop_last(), grid);
        lemma_update_stays_clear(
            p.replayed(ticks.drop_last(), grid),
            t.intents,
            t.heading,
            grid,
            t.delta,
        );
    }
}

} // verus!
