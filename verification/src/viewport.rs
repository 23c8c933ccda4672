//! The first-person view: one ray per column of the view, and one vertical
//! strip of wall for each ray that hits.
//!
//! The columns are spaced evenly on a plane across the view axis, not evenly
//! by angle, so straight walls are drawn straight. The length of each ray is
//! multiplied by the cosine of its angle to the view axis before it is turned
//! into a height, which takes the fisheye bulge out of the picture.

use vstd::prelude::*;
use crate::angle::{
    column_heading, fan, is_root, lemma_root_unique, root, slope, turn, turned, Heading,
};
use crate::drawing::{filled, line, lined, rect_filled, set_pixel, striped, Point};
use crate::fixed::{
    add_fixed, cell_of, frac, frac_of, fx_mul, mul_fixed, narrow, narrowed, saturated, ONE,
};
use crate::grid::{Grid, GRID_COLOUR};
use crate::player::Player;
use crate::ray::{cast, cast_ray, ray_of, HitSide, RayHit};
use crate::{HEIGHT, WIDTH};

verus! {

/// Colour of the upper half of the view.
pub const SKY_COLOUR: [u8; 4] = [0, 128, 175, 255];

/// Colour of the lower half of the view.
pub const FLOOR_COLOUR: [u8; 4] = [128, 128, 128, 255];

/// Colour of the seams of the wall texture.
pub const SEAM_COLOUR: [u8; 4] = [0, 0, 0, 255];

/// How far a ray of the view is followed: ten cells.
pub const VIEW_RANGE: u32 = 655360;

/// Sine of half the field of view, for a field of view of twice the angle
/// whose tangent is 0.66.
pub const VIEW_SPREAD: i64 = 36100;

/// Texture coordinates up to this value lie on a seam: 0.05.
pub const SEAM_LOW: i64 = 3277;

/// Texture coordinates from this value on lie on a seam: 0.95.
pub const SEAM_HIGH: i64 = 62259;

/// Brightness of an untextured wall at a distance of one cell.
pub const FLAT_LEVEL: i64 = 200;

/// The region of the screen that shows the first-person view, the directions
/// of its columns, and the wall texture.
pub struct Viewport {
    pub x_offset: i32,
    pub y_offset: i32,
    pub width: i32,
    pub height: i32,
    /// Sine of half the field of view.
    pub spread: i64,
    /// Direction of each column relative to the view axis.
    pub columns: Vec<Heading>,
    /// RGBA texels, row by row; empty while no texture is loaded.
    pub texture: Vec<u8>,
    pub tex_width: usize,
    pub tex_height: usize,
}

/// A ray's length along the view axis: its length times the cosine of its
/// angle to the axis.
pub open spec fn corrected(raw: int, cos: int) -> int {
    fx_mul(raw, cos)
}

/// Height in pixels of a wall at depth `depth` in a view `height` pixels high.
pub open spec fn wall_height(height: int, depth: int) -> int {
    if depth <= 0 {
        i32::MAX as int
    } else {
        narrowed((height * ONE) / depth)
    }
}

/// Half of `v`, rounded toward zero.
pub open spec fn half(v: int) -> int {
    if v >= 0 {
        v / 2
    } else {
        -((-v) / 2)
    }
}

/// Where along the wall a ray hit: the fractional part of the coordinate of
/// the hit point that runs along the boundary crossed.
pub open spec fn wall_coordinate(origin: (i64, i64), direction: (i32, i32), hit: RayHit) -> int {
    let reach = hit.distance as int;
    match hit.side {
        HitSide::Y => frac_of(saturated(origin.1 + fx_mul(direction.1 as int, reach))),
        HitSide::X => frac_of(saturated(origin.0 + fx_mul(direction.0 as int, reach))),
    }
}

/// Brightness of an untextured wall at `distance`: inversely proportional to
/// the distance, at most 255.
pub open spec fn flat_level(distance: int) -> int {
    if distance <= 0 {
        255
    } else if (FLAT_LEVEL * ONE) / distance > 255 {
        255
    } else {
        (FLAT_LEVEL * ONE) / distance
    }
}

/// The colour `c` at half brightness.
pub open spec fn darkened(c: [u8; 4]) -> [u8; 4] {
    [c[0] / 2, c[1] / 2, c[2] / 2, c[3]]
}

impl Viewport {
    /// The view lies on the screen, its table of columns is the one that its
    /// width and spread give, and the texture holds four bytes per texel.
    pub open spec fn wf(&self) -> bool {
        &&& 0 <= self.x_offset
        &&& 0 <= self.y_offset
        &&& 0 <= self.width
        &&& 0 <= self.height
        &&& self.x_offset + self.width <= WIDTH
        &&& self.y_offset + self.height <= HEIGHT
        &&& 0 <= self.spread <= ONE
        &&& self.columns@.len() == self.width
        &&& forall|x: int|
            0 <= x < self.width ==> #[trigger] self.columns@[x] == column_heading(
                x,
                self.width as int,
                self.spread as int,
            )
        &&& forall|x: int| 0 <= x < self.width ==> (#[trigger] self.columns@[x]).wf()
        &&& self.texture@.len() == self.tex_width * self.tex_height * 4
    }

    /// Whether a texture is loaded.
    pub open spec fn textured(&self) -> bool {
        self.tex_width > 0 && self.tex_height > 0
    }

    /// Index in `texture` of the first byte of the texel at `(u, v)`, both
    /// fixed-point fractions of the texture's width and height.
    pub open spec fn texel_start(&self, u: int, v: int) -> int {
        (cell_of(u * self.tex_width) + cell_of(v * self.tex_height) * self.tex_width) * 4
    }

    /// The colour of a wall at texture coordinates `(u, v)`.
    ///
    /// With a texture: black on the seams, else the texel, at half brightness
    /// for walls that run along the x axis. Without one: a flat colour that
    /// fades with the distance, green for walls that run along the x axis and
    /// red for the others.
    pub open spec fn shade(&self, u: int, v: int, distance: int, side: HitSide) -> [u8; 4] {
        if !self.textured() {
            let level = flat_level(distance) as u8;
            match side {
                HitSide::X => [0u8, level, 0u8, 255u8],
                HitSide::Y => [level, 0u8, 0u8, 255u8],
            }
        } else if u <= SEAM_LOW || u >= SEAM_HIGH || v <= SEAM_LOW || v >= SEAM_HIGH {
            SEAM_COLOUR
        } else {
            let i = self.texel_start(u, v);
            let c = [
                self.texture@[i],
                self.texture@[i + 1],
                self.texture@[i + 2],
                self.texture@[i + 3],
            ];
            match side {
                HitSide::X => darkened(c),
                HitSide::Y => c,
            }
        }
    }

    /// The frame `s` with the empty view drawn: sky above, floor below, and
    /// a border around both.
    pub open spec fn backdrop(&self, s: Seq<u8>) -> Seq<u8> {
        let left = self.x_offset as int;
        let top = self.y_offset as int;
        let right = self.x_offset + self.width;
        let bottom = self.y_offset + self.height;
        let middle = self.y_offset + self.height / 2;
        let sky = filled(s, left, top, right, middle, SKY_COLOUR);
        let floor = filled(sky, left, middle, right, bottom, FLOOR_COLOUR);
        let a = lined(floor, left, top, right, top, GRID_COLOUR);
        let b = lined(a, left, bottom, right, bottom, GRID_COLOUR);
        let c = lined(b, left, top, left, bottom, GRID_COLOUR);
        lined(c, right, top, right, bottom, GRID_COLOUR)
    }

    /// The direction, in screen space, of the ray through column `x` for a
    /// viewer who faces along `heading`.
    pub open spec fn ray_direction(&self, x: int, heading: Heading) -> (i32, i32) {
        turned(heading, self.columns@[x])
    }

    /// The frame `s` with the wall strip of column `x` that `hit` gives.
    pub open spec fn strip_drawn(
        &self,
        s: Seq<u8>,
        x: int,
        origin: (i64, i64),
        direction: (i32, i32),
        hit: RayHit,
    ) -> Seq<u8> {
        let depth = corrected(hit.distance as int, self.columns@[x].cos as int);
        let tall = wall_height(self.height as int, depth);
        let top = self.y_offset + half(self.height - tall);
        let u = wall_coordinate(origin, direction, hit);
        striped(
            s,
            self.x_offset + x,
            top,
            tall,
            |r: int| self.shade(u, (r * ONE) / tall, hit.distance as int, hit.side),
        )
    }

    /// The frame `s` with column `x` of the view drawn: the strip of the wall
    /// that the column's ray hits, or nothing where the ray hits none.
    pub open spec fn column_drawn(
        &self,
        s: Seq<u8>,
        x: int,
        player: Player,
        heading: Heading,
        grid: Grid,
    ) -> Seq<u8> {
        let origin = (player.x, player.y);
        let direction = self.ray_direction(x, heading);
        match cast(ray_of(origin, direction), grid, VIEW_RANGE as int) {
            Some(hit) => self.strip_drawn(s, x, origin, direction, hit),
            None => s,
        }
    }

    /// The frame `s` with the first `n` columns of the view drawn.
    pub open spec fn columns_drawn(
        &self,
        s: Seq<u8>,
        n: nat,
        player: Player,
        heading: Heading,
        grid: Grid,
    ) -> Seq<u8>
        decreases n,
    {
        if n == 0 {
            s
        } else {
            self.column_drawn(
                self.columns_drawn(s, (n - 1) as nat, player, heading, grid),
                n - 1,
                player,
                heading,
                grid,
            )
        }
    }

    /// The frame `s` with the whole view drawn over it.
    pub open spec fn drawn(&self, s: Seq<u8>, player: Player, heading: Heading, grid: Grid) -> Seq<
        u8,
    > {
        self.columns_drawn(self.backdrop(s), self.width as nat, player, heading, grid)
    }

    /// The view at its place on the screen, without a texture.
    pub fn new() -> (view: Viewport)
        ensures
            view.wf(),
            view.x_offset == HEIGHT + 20,
            view.y_offset == 1,
            view.width == WIDTH - 10 - (HEIGHT + 20),
            view.height == HEIGHT - 1,
            view.spread == VIEW_SPREAD,
            view.tex_width == 0,
            view.tex_height == 0,
            view.texture@.len() == 0,
            !view.textured(),
    {
        let width = WIDTH - 10 - (HEIGHT + 20);
        let view = Viewport {
            x_offset: HEIGHT + 20,
            y_offset: 1,
            width,
            height: HEIGHT - 1,
            spread: VIEW_SPREAD,
            columns: fan(width, VIEW_SPREAD),
            texture: Vec::new(),
            tex_width: 0,
            tex_height: 0,
        };
        assert(view.tex_width * view.tex_height * 4 == 0) by (nonlinear_arith)
            requires
                view.tex_width == 0,
        ;
        assert(view.columns@.len() == view.width);
        assert(forall|x: int|
            0 <= x < view.width ==> #[trigger] view.columns@[x] == column_heading(
                x,
                view.width as int,
                view.spread as int,
            ));
        view
    }

    /// Loads the wall texture from decoded RGBA texels of `width` by `height`,
    /// given row by row.
    pub fn init(&mut self, width: u32, height: u32, texels: Vec<u8>)
        requires
            old(self).wf(),
            texels@.len() == width * height * 4,
        ensures
            final(self).wf(),
            final(self).texture@ == texels@,
            final(self).tex_width == width,
            final(self).tex_height == height,
            final(self).x_offset == old(self).x_offset,
            final(self).y_offset == old(self).y_offset,
            final(self).width == old(self).width,
            final(self).height == old(self).height,
            final(self).spread == old(self).spread,
            final(self).columns@ == old(self).columns@,
    {
        self.tex_width = width as usize;
        self.tex_height = height as usize;
        self.texture = texels;
    }

    /// The colour of a wall at texture coordinates `(u, v)`.
    pub fn sample_colour(&self, u: i64, v: i64, distance: u32, side: HitSide) -> (c: [u8; 4])
        requires
            self.wf(),
            0 <= u < ONE,
            0 <= v < ONE,
        ensures
            c == self.shade(u as int, v as int, distance as int, side),
    {
        if self.tex_width == 0 || self.tex_height == 0 {
            let level: u8 = if distance == 0 {
                255
            } else {
                let l = (FLAT_LEVEL * ONE) / (distance as i64);
                if l > 255 {
                    255
                } else {
                    l as u8
                }
            };
            let c = match side {
                HitSide::X => [0u8, level, 0u8, 255u8],
                HitSide::Y => [level, 0u8, 0u8, 255u8],
            };
            return c;
        }
        if u <= SEAM_LOW || u >= SEAM_HIGH || v <= SEAM_LOW || v >= SEAM_HIGH {
            return SEAM_COLOUR;
        }
        let tw = self.tex_width as u128;
        let th = self.tex_height as u128;
        assert(0 <= u * tw < 65536 * tw && 0 <= v * th < 65536 * th) by (nonlinear_arith)
            requires
                0 <= u < 65536,
                0 <= v < 65536,
                0 < tw,
                0 < th,
        ;
        let column: u128 = ((u as u128) * tw) / 65536;
        let row: u128 = ((v as u128) * th) / 65536;
        assert(column == cell_of(u * tw) && row == cell_of(v * th));
        assert(column < tw && row < th);
        assert(0 <= row * tw && (column + row * tw) * 4 + 4 <= tw * th * 4) by (nonlinear_arith)
            requires
                0 <= column < tw,
                0 <= row < th,
        ;
        let size = self.texture.len();
        assert(tw * th * 4 == size);
        let i: usize = ((column + row * tw) * 4) as usize;
        let c = [self.texture[i], self.texture[i + 1], self.texture[i + 2], self.texture[i + 3]];
        match side {
            HitSide::X => [c[0] / 2, c[1] / 2, c[2] / 2, c[3]],
            HitSide::Y => c,
        }
    }

    /// Draws the wall strip of column `x` for a ray that hit.
    pub fn draw_strip(
        &self,
        frame: &mut [u8],
        x: i32,
        origin: (i64, i64),
        direction: (i32, i32),
        hit: RayHit,
    )
        requires
            self.wf(),
            0 <= x < self.width,
        ensures
            final(frame)@ == self.strip_drawn(old(frame)@, x as int, origin, direction, hit),
    {
        let ghost before = frame@;
        let ghost len = frame@.len() as int;
        let cos = self.columns[x as usize].cos;
        let depth = mul_fixed(hit.distance as i64, cos);
        let tall: i64 = if depth <= 0 {
            i32::MAX as i64
        } else {
            narrow(((self.height as i64) * ONE) / depth) as i64
        };
        let gap: i64 = self.height as i64 - tall;
        let top: i64 = self.y_offset as i64 + (if gap >= 0 {
            gap / 2
        } else {
            -((-gap) / 2)
        });
        let along: i64 = match hit.side {
            HitSide::Y => add_fixed(origin.1, mul_fixed(direction.1 as i64, hit.distance as i64)),
            HitSide::X => add_fixed(origin.0, mul_fixed(direction.0 as i64, hit.distance as i64)),
        };
        let u = frac(along);
        let px = self.x_offset + x;
        let ghost colour_at = |r: int|
            self.shade(u as int, (r * ONE) / tall as int, hit.distance as int, hit.side);
        assert(depth == corrected(hit.distance as int, self.columns@[x as int].cos as int));
        assert(tall == wall_height(self.height as int, depth as int));
        assert(top == self.y_offset + half(self.height - tall));
        assert(u == wall_coordinate(origin, direction, hit));
        if tall <= 0 {
            assert(frame@ =~= striped(before, px as int, top as int, tall as int, colour_at));
            return ;
        }
        let first: i64 = if top < 0 {
            -top
        } else {
            0
        };
        let last: i64 = if tall < HEIGHT as i64 - top {
            tall
        } else {
            HEIGHT as i64 - top
        };
        let mut r: i64 = first;
        assert(frame@ =~= striped(before, px as int, top as int, r as int, colour_at));
        while r < last
            invariant
                self.wf(),
                0 <= u < ONE,
                0 < tall <= i32::MAX,
                0 <= px < WIDTH,
                -0x8000_0000 <= top <= 0x8000_0000,
                first == (if top < 0 {
                    -top
                } else {
                    0
                }),
                last == (if tall < HEIGHT - top {
                    tall as int
                } else {
                    HEIGHT - top
                }),
                first <= r,
                r <= last || r == first,
                frame@.len() == len,
                before.len() == len,
                colour_at == (|r: int|
                    self.shade(u as int, (r * ONE) / tall as int, hit.distance as int, hit.side)),
                frame@ == striped(before, px as int, top as int, r as int, colour_at),
            decreases last - r,
        {
            assert(0 <= r * ONE < tall * ONE) by (nonlinear_arith)
                requires
                    0 <= r < tall,
            ;
            let v = (r * ONE) / tall;
            assert(0 <= v < ONE) by (nonlinear_arith)
                requires
                    v == (r * ONE) / (tall as int),
                    0 <= r * ONE < tall * ONE,
                    0 < tall,
            ;
            let colour = self.sample_colour(u, v, hit.distance, hit.side);
            assert(colour == colour_at(r as int));
            set_pixel(frame, px, (top + r) as i32, colour);
            r += 1;
            assert(frame@ =~= striped(before, px as int, top as int, r as int, colour_at));
        }
        assert(frame@ =~= striped(before, px as int, top as int, tall as int, colour_at));
    }

    /// Draws column `x` of the view.
    pub fn draw_column(
        &self,
        frame: &mut [u8],
        x: i32,
        player: &Player,
        heading: &Heading,
        grid: &Grid,
    )
        requires
            self.wf(),
            grid.wf(),
            heading.wf(),
            0 <= x < self.width,
        ensures
            final(frame)@ == self.column_drawn(old(frame)@, x as int, *player, *heading, *grid),
    {
        let origin = (player.x, player.y);
        let direction = turn(heading, &self.columns[x as usize]);
        match cast_ray(origin, direction, grid, VIEW_RANGE) {
            Some(hit) => self.draw_strip(frame, x, origin, direction, hit),
            None => {},
        }
    }

    /// Draws the view of `player`, who faces along `heading`, over `grid`.
    ///
    /// Nothing is kept from one frame to the next: the sky, the floor and
    /// every column are drawn anew.
    pub fn draw(&self, frame: &mut [u8], player: &Player, heading: &Heading, grid: &Grid)
        requires
            self.wf(),
            grid.wf(),
            heading.wf(),
        ensures
            final(frame)@ == self.drawn(old(frame)@, *player, *heading, *grid),
    {
        let left = self.x_offset;
        let top = self.y_offset;
        let right = self.x_offset + self.width;
        let bottom = self.y_offset + self.height;
        let middle = self.y_offset + self.height / 2;
        rect_filled(frame, &Point { x: left, y: top }, &Point { x: right, y: middle }, SKY_COLOUR);
        rect_filled(
            frame,
            &Point { x: left, y: middle },
            &Point { x: right, y: bottom },
            FLOOR_COLOUR,
        );
        line(frame, &Point { x: left, y: top }, &Point { x: right, y: top }, GRID_COLOUR);
        line(frame, &Point { x: left, y: bottom }, &Point { x: right, y: bottom }, GRID_COLOUR);
        line(frame, &Point { x: left, y: top }, &Point { x: left, y: bottom }, GRID_COLOUR);
        line(frame, &Point { x: right, y: top }, &Point { x: right, y: bottom }, GRID_COLOUR);
        let ghost base = frame@;
        let mut x: i32 = 0;
        while x < self.width
            invariant
                self.wf(),
                grid.wf(),
                heading.wf(),
                0 <= x <= self.width,
                frame@ == self.columns_drawn(base, x as nat, *player, *heading, *grid),
            decreases self.width - x,
        {
            self.draw_column(frame, x, player, heading, grid);
            x += 1;
        }
    }
}

/// A ray along the view axis is not corrected: where the cosine of the angle
/// between ray and axis is 1, the depth is the length of the ray.
pub proof fn lemma_axis_ray_uncorrected(raw: u32)
    ensures
        corrected(raw as int, ONE as int) == raw,
{
    assert((raw * ONE) / (ONE as int) == raw);
}

/// The middle column of a view of even width looks along the view axis: its
/// direction is that of the viewer, and its rays are not corrected.
pub proof fn lemma_middle_column(width: int, spread: int, heading: Heading, raw: u32)
    requires
        0 < width,
        width % 2 == 0,
        heading.wf(),
    ensures
        column_heading(width / 2, width, spread) == (Heading { cos: ONE, sin: 0 }),
        turned(heading, column_heading(width / 2, width, spread)) == (
            heading.cos as i32,
            (-heading.sin) as i32,
        ),
        corrected(raw as int, column_heading(width / 2, width, spread).cos as int) == raw,
{
    let x = width / 2;
    assert(spread * (2 * x - width) == 0) by (nonlinear_arith)
        requires
            2 * x - width == 0,
    ;
    assert(slope(x, width, spread) == 0) by (nonlinear_arith)
        requires
            slope(x, width, spread) == 0int / width,
            0 < width,
    ;
    assert(is_root(ONE as int, ONE * ONE + 0 * 0));
    lemma_root_unique(ONE as int, root(ONE * ONE + 0 * 0), ONE * ONE + 0 * 0);
    let h = column_heading(x, width, spread);
    assert(h.cos == ONE && h.sin == 0);
    assert(heading.cos * ONE + heading.sin * 0 == heading.cos * ONE);
    assert(heading.cos * 0 - heading.sin * ONE == -heading.sin * ONE);
    assert(cell_of(heading.cos * ONE) == heading.cos);
    assert(cell_of(-heading.sin * ONE) == -heading.sin);
    lemma_axis_ray_uncorrected(raw);
}

/// The nearer the wall, the taller it is drawn: the height of a wall never
/// shrinks as the depth does.
pub proof fn lemma_wall_height_monotone(height: int, near: int, far: int)
    requires
        0 <= height,
        0 <= near <= far,
    ensures
        wall_height(height, far) <= wall_height(height, near),
{
    assert(0 <= height * ONE) by (nonlinear_arith)
        requires
            0 <= height,
    ;
    if near > 0 {
        vstd::arithmetic::div_mod::lemma_div_is_ordered_by_denominator(height * ONE, near, far);
    }
}

} // verus!
