//! The occupancy grid: a rectangle of uniform cells, each empty or solid.
//! Everything outside the rectangle counts as solid, so the world is walled
//! in without the map having to say so.

use vstd::prelude::*;
use crate::drawing::{filled, lemma_filled_narrowed, line, lined, rect_filled, Point};
use crate::fixed::narrow;
use crate::HEIGHT;

verus! {

/// Colour of the solid cells on the map.
pub const TILE_COLOUR: [u8; 4] = [0, 255, 0, 255];

/// Colour of the map's grid lines.
pub const GRID_COLOUR: [u8; 4] = [0, 200, 0, 255];

/// The occupancy map.
///
/// `tiles` holds one byte per cell, row by row: 0 for an empty cell, anything
/// else for a solid one (the value may name a material). `tile_size` is the
/// edge of a cell on the map, in pixels.
pub struct Grid {
    pub tiles: Vec<u8>,
    pub width: i32,
    pub height: i32,
    pub tile_size: i32,
}

impl Grid {
    /// The grid holds exactly one byte per cell.
    pub open spec fn wf(&self) -> bool {
        &&& 0 <= self.width
        &&& 0 <= self.height
        &&& self.tiles@.len() == self.width * self.height
        &&& 0 <= self.tile_size
    }

    /// Whether cell `(x, y)` lies inside the grid.
    pub open spec fn inside(&self, x: int, y: int) -> bool {
        0 <= x < self.width && 0 <= y < self.height
    }

    /// Whether cell `(x, y)` blocks movement and sight: it lies outside the
    /// grid, or its byte is not zero.
    pub open spec fn solid(&self, x: int, y: int) -> bool {
        !self.inside(x, y) || self.tiles@[x + y * self.width] > 0
    }

    /// Column of the cell that byte `i` of `tiles` describes.
    pub open spec fn column_of(&self, i: int) -> int {
        i % (self.width as int)
    }

    /// Row of the cell that byte `i` of `tiles` describes.
    pub open spec fn row_of(&self, i: int) -> int {
        i / (self.width as int)
    }

    /// The frame `s` with the first `n` cells of the grid drawn on the map:
    /// each cell whose byte exceeds 1 is a filled square of `tile_size` pixels.
    pub open spec fn cells_drawn(&self, s: Seq<u8>, n: nat) -> Seq<u8>
        decreases n,
    {
        if n == 0 {
            s
        } else {
            let i = n - 1;
            let prev = self.cells_drawn(s, i as nat);
            if self.tiles@[i] > 1 {
                let x = self.column_of(i) * self.tile_size;
                let y = self.row_of(i) * self.tile_size;
                filled(prev, x, y, x + self.tile_size, y + self.tile_size, TILE_COLOUR)
            } else {
                prev
            }
        }
    }

    /// The frame `s` with the first `n` horizontal grid lines drawn.
    pub open spec fn rows_ruled(&self, s: Seq<u8>, n: nat) -> Seq<u8>
        decreases n,
    {
        if n == 0 {
            s
        } else {
            let at = (n - 1) * self.tile_size;
            lined(self.rows_ruled(s, (n - 1) as nat), 0, at, HEIGHT as int, at, GRID_COLOUR)
        }
    }

    /// The frame `s` with the first `n` vertical grid lines drawn.
    pub open spec fn columns_ruled(&self, s: Seq<u8>, n: nat) -> Seq<u8>
        decreases n,
    {
        if n == 0 {
            s
        } else {
            let at = (n - 1) * self.tile_size;
            lined(self.columns_ruled(s, (n - 1) as nat), at, 0, at, HEIGHT as int, GRID_COLOUR)
        }
    }

    /// Number of grid lines in each direction: one every `tile_size` pixels
    /// from 0 up to, but not including, `HEIGHT`.
    pub open spec fn rulings(&self) -> nat {
        ((HEIGHT + self.tile_size - 1) / (self.tile_size as int)) as nat
    }

    /// The frame `s` with the whole map drawn over it.
    pub open spec fn drawn(&self, s: Seq<u8>) -> Seq<u8> {
        self.columns_ruled(
            self.rows_ruled(self.cells_drawn(s, self.tiles@.len()), self.rulings()),
            self.rulings(),
        )
    }

    /// Loads the grid from a decoded occupancy map of `width` by `height`
    /// cells, given row by row. The map is scaled to fill the height of the
    /// screen.
    pub fn init(&mut self, width: i32, height: i32, tiles: Vec<u8>)
        requires
            0 < width,
            0 < height,
            tiles@.len() == width * height,
        ensures
            final(self).wf(),
            final(self).width == width,
            final(self).height == height,
            final(self).tiles@ == tiles@,
            final(self).tile_size == HEIGHT / height,
    {
        self.width = width;
        self.height = height;
        self.tiles = tiles;
        self.tile_size = HEIGHT / height;
    }

    /// Whether cell `(x, y)` is solid. This is the only test of occupancy
    /// that ray casting and movement use.
    pub fn is_wall(&self, x: i64, y: i64) -> (solid: bool)
        requires
            self.wf(),
        ensures
            solid == self.solid(x as int, y as int),
    {
        if x < 0 || x >= self.width as i64 || y < 0 || y >= self.height as i64 {
            return true;
        }
        let len = self.tiles.len();
        assert(0 <= y * self.width && x + y * self.width < self.width * self.height)
            by (nonlinear_arith)
            requires
                0 <= x < self.width,
                0 <= y < self.height,
        ;
        let i: usize = x as usize + y as usize * self.width as usize;
        self.tiles[i] > 0
    }

    /// Draws the map: the solid cells, then the grid lines over them.
    pub fn draw(&self, frame: &mut [u8])
        requires
            self.wf(),
            0 < self.tile_size,
        ensures
            final(frame)@ == self.drawn(old(frame)@),
    {
        let ts = self.tile_size as i64;
        let mut i: usize = 0;
        while i < self.tiles.len()
            invariant
                self.wf(),
                0 < self.tile_size,
                ts == self.tile_size,
                i <= self.tiles@.len(),
                frame@ == self.cells_drawn(old(frame)@, i as nat),
            decreases self.tiles@.len() - i,
        {
            if self.tiles[i] > 1 {
                assert(0 < self.width) by (nonlinear_arith)
                    requires
                        0 <= self.width,
                        0 <= i < self.width * self.height,
                ;
                let column: usize = i % self.width as usize;
                let row: usize = i / self.width as usize;
                assert(row < self.height) by (nonlinear_arith)
                    requires
                        row == i as int / self.width as int,
                        0 <= i < self.width * self.height,
                        0 < self.width,
                ;
                let x_index = column as i64;
                let y_index = row as i64;
                assert(0 <= x_index * ts <= 0x4000_0000_0000_0000 && 0 <= y_index * ts
                    <= 0x4000_0000_0000_0000) by (nonlinear_arith)
                    requires
                        0 <= x_index <= 0x7fff_ffff,
                        0 <= y_index <= 0x7fff_ffff,
                        0 < ts <= 0x7fff_ffff,
                ;
                let x = x_index * ts;
                let y = y_index * ts;
                let lower = Point { x: narrow(x), y: narrow(y) };
                let upper = Point { x: narrow(x + ts), y: narrow(y + ts) };
                proof {
                    lemma_filled_narrowed(
                        frame@,
                        x as int,
                        y as int,
                        x + ts,
                        y + ts,
                        TILE_COLOUR,
                    );
                }
                rect_filled(frame, &lower, &upper, TILE_COLOUR);
            }
            i += 1;
        }
        let ghost mid = frame@;
        let mut at: i32 = 0;
        let ghost mut n: nat = 0;
        loop
            invariant_except_break
                0 < self.tile_size,
                0 <= at < HEIGHT,
                at == n * self.tile_size,
                frame@ == self.rows_ruled(mid, n),
            ensures
                frame@ == self.rows_ruled(mid, self.rulings()),
            decreases HEIGHT - at,
        {
            line(frame, &Point { x: 0, y: at }, &Point { x: HEIGHT, y: at }, GRID_COLOUR);
            proof {
                n = n + 1;
            }
            if self.tile_size >= HEIGHT - at {
                proof {
                    lemma_last_ruling(n as int, self.tile_size as int);
                }
                break ;
            }
            assert((n - 1) * self.tile_size + self.tile_size == n * self.tile_size)
                by (nonlinear_arith);
            at += self.tile_size;
        }
        let ghost mid = frame@;
        let mut at: i32 = 0;
        let ghost mut n: nat = 0;
        loop
            invariant_except_break
                0 < self.tile_size,
                0 <= at < HEIGHT,
                at == n * self.tile_size,
                frame@ == self.columns_ruled(mid, n),
            ensures
                frame@ == self.columns_ruled(mid, self.rulings()),
            decreases HEIGHT - at,
        {
            line(frame, &Point { x: at, y: 0 }, &Point { x: at, y: HEIGHT }, GRID_COLOUR);
            proof {
                n = n + 1;
            }
            if self.tile_size >= HEIGHT - at {
                proof {
                    lemma_last_ruling(n as int, self.tile_size as int);
                }
                break ;
            }
            assert((n - 1) * self.tile_size + self.tile_size == n * self.tile_size)
                by (nonlinear_arith);
            at += self.tile_size;
        }
    }
}

/// If the `n`-th multiple of `step` is the first to reach `HEIGHT`, then `n`
/// is `HEIGHT / step` rounded up.
proof fn lemma_last_ruling(n: int, step: int)
    requires
        0 < step,
        (n - 1) * step < HEIGHT <= (n - 1) * step + step,
    ensures
        (HEIGHT + step - 1) / step == n,
{
    assert((n - 1) * step + step == n * step) by (nonlinear_arith);
    vstd::arithmetic::div_mod::lemma_fundamental_div_mod_converse(
        HEIGHT + step - 1,
        step,
        n,
        HEIGHT + step - 1 - n * step,
    );
}

} // verus!
