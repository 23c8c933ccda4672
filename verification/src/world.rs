//! The whole scene: the grid, the viewer in it, and the view of it.

use vstd::prelude::*;
use crate::angle::Heading;
use crate::drawing::{clear, cleared};
use crate::fixed::ONE;
use crate::grid::Grid;
use crate::player::{Intents, Player};
use crate::viewport::{Viewport, VIEW_SPREAD};
use crate::{HEIGHT, WIDTH};

verus! {

/// The state of the scene.
pub struct World {
    pub grid: Grid,
    pub player: Player,
    pub viewport: Viewport,
}

impl World {
    /// The parts of the world are well formed.
    pub open spec fn wf(&self) -> bool {
        self.grid.wf() && self.viewport.wf()
    }

    /// Whether the world holds a map that can be drawn: one whose cells are at
    /// least a pixel high on the screen.
    pub open spec fn loaded(&self) -> bool {
        self.wf() && 0 < self.grid.tile_size
    }

    /// The frame of `len` bytes that shows the world to a viewer who faces
    /// along `heading`: the map, the viewer on it, and the first-person view,
    /// drawn in that order over a cleared frame.
    pub open spec fn drawn(&self, len: nat, heading: Heading) -> Seq<u8> {
        self.viewport.drawn(
            self.player.drawn(self.grid.drawn(cleared(len)), self.grid, heading),
            self.player,
            heading,
            self.grid,
        )
    }

    /// A world without a map, the viewer at the origin facing along the
    /// positive x axis, and the view at its place, without a texture.
    pub fn new() -> (world: World)
        ensures
            world.wf(),
            world.grid.width == 0,
            world.grid.height == 0,
            world.grid.tile_size == 0,
            world.grid.tiles@.len() == 0,
            world.player == (Player { x: 0, y: 0, angle: 0 }),
            world.viewport.x_offset == HEIGHT + 20,
            world.viewport.y_offset == 1,
            world.viewport.width == WIDTH - 10 - (HEIGHT + 20),
            world.viewport.height == HEIGHT - 1,
            world.viewport.spread == VIEW_SPREAD,
            world.viewport.tex_width == 0,
            world.viewport.tex_height == 0,
            world.viewport.texture@.len() == 0,
            !world.viewport.textured(),
    {
        let world = World {
            grid: Grid { tiles: Vec::new(), width: 0, height: 0, tile_size: 0 },
            player: Player { x: 0, y: 0, angle: 0 },
            viewport: Viewport::new(),
        };
        assert(world.grid.width * world.grid.height == 0) by (nonlinear_arith)
            requires
                world.grid.width == 0,
        ;
        world
    }

    /// Loads the map and puts the viewer in the middle of it.
    pub fn init(&mut self, width: i32, height: i32, tiles: Vec<u8>)
        requires
            old(self).viewport.wf(),
            0 < width,
            0 < height,
            tiles@.len() == width * height,
        ensures
            final(self).wf(),
            final(self).grid.width == width,
            final(self).grid.height == height,
            final(self).grid.tiles@ == tiles@,
            final(self).grid.tile_size == HEIGHT / height,
            final(self).player.x == (width * ONE) / 2,
            final(self).player.y == (height * ONE) / 2,
            final(self).player.angle == old(self).player.angle,
            final(self).viewport == old(self).viewport,
    {
        self.grid.init(width, height, tiles);
        self.player.x = (width as i64 * ONE) / 2;
        self.player.y = (height as i64 * ONE) / 2;
    }

    /// Moves the viewer by one tick.
    pub fn update(&mut self, intents: &Intents, heading: &Heading, delta: u32)
        requires
            old(self).grid.wf(),
            heading.wf(),
        ensures
            final(self).player == old(self).player.updated(
                *intents,
                *heading,
                old(self).grid,
                delta as int,
            ),
            final(self).grid == old(self).grid,
            final(self).viewport == old(self).viewport,
    {
        self.player.update(intents, heading, &self.grid, delta);
    }

    /// Draws the world into the frame, for a viewer who faces along
    /// `heading`. The frame is RGBA, four bytes per pixel.
    pub fn draw(&self, frame: &mut [u8], heading: &Heading)
        requires
            self.loaded(),
            heading.wf(),
        ensures
            final(frame)@ == self.drawn(old(frame)@.len(), *heading),
    {
        clear(frame);
        self.grid.draw(frame);
        self.player.draw(frame, &self.grid, heading);
        self.viewport.draw(frame, &self.player, heading, &self.grid);
    }
}

} // verus!
