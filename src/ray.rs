use vstd::prelude::*;
use crate::map::{Cell, GameMap, in_bounds};

verus! {

/// Screen width in pixels; one ray is cast per column.
pub const SCREEN_W: usize = 640;

/// Screen height in pixels.
pub const SCREEN_H: usize = 480;

/// Number of rays cast per frame.
pub const NUM_RAYS: usize = SCREEN_W;

/// Which grid line a ray crossed when it hit: a vertical one (the x-axis advanced) or a
/// horizontal one (the y-axis advanced).
#[derive(Clone, Copy, PartialEq, Eq, Structural, Debug)]
pub enum Side {
    Vertical,
    Horizontal,
}

/// The tile a ray is in while it marches through the grid, and the direction it goes in
/// along each axis.
#[derive(Clone, Copy, PartialEq, Eq, Structural, Debug)]
pub struct TileWalk {
    pub map_x: i32,
    pub map_y: i32,
    pub step_x: i32,
    pub step_y: i32,
}

impl TileWalk {
    /// Each step moves one tile, forwards or backwards.
    pub open spec fn wf(&self) -> bool {
        (self.step_x == 1 || self.step_x == -1) && (self.step_y == 1 || self.step_y == -1)
    }

    /// Starts in tile (`map_x`, `map_y`), going up the x-axis unless `x_back`, and up the
    /// y-axis unless `y_back`.
    pub fn new(map_x: i32, map_y: i32, x_back: bool, y_back: bool) -> (w: TileWalk)
        ensures
            w.wf(),
            w.map_x == map_x,
            w.map_y == map_y,
            w.step_x == (if x_back { -1i32 } else { 1i32 }),
            w.step_y == (if y_back { -1i32 } else { 1i32 }),
    {
        TileWalk {
            map_x,
            map_y,
            step_x: if x_back { -1 } else { 1 },
            step_y: if y_back { -1 } else { 1 },
        }
    }

    /// Crosses one grid line: a vertical one moves a tile along x, a horizontal one a tile
    /// along y. Returns the cell of the tile entered.
    pub fn advance(&mut self, side: Side, map: &GameMap) -> (c: Cell)
        requires
            old(self).wf(),
            map.wf(),
            i32::MIN < old(self).map_x < i32::MAX,
            i32::MIN < old(self).map_y < i32::MAX,
        ensures
            final(self).wf(),
            final(self).step_x == old(self).step_x,
            final(self).step_y == old(self).step_y,
            side == Side::Vertical ==> final(self).map_x == old(self).map_x + old(self).step_x
                && final(self).map_y == old(self).map_y,
            side == Side::Horizontal ==> final(self).map_y == old(self).map_y + old(self).step_y
                && final(self).map_x == old(self).map_x,
            c == map.cell_spec(final(self).map_x as int, final(self).map_y as int),
    {
        match side {
            Side::Vertical => {
                self.map_x = self.map_x + self.step_x;
            },
            Side::Horizontal => {
                self.map_y = self.map_y + self.step_y;
            },
        }
        map.cell_at(self.map_x, self.map_y)
    }
}

/// The march ends: a ray that starts inside the grid and has crossed `nx` vertical and `ny`
/// horizontal grid lines is outside it, and so in front of a wall, once it has crossed more
/// than `2 * 16` lines in all, whatever order it crossed them in.
pub proof fn lemma_march_leaves_grid(x0: int, y0: int, step_x: int, step_y: int, nx: int, ny: int)
    requires
        in_bounds(x0, y0),
        step_x == 1 || step_x == -1,
        step_y == 1 || step_y == -1,
        0 <= nx,
        0 <= ny,
        nx + ny > 32,
    ensures
        !in_bounds(x0 + nx * step_x, y0 + ny * step_y),
{
    if nx > 16 {
        assert(nx * step_x == nx || nx * step_x == -nx) by (nonlinear_arith)
            requires
                step_x == 1 || step_x == -1,
        ;
    } else {
        assert(ny * step_y == ny || ny * step_y == -ny) by (nonlinear_arith)
            requires
                step_y == 1 || step_y == -1,
        ;
    }
}

/// The height in pixels of a wall column: `raw`, the screen height divided by the hit
/// distance and rounded down, cut to the screen height.
pub open spec fn column_height(raw: int) -> int {
    if raw < SCREEN_H as int {
        raw
    } else {
        SCREEN_H as int
    }
}

/// Cuts a wall column's height to the screen.
pub fn clamp_column_height(raw: u32) -> (h: u32)
    ensures
        h == column_height(raw as int),
{
    if raw < SCREEN_H as u32 {
        raw
    } else {
        SCREEN_H as u32
    }
}

/// A nearer wall is never drawn shorter: column height grows with the unclamped height and
/// never exceeds the screen height, which it reaches from the screen height on.
pub proof fn lemma_column_height_monotone(raw1: int, raw2: int)
    requires
        raw1 <= raw2,
    ensures
        column_height(raw1) <= column_height(raw2),
        column_height(raw2) <= SCREEN_H,
        raw2 >= SCREEN_H ==> column_height(raw2) == SCREEN_H,
{
}

} // verus!
