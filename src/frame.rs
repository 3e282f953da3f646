use vstd::prelude::*;
use crate::map::{Cell, GameMap, MAP_HEIGHT, MAP_WIDTH, tile_index};
use crate::ray::{Side, NUM_RAYS};
use crate::shade::{Rgba, base_color, shaded, minimap_color, minimap_color_spec, wall_color};

verus! {

/// An axis-aligned rectangle from (`x0`, `y0`) to (`x1`, `y1`) in one colour. Each function
/// that makes one says which units its corners are in.
#[derive(Clone, Copy, PartialEq, Eq, Structural, Debug)]
pub struct Rect {
    pub x0: i32,
    pub y0: i32,
    pub x1: i32,
    pub y1: i32,
    pub color: Rgba,
}

/// What the wall view needs of one ray's hit: the column height in pixels and what was hit.
#[derive(Clone, Copy, PartialEq, Eq, Structural, Debug)]
pub struct ColumnHit {
    pub height: u32,
    pub cell: Cell,
    pub side: Side,
}

/// Minimap tile pitch, in ten-thousandths of the view's half-width.
pub const MINIMAP_SCALE: i32 = 120;

/// Side of a minimap tile: 95% of the pitch.
pub const MINIMAP_TILE: i32 = 114;

/// `v` held within `lo..=hi`.
pub open spec fn clamp(v: int, lo: int, hi: int) -> int {
    if v < lo {
        lo
    } else if v > hi {
        hi
    } else {
        v
    }
}

/// The wall column of screen column `i`, in half-pixels from the top-left corner: centred on
/// the middle row, `height` pixels tall, cut to the screen.
pub open spec fn column_rect(i: int, hit: ColumnHit) -> Rect {
    Rect {
        x0: (2 * i) as i32,
        y0: clamp(480 - hit.height, 0, 960) as i32,
        x1: (2 * i + 2) as i32,
        y1: clamp(480 + hit.height, 0, 960) as i32,
        color: shaded(base_color(hit.cell), hit.side),
    }
}

/// The minimap tile of grid cell (`col`, `row`), in ten-thousandths of the view's
/// half-size, from the view's centre, y upwards; the map starts at the bottom-left corner.
pub open spec fn minimap_rect(col: int, row: int, cell: Cell) -> Rect {
    Rect {
        x0: (-10000 + col * 120) as i32,
        y0: (-10000 + row * 120) as i32,
        x1: (-10000 + col * 120 + 114) as i32,
        y1: (-10000 + row * 120 + 114) as i32,
        color: minimap_color_spec(cell),
    }
}

fn column(i: usize, hit: ColumnHit) -> (q: Rect)
    requires
        i < NUM_RAYS,
    ensures
        q == column_rect(i as int, hit),
{
    let h = hit.height as i64;
    let mut top = 480 - h;
    if top < 0 {
        top = 0;
    }
    let mut bottom = 480 + h;
    if bottom > 960 {
        bottom = 960;
    }
    Rect {
        x0: (2 * i) as i32,
        y0: top as i32,
        x1: (2 * i + 2) as i32,
        y1: bottom as i32,
        color: wall_color(&hit.cell, &hit.side),
    }
}

/// The wall view: one column per hit, left to right.
pub fn wall_columns(hits: &Vec<ColumnHit>) -> (quads: Vec<Rect>)
    requires
        hits@.len() <= NUM_RAYS,
    ensures
        quads@.len() == hits@.len(),
        forall|i: int| 0 <= i < hits@.len() ==> #[trigger] quads@[i] == column_rect(i, hits@[i]),
{
    let mut quads: Vec<Rect> = Vec::new();
    let mut i: usize = 0;
    while i < hits.len()
        invariant
            i <= hits@.len() <= NUM_RAYS,
            quads@.len() == i,
            forall|k: int| 0 <= k < i ==> #[trigger] quads@[k] == column_rect(k, hits@[k]),
        decreases hits@.len() - i,
    {
        quads.push(column(i, hits[i]));
        i = i + 1;
    }
    quads
}

/// The ceiling and the floor, in ten-thousandths of the view's half-size: the upper half
/// and the lower half of the view.
pub fn backdrop() -> (quads: Vec<Rect>)
    ensures
        quads@ == seq![
            (Rect { x0: -10000i32, y0: 0, x1: 10000, y1: 10000, color: Rgba { r: 15, g: 15, b: 25, a: 100 } }),
            (Rect { x0: -10000i32, y0: -10000i32, x1: 10000, y1: 0, color: Rgba { r: 25, g: 20, b: 15, a: 100 } }),
        ],
{
    let mut quads: Vec<Rect> = Vec::new();
    quads.push(Rect { x0: -10000, y0: 0, x1: 10000, y1: 10000, color: Rgba { r: 15, g: 15, b: 25, a: 100 } });
    quads.push(Rect { x0: -10000, y0: -10000, x1: 10000, y1: 0, color: Rgba { r: 25, g: 20, b: 15, a: 100 } });
    quads
}

/// The minimap: one tile per grid cell, row by row.
pub fn minimap_tiles(map: &GameMap) -> (quads: Vec<Rect>)
    requires
        map.wf(),
    ensures
        quads@.len() == MAP_WIDTH * MAP_HEIGHT,
        forall|row: int, col: int|
            0 <= row < 16 && 0 <= col < 16 ==> #[trigger] quads@[tile_index(col, row)] == minimap_rect(
                col,
                row,
                map.cell_spec(col, row),
            ),
{
    let mut quads: Vec<Rect> = Vec::new();
    let mut row: usize = 0;
    while row < MAP_HEIGHT
        invariant
            map.wf(),
            row <= 16,
            quads@.len() == row * 16,
            forall|r: int, c: int|
                0 <= r < row && 0 <= c < 16 ==> #[trigger] quads@[tile_index(c, r)] == minimap_rect(
                    c,
                    r,
                    map.cell_spec(c, r),
                ),
        decreases 16 - row,
    {
        let mut col: usize = 0;
        while col < MAP_WIDTH
            invariant
                map.wf(),
                row < 16,
                col <= 16,
                quads@.len() == row * 16 + col,
                forall|r: int, c: int|
                    (0 <= r < row && 0 <= c < 16) || (r == row && 0 <= c < col) ==> #[trigger] quads@[tile_index(
                        c,
                        r,
                    )] == minimap_rect(c, r, map.cell_spec(c, r)),
            decreases 16 - col,
        {
            let cell = map.cell_at(col as i32, row as i32);
            let x0 = -10000 + col as i32 * MINIMAP_SCALE;
            let y0 = -10000 + row as i32 * MINIMAP_SCALE;
            quads.push(Rect { x0, y0, x1: x0 + MINIMAP_TILE, y1: y0 + MINIMAP_TILE, color: minimap_color(cell) });
            col = col + 1;
        }
        row = row + 1;
    }
    quads
}

} // verus!
