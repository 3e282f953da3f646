use vstd::prelude::*;
use crate::map::Cell;
use crate::ray::Side;

verus! {

/// A colour with each channel in percent: 0 is none, 100 is full.
#[derive(Clone, Copy, PartialEq, Eq, Structural, Debug)]
pub struct Rgba {
    pub r: u8,
    pub g: u8,
    pub b: u8,
    pub a: u8,
}

/// The colour with these channels.
pub open spec fn rgba(r: u8, g: u8, b: u8, a: u8) -> Rgba {
    Rgba { r, g, b, a }
}

/// The colour of a wall face lit head-on.
pub open spec fn base_color(cell: Cell) -> Rgba {
    match cell {
        Cell::Wall(1) => rgba(60, 60, 60, 100),
        Cell::Wall(2) => rgba(70, 40, 20, 100),
        Cell::Wall(3) => rgba(40, 40, 60, 100),
        Cell::Door => rgba(60, 50, 10, 100),
        _ => rgba(50, 50, 50, 100),
    }
}

/// A face hit across a horizontal grid line is darkened to 60% of its colour; alpha stays.
pub open spec fn shaded(c: Rgba, side: Side) -> Rgba {
    if side == Side::Horizontal {
        rgba((c.r * 6 / 10) as u8, (c.g * 6 / 10) as u8, (c.b * 6 / 10) as u8, 100)
    } else {
        c
    }
}

/// The colour a cell has on the minimap.
pub open spec fn minimap_color_spec(cell: Cell) -> Rgba {
    match cell {
        Cell::Empty => rgba(10, 10, 10, 70),
        Cell::Wall(1) => rgba(70, 70, 70, 90),
        Cell::Wall(2) => rgba(70, 40, 20, 90),
        Cell::Wall(3) => rgba(40, 40, 70, 90),
        Cell::Door => rgba(80, 70, 10, 90),
        _ => rgba(50, 50, 50, 90),
    }
}

/// The colour of the wall column for a hit on `cell` across `side`.
pub fn wall_color(cell: &Cell, side: &Side) -> (c: Rgba)
    ensures
        c == shaded(base_color(*cell), *side),
{
    let base = match *cell {
        Cell::Wall(1) => Rgba { r: 60, g: 60, b: 60, a: 100 },
        Cell::Wall(2) => Rgba { r: 70, g: 40, b: 20, a: 100 },
        Cell::Wall(3) => Rgba { r: 40, g: 40, b: 60, a: 100 },
        Cell::Door => Rgba { r: 60, g: 50, b: 10, a: 100 },
        _ => Rgba { r: 50, g: 50, b: 50, a: 100 },
    };
    match *side {
        Side::Horizontal => Rgba { r: base.r / 10 * 6, g: base.g / 10 * 6, b: base.b / 10 * 6, a: 100 },
        Side::Vertical => base,
    }
}

/// The colour of `cell` on the minimap.
pub fn minimap_color(cell: Cell) -> (c: Rgba)
    ensures
        c == minimap_color_spec(cell),
{
    match cell {
        Cell::Empty => Rgba { r: 10, g: 10, b: 10, a: 70 },
        Cell::Wall(1) => Rgba { r: 70, g: 70, b: 70, a: 90 },
        Cell::Wall(2) => Rgba { r: 70, g: 40, b: 20, a: 90 },
        Cell::Wall(3) => Rgba { r: 40, g: 40, b: 70, a: 90 },
        Cell::Door => Rgba { r: 80, g: 70, b: 10, a: 90 },
        _ => Rgba { r: 50, g: 50, b: 50, a: 90 },
    }
}

} // verus!
