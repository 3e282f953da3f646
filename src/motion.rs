use vstd::prelude::*;
use crate::map::GameMap;

verus! {

/// Which axes of one step the player may take. Each axis is tested on its own, x first,
/// so that the player slides along a wall. The x move is tested at (`probe_x`, `y_tile`):
/// `probe_x` is the column of the new x pushed a quarter tile further in the direction of
/// travel, `y_tile` the current row. The y move is tested at `probe_y`, found the same way,
/// in the column the player stands in once x is settled: `moved_x_tile` when x moved,
/// `x_tile` when it did not.
pub fn try_move(
    map: &GameMap,
    x_tile: i32,
    y_tile: i32,
    moved_x_tile: i32,
    probe_x: i32,
    probe_y: i32,
) -> (r: (bool, bool))
    requires
        map.wf(),
    ensures
        r.0 == !map.solid_spec(probe_x as int, y_tile as int),
        r.1 == !map.solid_spec(
            (if r.0 {
                moved_x_tile
            } else {
                x_tile
            }) as int,
            probe_y as int,
        ),
{
    let move_x = !map.is_solid(probe_x, y_tile);
    let column = if move_x {
        moved_x_tile
    } else {
        x_tile
    };
    let move_y = !map.is_solid(column, probe_y);
    (move_x, move_y)
}

/// Sliding along a wall: a step whose x look-ahead falls in a solid tile keeps x, and its y
/// part is still taken exactly when the y look-ahead, seen from the unchanged column, is free.
pub proof fn lemma_blocked_axis_keeps_other(
    map: &GameMap,
    x_tile: i32,
    y_tile: i32,
    moved_x_tile: i32,
    probe_x: i32,
    probe_y: i32,
    r: (bool, bool),
)
    requires
        map.wf(),
        r.0 == !map.solid_spec(probe_x as int, y_tile as int),
        r.1 == !map.solid_spec((if r.0 { moved_x_tile } else { x_tile }) as int, probe_y as int),
        map.solid_spec(probe_x as int, y_tile as int),
    ensures
        !r.0,
        r.1 <==> !map.solid_spec(x_tile as int, probe_y as int),
{
}

} // verus!
