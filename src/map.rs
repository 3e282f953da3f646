use vstd::prelude::*;
use vstd::string::StringSliceAdditionalSpecFns;
use crate::grid_text::{parse_actors, parse_walls, spawn_start, wall_cell, enemy_placements};

verus! {

/// Number of tile columns in a map.
pub const MAP_WIDTH: usize = 16;

/// Number of tile rows in a map.
pub const MAP_HEIGHT: usize = 16;

/// What occupies one tile of the map.
#[derive(Clone, Copy, PartialEq, Eq, Structural, Debug)]
pub enum Cell {
    Empty,
    Wall(u8),
    Door,
}

impl Cell {
    /// Walls and doors block both movement and sight.
    pub open spec fn blocks(self) -> bool {
        self is Wall || self is Door
    }
}

/// The three kinds of enemy that a map can place.
#[derive(Clone, Copy, PartialEq, Eq, Structural, Debug)]
pub enum EnemyKind {
    Guard,
    Ss,
    Officer,
}

/// An enemy placed at the centre of tile (`col`, `row`).
#[derive(Clone, Copy, PartialEq, Eq, Structural, Debug)]
pub struct Enemy {
    pub kind: EnemyKind,
    pub col: usize,
    pub row: usize,
    pub alive: bool,
}

/// True when (x, y) names a tile of the grid.
pub open spec fn in_bounds(x: int, y: int) -> bool {
    0 <= x < MAP_WIDTH as int && 0 <= y < MAP_HEIGHT as int
}

/// Position of tile (x, y) in a row-major grid.
pub open spec fn tile_index(x: int, y: int) -> int {
    y * 16 + x
}

/// A fixed-size tile grid, its enemies and the tile the player starts on.
pub struct GameMap {
    walls: Vec<Cell>,
    enemies: Vec<Enemy>,
    start: (usize, usize),
}

impl GameMap {
    /// The grid holds exactly one cell per tile.
    pub open spec fn wf(&self) -> bool {
        self.grid().len() == MAP_WIDTH * MAP_HEIGHT
    }

    /// The stored cells, row-major.
    pub closed spec fn grid(&self) -> Seq<Cell> {
        self.walls@
    }

    pub closed spec fn enemy_list(&self) -> Seq<Enemy> {
        self.enemies@
    }

    pub closed spec fn start_tile(&self) -> (usize, usize) {
        self.start
    }

    /// Builds a map from its three grid texts: walls, enemies and the player's spawn.
    pub fn load(walls_src: &str, enemies_src: &str, spawn_src: &str) -> (m: GameMap)
        ensures
            m.wf(),
            forall|x: int, y: int|
                in_bounds(x, y) ==> #[trigger] m.cell_spec(x, y) == wall_cell(walls_src.spec_bytes(), y, x),
            m.enemy_list() == enemy_placements(enemies_src.spec_bytes()),
            spawn_start(spawn_src.spec_bytes(), m.start_tile()),
    {
        let walls = parse_walls(walls_src);
        let (enemies, start) = parse_actors(enemies_src, spawn_src);
        let m = GameMap { walls, enemies, start };
        assert forall|x: int, y: int| in_bounds(x, y) implies #[trigger] m.cell_spec(x, y) == wall_cell(
            walls_src.spec_bytes(),
            y,
            x,
        ) by {
            assert(m.grid()[y * 16 + x] == wall_cell(walls_src.spec_bytes(), y, x));
        }
        m
    }

    /// Solid: outside the grid, or a wall or door inside it.
    pub open spec fn solid_spec(&self, x: int, y: int) -> bool {
        !in_bounds(x, y) || self.grid()[tile_index(x, y)].blocks()
    }

    /// A door: inside the grid and stored as a door.
    pub open spec fn door_spec(&self, x: int, y: int) -> bool {
        in_bounds(x, y) && self.grid()[tile_index(x, y)] == Cell::Door
    }

    /// The cell seen at (x, y): the stored one inside the grid, a wall of material 1 outside.
    pub open spec fn cell_spec(&self, x: int, y: int) -> Cell {
        if in_bounds(x, y) {
            self.grid()[tile_index(x, y)]
        } else {
            Cell::Wall(1)
        }
    }

    fn stored(&self, x: i32, y: i32) -> (c: Cell)
        requires
            self.wf(),
            in_bounds(x as int, y as int),
        ensures
            c == self.grid()[tile_index(x as int, y as int)],
    {
        self.walls[y as usize * MAP_WIDTH + x as usize]
    }

    /// True outside the grid, and inside it for walls and doors.
    pub fn is_solid(&self, x: i32, y: i32) -> (r: bool)
        requires
            self.wf(),
        ensures
            r == self.solid_spec(x as int, y as int),
    {
        if x < 0 || y < 0 || x >= MAP_WIDTH as i32 || y >= MAP_HEIGHT as i32 {
            return true;
        }
        match self.stored(x, y) {
            Cell::Empty => false,
            _ => true,
        }
    }

    /// True only for a door inside the grid; outside it there is no door.
    pub fn is_door(&self, x: i32, y: i32) -> (r: bool)
        requires
            self.wf(),
        ensures
            r == self.door_spec(x as int, y as int),
    {
        if x < 0 || y < 0 || x >= MAP_WIDTH as i32 || y >= MAP_HEIGHT as i32 {
            return false;
        }
        self.stored(x, y) == Cell::Door
    }

    /// The cell at (x, y); a wall of material 1 outside the grid.
    pub fn cell_at(&self, x: i32, y: i32) -> (c: Cell)
        requires
            self.wf(),
        ensures
            c == self.cell_spec(x as int, y as int),
    {
        if x < 0 || y < 0 || x >= MAP_WIDTH as i32 || y >= MAP_HEIGHT as i32 {
            return Cell::Wall(1);
        }
        self.stored(x, y)
    }

    /// The enemies in the order the enemy grid lists them.
    pub fn enemies(&self) -> (r: &Vec<Enemy>)
        ensures
            r@ == self.enemy_list(),
    {
        &self.enemies
    }

    /// The tile whose centre the player starts on, facing angle 0.
    pub fn player_start(&self) -> (r: (usize, usize))
        ensures
            r == self.start_tile(),
    {
        self.start
    }
}

/// Solidity and the cell seen agree everywhere: a tile is solid exactly when the cell seen
/// there is a wall or a door, and outside the grid every tile is solid and reads as a wall
/// of material 1.
pub proof fn lemma_solid_matches_cell(m: &GameMap, x: int, y: int)
    requires
        m.wf(),
    ensures
        m.solid_spec(x, y) <==> m.cell_spec(x, y).blocks(),
        !in_bounds(x, y) ==> m.solid_spec(x, y) && m.cell_spec(x, y) == Cell::Wall(1),
{
}

/// A door is reported only inside the grid, exactly where the stored cell is a door; no
/// tile outside the grid is a door, although every such tile is solid.
pub proof fn lemma_door_only_inside(m: &GameMap, x: int, y: int)
    requires
        m.wf(),
    ensures
        m.door_spec(x, y) <==> (in_bounds(x, y) && m.cell_spec(x, y) == Cell::Door),
        !in_bounds(x, y) ==> !m.door_spec(x, y) && m.solid_spec(x, y),
{
}

} // verus!
