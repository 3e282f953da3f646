use raycaster::map::{Cell, GameMap};
use raycaster::motion::try_move;

fn sample() -> GameMap {
    let walls = "1 1 1 1\n1 0 4 1\n1 2 0 1\n1 1 1 1\n";
    GameMap::load(walls, "", "")
}

#[test]
fn solid_agrees_with_cell_inside() {
    let m = sample();
    for y in 0..16 {
        for x in 0..16 {
            let c = m.cell_at(x, y);
            let blocks = matches!(c, Cell::Wall(_) | Cell::Door);
            assert_eq!(m.is_solid(x, y), blocks);
        }
    }
}

#[test]
fn outside_is_solid_wall_of_material_one() {
    let m = sample();
    for &(x, y) in &[(-1, 0), (0, -1), (16, 3), (3, 16), (i32::MIN, i32::MAX), (-5, 20)] {
        assert!(m.is_solid(x, y));
        assert_eq!(m.cell_at(x, y), Cell::Wall(1));
        assert!(!m.is_door(x, y));
    }
}

#[test]
fn door_only_where_stored() {
    let m = sample();
    assert!(m.is_door(2, 1));
    assert!(!m.is_door(1, 1));
    assert!(!m.is_door(1, 2));
    assert_eq!(m.cell_at(1, 2), Cell::Wall(2));
    assert_eq!(m.cell_at(2, 1), Cell::Door);
    assert!(!m.is_solid(1, 1));
}

#[test]
fn blocked_x_keeps_x_and_slides_on_y() {
    // Standing in (1, 1), pushing right and down: the look-ahead column 2 in row 1 is a door.
    let m = sample();
    let (mx, my) = try_move(&m, 1, 1, 1, 2, 1);
    assert!(!mx);
    assert!(my);
}

#[test]
fn blocked_y_keeps_y_and_x_still_moves() {
    let m = GameMap::load("1 1 1 1\n1 0 0 1\n1 1 1 1\n", "", "");
    let (mx, my) = try_move(&m, 1, 1, 2, 2, 2);
    assert!(mx);
    assert!(!my);
}

#[test]
fn y_is_tested_in_the_column_x_settled_in() {
    // x moves into column 2, whose row 2 is solid, while column 1 row 2 is free.
    let m = GameMap::load("1 1 1 1\n1 0 0 1\n1 0 1 1\n", "", "");
    assert_eq!(try_move(&m, 1, 1, 2, 2, 2), (true, false));
    // With x blocked, the same y look-ahead is tested in column 1 and is free.
    let m2 = GameMap::load("1 1 1 1\n1 0 1 1\n1 0 1 1\n", "", "");
    assert_eq!(try_move(&m2, 1, 1, 2, 2, 2), (false, true));
}
