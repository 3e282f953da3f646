use raycaster::frame::{backdrop, minimap_tiles, wall_columns, ColumnHit, Rect};
use raycaster::map::{Cell, GameMap};
use raycaster::ray::{clamp_column_height, Side, TileWalk, SCREEN_H};
use raycaster::shade::{minimap_color, wall_color, Rgba};

fn border_map() -> GameMap {
    let mut text = String::new();
    for r in 0..16 {
        let row: Vec<&str> = (0..16)
            .map(|c| if r == 0 || c == 0 || r == 15 || c == 15 { "1" } else { "0" })
            .collect();
        text.push_str(&row.join(" "));
        text.push('\n');
    }
    GameMap::load(&text, "", "# spawn\n. . . .\n. . . .\n. . P .\n")
}

#[test]
fn walk_from_spawn_along_x_hits_east_border() {
    let m = border_map();
    assert_eq!(m.player_start(), (2, 2));
    let mut w = TileWalk::new(2, 2, false, false);
    let mut steps = 0;
    let hit = loop {
        let c = w.advance(Side::Vertical, &m);
        steps += 1;
        if c != Cell::Empty {
            break c;
        }
    };
    assert_eq!(hit, Cell::Wall(1));
    assert_eq!(steps, 13);
    assert_eq!((w.map_x, w.map_y), (15, 2));
}

#[test]
fn walk_backwards_along_y_hits_north_border() {
    let m = border_map();
    let mut w = TileWalk::new(2, 2, true, true);
    assert_eq!(w.advance(Side::Horizontal, &m), Cell::Empty);
    assert_eq!((w.map_x, w.map_y), (2, 1));
    assert_eq!(w.advance(Side::Horizontal, &m), Cell::Wall(1));
    assert_eq!((w.map_x, w.map_y), (2, 0));
    assert_eq!(w.advance(Side::Horizontal, &m), Cell::Wall(1));
    assert_eq!((w.map_x, w.map_y), (2, -1));
}

#[test]
fn column_height_is_clamped_to_screen() {
    assert_eq!(clamp_column_height(480_000), SCREEN_H as u32);
    assert_eq!(clamp_column_height(480), 480);
    assert_eq!(clamp_column_height(479), 479);
    assert_eq!(clamp_column_height(0), 0);
    let mut last = clamp_column_height(0);
    for raw in 1..2000u32 {
        let h = clamp_column_height(raw);
        assert!(h >= last && h <= 480);
        last = h;
    }
}

#[test]
fn wall_colors_and_shading() {
    assert_eq!(wall_color(&Cell::Wall(1), &Side::Vertical), Rgba { r: 60, g: 60, b: 60, a: 100 });
    assert_eq!(wall_color(&Cell::Wall(1), &Side::Horizontal), Rgba { r: 36, g: 36, b: 36, a: 100 });
    assert_eq!(wall_color(&Cell::Wall(2), &Side::Horizontal), Rgba { r: 42, g: 24, b: 12, a: 100 });
    assert_eq!(wall_color(&Cell::Wall(3), &Side::Vertical), Rgba { r: 40, g: 40, b: 60, a: 100 });
    assert_eq!(wall_color(&Cell::Door, &Side::Horizontal), Rgba { r: 36, g: 30, b: 6, a: 100 });
    assert_eq!(wall_color(&Cell::Wall(9), &Side::Vertical), Rgba { r: 50, g: 50, b: 50, a: 100 });
}

#[test]
fn minimap_palette() {
    assert_eq!(minimap_color(Cell::Empty), Rgba { r: 10, g: 10, b: 10, a: 70 });
    assert_eq!(minimap_color(Cell::Wall(3)), Rgba { r: 40, g: 40, b: 70, a: 90 });
    assert_eq!(minimap_color(Cell::Door), Rgba { r: 80, g: 70, b: 10, a: 90 });
    assert_eq!(minimap_color(Cell::Wall(200)), Rgba { r: 50, g: 50, b: 50, a: 90 });
}

#[test]
fn wall_columns_layout() {
    let hits = vec![
        ColumnHit { height: 100, cell: Cell::Wall(2), side: Side::Vertical },
        ColumnHit { height: 480, cell: Cell::Door, side: Side::Horizontal },
        ColumnHit { height: 5000, cell: Cell::Wall(1), side: Side::Vertical },
    ];
    let q = wall_columns(&hits);
    assert_eq!(q.len(), 3);
    assert_eq!(q[0], Rect { x0: 0, y0: 380, x1: 2, y1: 580, color: Rgba { r: 70, g: 40, b: 20, a: 100 } });
    assert_eq!(q[1], Rect { x0: 2, y0: 0, x1: 4, y1: 960, color: Rgba { r: 36, g: 30, b: 6, a: 100 } });
    assert_eq!(q[2].y0, 0);
    assert_eq!(q[2].y1, 960);
}

#[test]
fn backdrop_is_ceiling_then_floor() {
    let b = backdrop();
    assert_eq!(b.len(), 2);
    assert_eq!(b[0].y0, 0);
    assert_eq!(b[0].y1, 10000);
    assert_eq!(b[1].y0, -10000);
    assert_eq!(b[1].color, Rgba { r: 25, g: 20, b: 15, a: 100 });
}

#[test]
fn minimap_has_one_tile_per_cell() {
    let m = border_map();
    let q = minimap_tiles(&m);
    assert_eq!(q.len(), 256);
    assert_eq!(q[0], Rect { x0: -10000, y0: -10000, x1: -9886, y1: -9886, color: Rgba { r: 70, g: 70, b: 70, a: 90 } });
    assert_eq!(q[17].x0, -10000 + 120);
    assert_eq!(q[17].y0, -10000 + 120);
    assert_eq!(q[17].color, Rgba { r: 10, g: 10, b: 10, a: 70 });
}
