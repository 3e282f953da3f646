use raycaster::grid_text::{parse_actors, parse_walls};
use raycaster::map::{Cell, Enemy, EnemyKind, GameMap, MAP_HEIGHT, MAP_WIDTH};

fn bordered_text(rows: usize, cols: usize, door: (usize, usize)) -> String {
    let mut text = String::new();
    for r in 0..rows {
        let mut line = Vec::new();
        for c in 0..cols {
            let tok = if r == 0 || c == 0 || r == 15 || c == 15 {
                "1"
            } else if (c, r) == door {
                "4"
            } else {
                "0"
            };
            line.push(tok);
        }
        text.push_str(&line.join(" "));
        text.push('\n');
    }
    text
}

fn expected(c: usize, r: usize, door: (usize, usize)) -> Cell {
    if r == 0 || c == 0 || r == 15 || c == 15 {
        Cell::Wall(1)
    } else if (c, r) == door {
        Cell::Door
    } else {
        Cell::Empty
    }
}

#[test]
fn walls_round_trip_exact_pattern() {
    let text = bordered_text(16, 16, (5, 7));
    let grid = parse_walls(&text);
    assert_eq!(grid.len(), MAP_WIDTH * MAP_HEIGHT);
    for r in 0..16 {
        for c in 0..16 {
            assert_eq!(grid[r * 16 + c], expected(c, r, (5, 7)));
        }
    }
}

#[test]
fn walls_round_trip_truncates_extra_rows_and_columns() {
    let text = bordered_text(20, 22, (3, 3));
    let grid = parse_walls(&text);
    assert_eq!(grid.len(), 256);
    for r in 0..16 {
        for c in 0..16 {
            assert_eq!(grid[r * 16 + c], expected(c, r, (3, 3)));
        }
    }
}

#[test]
fn walls_queried_through_map() {
    let text = bordered_text(16, 16, (9, 2));
    let m = GameMap::load(&text, "", "");
    for y in 0..16i32 {
        for x in 0..16i32 {
            assert_eq!(m.cell_at(x, y), expected(x as usize, y as usize, (9, 2)));
        }
    }
    assert!(m.is_door(9, 2));
    assert!(m.is_solid(9, 2));
}

#[test]
fn comments_and_blank_lines_are_not_rows() {
    let text = "# a comment\n\n   \t\n2 0 3\n# 9 9 9\n0 4 0\n";
    let grid = parse_walls(text);
    assert_eq!(grid[0], Cell::Wall(2));
    assert_eq!(grid[1], Cell::Empty);
    assert_eq!(grid[2], Cell::Wall(3));
    assert_eq!(grid[3], Cell::Empty);
    assert_eq!(grid[16], Cell::Empty);
    assert_eq!(grid[17], Cell::Door);
    assert_eq!(grid[32], Cell::Empty);
}

#[test]
fn short_grid_is_left_empty() {
    let grid = parse_walls("1 1");
    assert_eq!(grid[0], Cell::Wall(1));
    assert_eq!(grid[1], Cell::Wall(1));
    for k in 2..256 {
        assert_eq!(grid[k], Cell::Empty);
    }
    let empty = parse_walls("");
    assert!(empty.iter().all(|c| *c == Cell::Empty));
}

#[test]
fn material_tokens() {
    let grid = parse_walls("7 255 256 abc -1 +9 007 + 04 00 \r\n");
    assert_eq!(grid[0], Cell::Wall(7));
    assert_eq!(grid[1], Cell::Wall(255));
    assert_eq!(grid[2], Cell::Wall(1));
    assert_eq!(grid[3], Cell::Wall(1));
    assert_eq!(grid[4], Cell::Wall(1));
    assert_eq!(grid[5], Cell::Wall(9));
    assert_eq!(grid[6], Cell::Wall(7));
    assert_eq!(grid[7], Cell::Wall(1));
    assert_eq!(grid[8], Cell::Wall(4));
    assert_eq!(grid[9], Cell::Wall(0));
    assert_eq!(grid[10], Cell::Empty);
}

#[test]
fn enemies_are_placed_row_by_row() {
    let text = "# enemies\n0 1 0\n\n3 0 2 9\n";
    let (enemies, start) = parse_actors(text, "");
    assert_eq!(
        enemies,
        vec![
            Enemy { kind: EnemyKind::Guard, col: 1, row: 0, alive: true },
            Enemy { kind: EnemyKind::Officer, col: 0, row: 1, alive: true },
            Enemy { kind: EnemyKind::Ss, col: 2, row: 1, alive: true },
        ]
    );
    assert_eq!(start, (1, 1));
}

#[test]
fn enemies_beyond_the_grid_are_ignored() {
    let mut line = vec!["0"; 16];
    line.push("1");
    let text = line.join(" ");
    let (enemies, _) = parse_actors(&text, "");
    assert!(enemies.is_empty());
}

#[test]
fn first_spawn_marker_wins() {
    let spawn = "# spawn\n. . .\n. . P P\nP\n";
    let (_, start) = parse_actors("", spawn);
    assert_eq!(start, (2, 1));
}

#[test]
fn spawn_marker_past_sixteen_columns_is_ignored() {
    let mut line = vec!["."; 18];
    line.push("P");
    let (_, start) = parse_actors("", &line.join(" "));
    assert_eq!(start, (1, 1));
    let mut edge = vec!["."; 16];
    edge.push("P");
    let (_, start) = parse_actors("", &format!("{}\n. . . P\n", edge.join(" ")));
    assert_eq!(start, (3, 1));
    let mut last = vec!["."; 15];
    last.push("P");
    let (_, start) = parse_actors("", &last.join(" "));
    assert_eq!(start, (15, 0));
}

#[test]
fn unicode_whitespace_separates_wall_tokens() {
    let grid = parse_walls("1\u{a0}2\u{3000}3\u{2028}4\u{85}0\u{202f}2\u{1680}3\u{2005}1");
    assert_eq!(grid[0], Cell::Wall(1));
    assert_eq!(grid[1], Cell::Wall(2));
    assert_eq!(grid[2], Cell::Wall(3));
    assert_eq!(grid[3], Cell::Door);
    assert_eq!(grid[4], Cell::Empty);
    assert_eq!(grid[5], Cell::Wall(2));
    assert_eq!(grid[6], Cell::Wall(3));
    assert_eq!(grid[7], Cell::Wall(1));
    assert_eq!(grid[8], Cell::Empty);
}

#[test]
fn unicode_whitespace_only_line_is_skipped() {
    let plain = parse_walls("1 2\n3 4\n");
    let spaced = parse_walls("1 2\n\u{3000}\u{a0} \u{205f}\n3 4\n");
    assert_eq!(plain, spaced);
    assert_eq!(spaced[16], Cell::Wall(3));
}

#[test]
fn non_whitespace_characters_stay_in_tokens() {
    // U+00A9 and U+2030 share lead bytes with whitespace characters but are not whitespace.
    let grid = parse_walls("\u{a9} 2\u{2030}3 5");
    assert_eq!(grid[0], Cell::Wall(1));
    assert_eq!(grid[1], Cell::Wall(1));
    assert_eq!(grid[2], Cell::Wall(5));
    assert_eq!(grid[3], Cell::Empty);
}

#[test]
fn unicode_whitespace_separates_enemies_and_spawn() {
    let (enemies, start) = parse_actors("1\u{a0}2", "1\u{a0}P");
    assert_eq!(
        enemies,
        vec![
            Enemy { kind: EnemyKind::Guard, col: 0, row: 0, alive: true },
            Enemy { kind: EnemyKind::Ss, col: 1, row: 0, alive: true },
        ]
    );
    assert_eq!(start, (1, 0));
}

#[test]
fn missing_spawn_uses_default_tile() {
    let (_, start) = parse_actors("", "# none\n. . .\np\n");
    assert_eq!(start, (1, 1));
    let m = GameMap::load("", "", "");
    assert_eq!(m.player_start(), (1, 1));
}

#[test]
fn text_after_a_full_grid_changes_nothing() {
    let base = bordered_text(16, 16, (4, 4));
    let longer = format!("{}9 9 9\n# note\n4 4\n", base);
    assert_eq!(parse_walls(&base), parse_walls(&longer));
}
