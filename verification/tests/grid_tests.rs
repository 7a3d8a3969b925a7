use rusty_2048::grid::Grid;
use rusty_2048::move_direction::MoveDirection;
use rusty_2048::tile::Tile;
use rusty_2048::vector2d::Vector2D;

fn print_grid(grid: &Grid) {
    println!("num_rows: {}", grid.num_rows);
    println!("num_cols: {}", grid.num_cols);
    println!("snapshot:\n{}\n", grid.generate_snapshot());
}

#[test]
fn test_print_grid() {
    let (num_rows, num_cols) = (2, 3);
    let mut grid = Grid::new(num_rows, num_cols);

    print_grid(&grid);

    let empty_positions = grid.collect_empty_positions();
    println!("\nempty_positions: {:?}", empty_positions);

    let empty_position = grid.get_random_empty_position();
    println!("\nempty_position: {:?}", empty_position);
    println!();

    for i in 0..10 {
        println!("i = {i}");
        grid.spawn_random_tile_at_random_location();
        print_grid(&grid);
    }
}

#[test]
fn test_from_snapshot() {
    let snapshot = "\
        .   .   4   .
        .  32   .  16";
    let grid = Grid::from_snapshot(snapshot);

    assert_eq!(grid.num_rows, 2);
    assert_eq!(grid.num_cols, 4);
    assert_eq!(grid.generate_snapshot(), ". . 4 .\n. 32 . 16");

    print_grid(&grid);

    let empty_positions = grid.collect_empty_positions();
    println!("\nempty_positions: {:?}", empty_positions);
}

#[test]
fn test_exactly_one_empty_position() {
    let snapshot = "\
        8   2   4   .
        2  32   2  16";
    let mut grid = Grid::from_snapshot(snapshot);

    assert_eq!(grid.get_random_empty_position(), Some(Vector2D::new(3, 0)));

    grid.spawn_random_tile_at_random_location();
    assert_eq!(grid.get_random_empty_position(), None);
}

#[test]
fn test_generate_starting_positions() {
    // (0, 0), (1, 0), (2, 0), (3, 0)
    // (0, 1), (1, 1), (2, 1), (3, 1)
    let grid = Grid::new(2, 4);

    assert_eq!(
        grid.generate_starting_positions(MoveDirection::Left),
        vec![Vector2D::new(0, 0), Vector2D::new(0, 1)]
    );

    assert_eq!(
        grid.generate_starting_positions(MoveDirection::Right),
        vec![Vector2D::new(3, 0), Vector2D::new(3, 1)]
    );

    assert_eq!(
        grid.generate_starting_positions(MoveDirection::Up),
        vec![
            Vector2D::new(0, 0),
            Vector2D::new(1, 0),
            Vector2D::new(2, 0),
            Vector2D::new(3, 0)
        ]
    );

    assert_eq!(
        grid.generate_starting_positions(MoveDirection::Down),
        vec![
            Vector2D::new(0, 1),
            Vector2D::new(1, 1),
            Vector2D::new(2, 1),
            Vector2D::new(3, 1)
        ]
    );
}

#[test]
fn test_generate_positional_rows() {
    // (0, 0), (1, 0), (2, 0), (3, 0)
    // (0, 1), (1, 1), (2, 1), (3, 1)
    let grid = Grid::new(2, 4);

    assert_eq!(
        grid.generate_positional_rows(MoveDirection::Left),
        vec![
            vec![
                Vector2D::new(0, 0),
                Vector2D::new(1, 0),
                Vector2D::new(2, 0),
                Vector2D::new(3, 0),
            ],
            vec![
                Vector2D::new(0, 1),
                Vector2D::new(1, 1),
                Vector2D::new(2, 1),
                Vector2D::new(3, 1),
            ]
        ]
    );

    assert_eq!(
        grid.generate_positional_rows(MoveDirection::Right),
        vec![
            vec![
                Vector2D::new(3, 0),
                Vector2D::new(2, 0),
                Vector2D::new(1, 0),
                Vector2D::new(0, 0),
            ],
            vec![
                Vector2D::new(3, 1),
                Vector2D::new(2, 1),
                Vector2D::new(1, 1),
                Vector2D::new(0, 1),
            ]
        ]
    );

    assert_eq!(
        grid.generate_positional_rows(MoveDirection::Up),
        vec![
            vec![Vector2D::new(0, 0), Vector2D::new(0, 1)],
            vec![Vector2D::new(1, 0), Vector2D::new(1, 1)],
            vec![Vector2D::new(2, 0), Vector2D::new(2, 1)],
            vec![Vector2D::new(3, 0), Vector2D::new(3, 1)],
        ]
    );

    assert_eq!(
        grid.generate_positional_rows(MoveDirection::Down),
        vec![
            vec![Vector2D::new(0, 1), Vector2D::new(0, 0)],
            vec![Vector2D::new(1, 1), Vector2D::new(1, 0)],
            vec![Vector2D::new(2, 1), Vector2D::new(2, 0)],
            vec![Vector2D::new(3, 1), Vector2D::new(3, 0)],
        ]
    );
}

#[test]
fn update_left_merges_pairs_as_documented() {
    let mut grid = Grid::from_snapshot(". 2 . 2 2 . 2 .");
    let score = grid.update(MoveDirection::Left);
    assert_eq!(grid.generate_snapshot(), "4 4 . . . . . .");
    assert_eq!(score, 8);
}

#[test]
fn update_right_and_down_slide_toward_their_side() {
    let mut grid = Grid::from_snapshot("2 2 4 .");
    assert_eq!(grid.update(MoveDirection::Right), 4);
    assert_eq!(grid.generate_snapshot(), ". . 4 4");

    let mut grid = Grid::from_snapshot("2 .\n2 .\n4 .");
    assert_eq!(grid.update(MoveDirection::Down), 4);
    assert_eq!(grid.generate_snapshot(), ". .\n4 .\n4 .");

    let mut grid = Grid::from_snapshot("2 .\n2 .\n4 .");
    assert_eq!(grid.update(MoveDirection::Up), 4);
    assert_eq!(grid.generate_snapshot(), "4 .\n4 .\n. .");
}

#[test]
fn update_applies_special_tiles_in_a_line() {
    // Multiplier doubles, divider halves (penalty), bomb destroys (penalty).
    let mut grid = Grid::from_snapshot("4 *2 8 /2 6 B");
    let score = grid.update(MoveDirection::Left);
    assert_eq!(grid.generate_snapshot(), "8 4 . . . .");
    // 8 (product) - 4 (quotient) - 6 (bomb)
    assert_eq!(score, -2);
}

#[test]
fn dead_grid_cannot_change() {
    let snapshot = "2 4\n4 2";
    let grid = Grid::from_snapshot(snapshot);
    assert!(grid.is_dead());
    for direction in [
        MoveDirection::Left,
        MoveDirection::Right,
        MoveDirection::Up,
        MoveDirection::Down,
    ] {
        let mut moved = grid.duplicate();
        assert_eq!(moved.update(direction), 0);
        assert_eq!(moved.generate_snapshot(), snapshot);
    }
}

#[test]
fn grid_with_empty_or_merge_is_not_dead() {
    assert!(!Grid::from_snapshot("2 4\n4 .").is_dead());
    assert!(!Grid::from_snapshot("2 4\n2 8").is_dead());
    assert!(!Grid::from_snapshot("2 4\n8 *2").is_dead());
    assert!(Grid::from_snapshot("2 4 8\n4 8 2").is_dead());
}

#[test]
fn contains_value_finds_numbers_only() {
    let grid = Grid::from_snapshot("2 *4\n/8 16");
    assert!(grid.contains_value(2));
    assert!(grid.contains_value(16));
    assert!(!grid.contains_value(4));
    assert!(!grid.contains_value(8));
}

#[test]
fn clear_empties_every_tile() {
    let mut grid = Grid::from_snapshot("2 4\n8 B");
    grid.clear();
    assert_eq!(grid.generate_snapshot(), ". .\n. .");
    assert_eq!(grid.collect_empty_positions().len(), 4);
}

#[test]
fn collect_empty_positions_lists_row_after_row() {
    let grid = Grid::from_snapshot(". 2 .\n4 . 8");
    assert_eq!(
        grid.collect_empty_positions(),
        vec![Vector2D::new(0, 0), Vector2D::new(2, 0), Vector2D::new(1, 1)]
    );
}

#[test]
fn spawn_fills_an_empty_tile_with_a_spawnable_tile() {
    let mut grid = Grid::new(1, 2);
    let first = grid.spawn_random_tile_at_random_location().unwrap();
    let second = grid.spawn_random_tile_at_random_location().unwrap();
    assert_ne!(first, second);
    assert_eq!(grid.spawn_random_tile_at_random_location(), None);
    for tile in grid.tiles() {
        let spawnable = matches!(
            tile,
            Tile::Number(2) | Tile::Bomb | Tile::Multiplier(1..=3) | Tile::Divider(1..=3)
        );
        assert!(spawnable);
    }
}

#[test]
fn rolled_tile_follows_the_thresholds() {
    assert_eq!(Grid::rolled_tile(0, 2), Tile::Number(2));
    assert_eq!(Grid::rolled_tile(69, 2), Tile::Number(2));
    assert_eq!(Grid::rolled_tile(70, 2), Tile::Multiplier(2));
    assert_eq!(Grid::rolled_tile(79, 3), Tile::Multiplier(3));
    assert_eq!(Grid::rolled_tile(80, 1), Tile::Divider(1));
    assert_eq!(Grid::rolled_tile(89, 1), Tile::Divider(1));
    assert_eq!(Grid::rolled_tile(90, 1), Tile::Bomb);
    assert_eq!(Grid::rolled_tile(99, 1), Tile::Bomb);
}

#[test]
fn checked_move_score_matches_update() {
    let grid = Grid::from_snapshot("2 2 4 4");
    assert_eq!(grid.checked_move_score(MoveDirection::Left), Some(12));
    let big = Grid::from_snapshot("32768 32768");
    assert_eq!(big.checked_move_score(MoveDirection::Left), None);
    let wide = Grid::new(1, 200);
    assert_eq!(wide.checked_move_score(MoveDirection::Left), None);
}

#[test]
fn snapshot_round_trip_of_special_tiles() {
    let grid = Grid::from_snapshot("*8 /2\nB 1024");
    assert_eq!(grid.tiles(), &vec![
        Tile::Multiplier(3),
        Tile::Divider(1),
        Tile::Bomb,
        Tile::Number(1024)
    ]);
    assert_eq!(grid.generate_snapshot(), "*8 /2\nB 1024");
}

#[test]
fn move_packs_every_line_and_adds_no_tile() {
    let start = "2 . 2 4
                 . B 8 .
                 *2 . . 4";
    for direction in [
        MoveDirection::Left,
        MoveDirection::Right,
        MoveDirection::Up,
        MoveDirection::Down,
    ] {
        let before = Grid::from_snapshot(start);
        let mut grid = Grid::from_snapshot(start);
        grid.update(direction);
        assert_eq!((grid.num_rows, grid.num_cols), (before.num_rows, before.num_cols));
        let count = |g: &Grid| g.tiles().iter().filter(|t| !t.is_empty()).count();
        assert!(count(&grid) <= count(&before));
        for line in grid.generate_positional_rows(direction) {
            let values: Vec<Tile> = line.iter().map(|p| *grid.get_tile(p)).collect();
            let first_empty = values.iter().position(|t| t.is_empty()).unwrap_or(values.len());
            assert!(values[first_empty..].iter().all(|t| t.is_empty()));
        }
    }
}
