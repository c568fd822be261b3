use fallgray::collision::{check_circle_collision, CollisionMap, CELL_SIZE, PLAYER_RADIUS};

fn grid(rows: &[&str]) -> Vec<String> {
    rows.iter().map(|r| r.to_string()).collect()
}

#[test]
fn from_grid_marks_walls() {
    let m = CollisionMap::from_grid(&grid(&["X.", ".x"]));
    assert_eq!(m.width(), 2);
    assert_eq!(m.height(), 2);
    // Center of cell (0,0), which is a wall.
    assert!(!m.can_move_to(CELL_SIZE / 2, CELL_SIZE / 2, PLAYER_RADIUS));
    // Center of cell (1,0), which is free and far enough from both walls.
    assert!(m.can_move_to(CELL_SIZE + CELL_SIZE / 2, CELL_SIZE / 2, 1));
}

#[test]
fn both_wall_glyphs_block() {
    let m = CollisionMap::from_grid(&grid(&["Xx"]));
    assert!(!m.can_move_to(CELL_SIZE / 2, CELL_SIZE / 2, 1000000));
    assert!(!m.can_move_to(CELL_SIZE + CELL_SIZE / 2, CELL_SIZE / 2, 1000000));
}

#[test]
fn non_wall_glyphs_are_free() {
    let m = CollisionMap::from_grid(&grid(&[".c #"]));
    assert_eq!(m.width(), 4);
    assert!(m.can_move_to(CELL_SIZE / 2, CELL_SIZE / 2, PLAYER_RADIUS));
    assert!(m.can_move_to(CELL_SIZE + CELL_SIZE / 2, CELL_SIZE / 2, PLAYER_RADIUS));
}

#[test]
fn disc_inside_wall_cell_is_blocked() {
    // A disc fully inside an occupied cell, radius under half a cell.
    let m = CollisionMap::from_grid(&grid(&["X"]));
    let r = CELL_SIZE / 2 - 1;
    assert!(!m.can_move_to(CELL_SIZE / 2, CELL_SIZE / 2, r));
}

#[test]
fn position_a_cell_away_is_free() {
    // Wall in cell (0,0); a position a full cell size away from it is free
    // for any radius up to one cell size.
    let m = CollisionMap::from_grid(&grid(&["X"]));
    let x = 2 * CELL_SIZE + CELL_SIZE;
    assert!(m.can_move_to(x, CELL_SIZE / 2, CELL_SIZE));
    assert!(m.can_move_to(x, CELL_SIZE / 2, 1));
}

#[test]
fn cell_shifted_position_stays_free() {
    // Two wall columns with a free corridor; moving one full cell along y
    // within the corridor keeps the position free.
    let m = CollisionMap::from_grid(&grid(&["X.X", "X.X", "X.X"]));
    let x = CELL_SIZE + CELL_SIZE / 2;
    let r = CELL_SIZE / 4;
    assert!(m.can_move_to(x, CELL_SIZE / 2, r));
    assert!(m.can_move_to(x, CELL_SIZE / 2 + CELL_SIZE, r));
}

#[test]
fn boundary_touch_is_not_overlap() {
    // Wall in cell (0,0): cells span [0, CELL_SIZE].  A disc centered one
    // radius right of the wall's edge touches it exactly and may stand.
    let m = CollisionMap::from_grid(&grid(&["X."]));
    let r = 1000000;
    assert!(m.can_move_to(CELL_SIZE + r, CELL_SIZE / 2, r));
    assert!(!m.can_move_to(CELL_SIZE + r - 1, CELL_SIZE / 2, r));
}

#[test]
fn radius_spanning_cells_checks_them_all() {
    // Wall two cells away from the query column; a huge disc still finds it.
    let m = CollisionMap::from_grid(&grid(&["..X"]));
    let r = 3 * CELL_SIZE;
    assert!(!m.can_move_to(CELL_SIZE / 2, CELL_SIZE / 2, r));
    assert!(m.can_move_to(CELL_SIZE / 2, CELL_SIZE / 2, CELL_SIZE));
}

#[test]
fn outside_authored_map_is_open() {
    let m = CollisionMap::from_grid(&grid(&["X"]));
    assert!(m.can_move_to(-10 * CELL_SIZE, -10 * CELL_SIZE, PLAYER_RADIUS));
    assert!(m.can_move_to(100 * CELL_SIZE, 100 * CELL_SIZE, PLAYER_RADIUS));
}

#[test]
fn zero_or_negative_radius_never_collides() {
    let m = CollisionMap::from_grid(&grid(&["X"]));
    assert!(m.can_move_to(CELL_SIZE / 2, CELL_SIZE / 2, 0));
    assert!(m.can_move_to(CELL_SIZE / 2, CELL_SIZE / 2, -5));
}

#[test]
fn empty_map_is_all_free() {
    let m = CollisionMap::from_grid(&grid(&[]));
    assert_eq!(m.width(), 0);
    assert_eq!(m.height(), 0);
    assert!(m.can_move_to(0, 0, CELL_SIZE));
}

#[test]
fn explicit_cells_constructor() {
    let m = CollisionMap::new(vec![(2, 3)], 10, 10);
    assert_eq!(m.width(), 10);
    assert_eq!(m.height(), 10);
    assert!(!m.can_move_to(2 * CELL_SIZE + CELL_SIZE / 2, 3 * CELL_SIZE + CELL_SIZE / 2, 1));
    assert!(m.can_move_to(CELL_SIZE / 2, CELL_SIZE / 2, 1));
}

#[test]
fn circle_collision_exact_distance() {
    // A 3-4-5 triangle in whole world units: distance is exactly five.
    let five = 5000000;
    assert!(!check_circle_collision(0, 0, 3000000, 4000000, five));
    assert!(check_circle_collision(0, 0, 3000000, 4000000, five + 1));
}

#[test]
fn circle_collision_degenerate_radius() {
    assert!(!check_circle_collision(0, 0, 0, 0, 0));
    assert!(!check_circle_collision(0, 0, 0, 0, -1));
    assert!(check_circle_collision(0, 0, 0, 0, 1));
}
