use fallgray::collision::CELL_SIZE;
use fallgray::items::{
    floor_div, placement_cell, placement_center, ItemDefinition, ItemTracker, PLACEMENT_GRID,
    POSITION_TOLERANCE,
};

#[test]
fn floor_div_rounds_toward_negative_infinity() {
    assert_eq!(floor_div(0, CELL_SIZE), 0);
    assert_eq!(floor_div(CELL_SIZE - 1, CELL_SIZE), 0);
    assert_eq!(floor_div(CELL_SIZE, CELL_SIZE), 1);
    assert_eq!(floor_div(-1, CELL_SIZE), -1);
    assert_eq!(floor_div(-CELL_SIZE, CELL_SIZE), -1);
    assert_eq!(floor_div(-CELL_SIZE - 1, CELL_SIZE), -2);
}

#[test]
fn placement_grid_snapping() {
    assert_eq!(placement_cell(0), 0);
    assert_eq!(placement_cell(PLACEMENT_GRID + 1), 1);
    assert_eq!(placement_cell(-1), -1);
    // A cell's center is one world unit into the cell.
    assert_eq!(placement_center(0), 1000000);
    assert_eq!(placement_center(3), 3 * PLACEMENT_GRID + 1000000);
    assert_eq!(placement_center(-1), -PLACEMENT_GRID + 1000000);
}

#[test]
fn cells_insert_and_query() {
    let mut t = ItemTracker::default();
    assert!(!t.contains_cell(2, 3));
    t.insert_cell(2, 3);
    assert!(t.contains_cell(2, 3));
    assert!(!t.contains_cell(3, 2));
    // Inserting again keeps the set semantics.
    t.insert_cell(2, 3);
    assert!(t.contains_cell(2, 3));
}

#[test]
fn remove_clears_cell_and_records() {
    let mut t = ItemTracker::default();
    let x = 2 * CELL_SIZE + 1000000;
    let y = CELL_SIZE + 500000;
    t.insert_cell(floor_div(x, CELL_SIZE), floor_div(y, CELL_SIZE));
    t.push_world(x, y, "apple".to_string());
    t.push_world(x + 10 * CELL_SIZE, y, "coin-gold".to_string());
    assert!(t.contains_cell(2, 1));
    assert_eq!(t.world_positions.len(), 2);

    t.remove_at_position(x, y);
    assert!(!t.contains_cell(2, 1));
    assert_eq!(t.world_positions.len(), 1);
    assert_eq!(t.world_positions[0].item_type, "coin-gold");
}

#[test]
fn remove_respects_position_tolerance() {
    let mut t = ItemTracker::default();
    t.push_world(1000000, 1000000, "apple".to_string());
    t.push_world(1000000 + POSITION_TOLERANCE + 1, 1000000, "apple".to_string());
    t.remove_at_position(1000000, 1000000);
    // Only the record within the tolerance box disappears.
    assert_eq!(t.world_positions.len(), 1);
    assert_eq!(t.world_positions[0].x, 1000000 + POSITION_TOLERANCE + 1);
}

#[test]
fn try_place_item_snaps_and_deduplicates() {
    let mut t = ItemTracker::default();
    // A click a little into placement cell (3, 0) lands on its center.
    let placed = t.try_place_item(3 * PLACEMENT_GRID + 123, 456, "apple".to_string());
    assert_eq!(placed, Some((3 * PLACEMENT_GRID + 1000000, 1000000)));
    assert!(t.contains_cell(3, 0));
    assert_eq!(t.world_positions.len(), 1);
    assert_eq!(t.world_positions[0].item_type, "apple");

    // A second click in the same placement cell is refused.
    let again = t.try_place_item(3 * PLACEMENT_GRID + 999, 1, "coin-gold".to_string());
    assert_eq!(again, None);
    assert_eq!(t.world_positions.len(), 1);
}

#[test]
fn find_record_requires_strict_tolerance() {
    let mut t = ItemTracker::default();
    t.push_world(1000000, 2000000, "apple".to_string());
    // Exactly on the tolerance boundary is not a match; just inside is.
    assert_eq!(t.find_record_at(1000000 + POSITION_TOLERANCE, 2000000), None);
    assert_eq!(t.find_record_at(1000000 + POSITION_TOLERANCE - 1, 2000000), Some(0));
    assert_eq!(t.find_record_at(1000000, 2000000), Some(0));
    assert_eq!(t.find_record_at(0, 0), None);
}

#[test]
fn find_record_picks_the_first_match() {
    let mut t = ItemTracker::default();
    t.push_world(0, 0, "apple".to_string());
    t.push_world(10, 10, "coin-gold".to_string());
    assert_eq!(t.find_record_at(5, 5), Some(0));
}

#[test]
fn item_definition_carries_its_script() {
    let def = ItemDefinition {
        image: "base/sprites/apple.png".to_string(),
        script: "add_stamina 25".to_string(),
        scale: 1500000,
        effects: vec!["heal".to_string()],
    };
    assert_eq!(def.script, "add_stamina 25");
    assert_eq!(def.scale, 1500000);
    assert_eq!(def.effects.len(), 1);
}

#[test]
fn remove_at_negative_positions() {
    let mut t = ItemTracker::default();
    let x = -CELL_SIZE - 1000000;
    let y = -500000;
    t.insert_cell(floor_div(x, CELL_SIZE), floor_div(y, CELL_SIZE));
    assert!(t.contains_cell(-2, -1));
    t.push_world(x, y, "apple".to_string());
    t.remove_at_position(x, y);
    assert!(!t.contains_cell(-2, -1));
    assert!(t.world_positions.is_empty());
}
