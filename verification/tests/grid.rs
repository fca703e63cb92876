use pvw_rrect_physics::components::{Collider, ColliderType, Position};
use pvw_rrect_physics::snapshot::Body;
use pvw_rrect_physics::spatial_grid::{update_spatial_hash_grid, SpatialHashGrid};
use pvw_rrect_physics::vector::Vec2;

const U: i64 = 1_000_000;

fn square(side: i64) -> Collider {
    Collider::rect(Vec2::new(side, side), ColliderType::Sensor)
}

fn at(x: i64, y: i64) -> Position {
    Position(Vec2::new(x, y))
}

fn cells_of(grid: &SpatialHashGrid, pos: Position, col: &Collider) -> Vec<(i32, i32)> {
    let mut cells: Vec<(i32, i32)> = grid.find_cells(&pos, col).iter().copied().collect();
    cells.sort();
    cells
}

fn neighbors(grid: &SpatialHashGrid, e: u64) -> Option<Vec<u64>> {
    grid.iter(e).map(|set| {
        let mut v: Vec<u64> = set.iter().copied().collect();
        v.sort();
        v
    })
}

fn known(grid: &SpatialHashGrid) -> Vec<u64> {
    let mut v = grid.entities();
    v.sort();
    v
}

#[test]
fn default_grid_has_cells_of_twenty_units() {
    let grid = SpatialHashGrid::default();
    assert_eq!(grid.cell_size(), 20 * U);
    assert_eq!(SpatialHashGrid::DEFAULT_CELL_SIZE, 20 * U);
    assert!(grid.entities().is_empty());
    assert_eq!(SpatialHashGrid::new(3).cell_size(), 3);
}

#[test]
fn a_small_box_covers_one_cell() {
    let grid = SpatialHashGrid::default();
    assert_eq!(cells_of(&grid, at(10 * U, 10 * U), &square(U)), vec![(0, 0)]);
    assert_eq!(cells_of(&grid, at(30 * U, -30 * U), &square(U)), vec![(1, -2)]);
}

#[test]
fn a_box_on_a_border_covers_both_sides() {
    let grid = SpatialHashGrid::default();
    assert_eq!(cells_of(&grid, at(0, 0), &square(U)), vec![(-1, -1), (-1, 0), (0, -1), (0, 0)]);
    assert_eq!(cells_of(&grid, at(20 * U, 5 * U), &square(2 * U)), vec![(0, 0), (1, 0)]);
}

#[test]
fn cell_borders_belong_to_the_upper_cell() {
    let grid = SpatialHashGrid::default();
    // the lower edge lies exactly on 20, the upper on 40
    assert_eq!(cells_of(&grid, at(30 * U, 30 * U), &square(20 * U)), vec![
        (1, 1),
        (1, 2),
        (2, 1),
        (2, 2)
    ]);
    // one step less and the box stays inside its cell
    assert_eq!(cells_of(&grid, at(30 * U, 30 * U), &square(20 * U - 2)), vec![(1, 1)]);
}

#[test]
fn negative_bounds_round_down() {
    let grid = SpatialHashGrid::default();
    assert_eq!(cells_of(&grid, at(-1, -1), &square(0)), vec![(-1, -1)]);
    assert_eq!(cells_of(&grid, at(-20 * U, 0), &square(0)), vec![(-1, 0)]);
    assert_eq!(cells_of(&grid, at(-20 * U - 1, 0), &square(0)), vec![(-2, 0)]);
}

#[test]
fn a_wide_box_covers_a_block_of_cells() {
    let grid = SpatialHashGrid::new(U);
    let wide = Collider::rect(Vec2::new(3 * U, U), ColliderType::Sensor);
    assert_eq!(cells_of(&grid, at(U / 2, U / 2), &wide), vec![
        (-1, 0),
        (-1, 1),
        (0, 0),
        (0, 1),
        (1, 0),
        (1, 1),
        (2, 0),
        (2, 1)
    ]);
}

#[test]
fn far_bounds_stop_at_the_last_cell() {
    let grid = SpatialHashGrid::new(1);
    assert_eq!(cells_of(&grid, at(i64::MAX, i64::MIN), &square(0)), vec![(i32::MAX, i32::MIN)]);
}

#[test]
fn the_rounding_of_corners_is_ignored() {
    let grid = SpatialHashGrid::default();
    let ball = Collider::circle(U, ColliderType::Sensor);
    assert_eq!(cells_of(&grid, at(0, 0), &ball), cells_of(&grid, at(0, 0), &square(2 * U)));
}

#[test]
fn an_unknown_entity_has_no_neighbors() {
    let mut grid = SpatialHashGrid::default();
    assert_eq!(neighbors(&grid, 1), None);
    grid.insert_or_update(2, &at(0, 0), &square(U));
    assert_eq!(neighbors(&grid, 1), None);
}

#[test]
fn a_lone_entity_is_its_own_neighbor() {
    let mut grid = SpatialHashGrid::default();
    grid.insert_or_update(7, &at(10 * U, 10 * U), &square(U));
    assert_eq!(neighbors(&grid, 7), Some(vec![7]));
    assert_eq!(known(&grid), vec![7]);
}

#[test]
fn entities_that_share_a_cell_are_neighbors() {
    let mut grid = SpatialHashGrid::default();
    grid.insert_or_update(1, &at(5 * U, 5 * U), &square(U));
    grid.insert_or_update(2, &at(15 * U, 15 * U), &square(U));
    grid.insert_or_update(3, &at(25 * U, 5 * U), &square(U));
    // reaches from cell (0, 0) into cell (1, 0)
    grid.insert_or_update(4, &at(20 * U, 5 * U), &square(2 * U));
    assert_eq!(neighbors(&grid, 1), Some(vec![1, 2, 4]));
    assert_eq!(neighbors(&grid, 2), Some(vec![1, 2, 4]));
    assert_eq!(neighbors(&grid, 3), Some(vec![3, 4]));
    assert_eq!(neighbors(&grid, 4), Some(vec![1, 2, 3, 4]));
    assert_eq!(known(&grid), vec![1, 2, 3, 4]);
}

#[test]
fn an_update_moves_an_entity_between_buckets() {
    let mut grid = SpatialHashGrid::default();
    grid.insert_or_update(1, &at(5 * U, 5 * U), &square(U));
    grid.insert_or_update(2, &at(6 * U, 6 * U), &square(U));
    assert_eq!(neighbors(&grid, 1), Some(vec![1, 2]));
    grid.insert_or_update(2, &at(50 * U, 50 * U), &square(U));
    assert_eq!(neighbors(&grid, 1), Some(vec![1]));
    assert_eq!(neighbors(&grid, 2), Some(vec![2]));
    grid.insert_or_update(1, &at(50 * U, 50 * U), &square(U));
    assert_eq!(neighbors(&grid, 1), Some(vec![1, 2]));
    assert_eq!(neighbors(&grid, 2), Some(vec![1, 2]));
    assert_eq!(known(&grid), vec![1, 2]);
}

#[test]
fn an_update_with_a_new_size_changes_the_cells() {
    let mut grid = SpatialHashGrid::default();
    grid.insert_or_update(1, &at(10 * U, 10 * U), &square(U));
    grid.insert_or_update(2, &at(30 * U, 10 * U), &square(U));
    assert_eq!(neighbors(&grid, 1), Some(vec![1]));
    grid.insert_or_update(1, &at(10 * U, 10 * U), &square(25 * U));
    assert_eq!(neighbors(&grid, 1), Some(vec![1, 2]));
    grid.insert_or_update(1, &at(10 * U, 10 * U), &square(U));
    assert_eq!(neighbors(&grid, 1), Some(vec![1]));
    assert_eq!(neighbors(&grid, 2), Some(vec![2]));
}

#[test]
fn inserting_twice_changes_nothing() {
    let mut grid = SpatialHashGrid::default();
    grid.insert_or_update(1, &at(0, 0), &square(U));
    grid.insert_or_update(2, &at(U, U), &square(U));
    let once: Vec<Option<Vec<u64>>> = (0..4).map(|e| neighbors(&grid, e)).collect();
    let known_once = known(&grid);
    grid.insert_or_update(1, &at(0, 0), &square(U));
    grid.insert_or_update(2, &at(U, U), &square(U));
    // a move inside the same cells counts as unchanged too
    grid.insert_or_update(2, &at(U + 5, U - 5), &square(U));
    let twice: Vec<Option<Vec<u64>>> = (0..4).map(|e| neighbors(&grid, e)).collect();
    assert_eq!(once, twice);
    assert_eq!(known_once, known(&grid));
    assert_eq!(neighbors(&grid, 1), Some(vec![1, 2]));
}

#[test]
fn a_removed_entity_is_unknown_and_in_no_bucket() {
    let mut grid = SpatialHashGrid::default();
    grid.insert_or_update(1, &at(0, 0), &square(U));
    grid.insert_or_update(2, &at(U, U), &square(U));
    grid.insert_or_update(3, &at(-U, -U), &square(U));
    grid.remove(2);
    assert_eq!(neighbors(&grid, 2), None);
    assert_eq!(neighbors(&grid, 1), Some(vec![1, 3]));
    assert_eq!(neighbors(&grid, 3), Some(vec![1, 3]));
    assert_eq!(known(&grid), vec![1, 3]);
}

#[test]
fn removing_an_unknown_entity_changes_nothing() {
    let mut grid = SpatialHashGrid::default();
    grid.insert_or_update(1, &at(0, 0), &square(U));
    grid.remove(9);
    assert_eq!(neighbors(&grid, 1), Some(vec![1]));
    assert_eq!(known(&grid), vec![1]);
    grid.remove(1);
    grid.remove(1);
    assert_eq!(neighbors(&grid, 1), None);
    assert!(grid.entities().is_empty());
}

#[test]
fn a_removed_entity_can_come_back() {
    let mut grid = SpatialHashGrid::default();
    grid.insert_or_update(1, &at(0, 0), &square(U));
    grid.insert_or_update(2, &at(0, 0), &square(U));
    grid.remove(1);
    grid.insert_or_update(1, &at(0, 0), &square(U));
    assert_eq!(neighbors(&grid, 1), Some(vec![1, 2]));
    assert_eq!(neighbors(&grid, 2), Some(vec![1, 2]));
}

#[test]
fn a_refresh_records_the_snapshot_and_forgets_the_rest() {
    let mut grid = SpatialHashGrid::default();
    grid.insert_or_update(1, &at(0, 0), &square(U));
    grid.insert_or_update(2, &at(0, 0), &square(U));
    grid.insert_or_update(3, &at(0, 0), &square(U));
    let bodies = vec![
        Body { entity: 2, position: at(50 * U, 50 * U), collider: square(U) },
        Body { entity: 4, position: at(50 * U, 50 * U), collider: square(U) },
        Body { entity: 3, position: at(0, 0), collider: square(U) },
    ];
    update_spatial_hash_grid(&mut grid, &bodies);
    assert_eq!(known(&grid), vec![2, 3, 4]);
    assert_eq!(neighbors(&grid, 1), None);
    assert_eq!(neighbors(&grid, 2), Some(vec![2, 4]));
    assert_eq!(neighbors(&grid, 4), Some(vec![2, 4]));
    assert_eq!(neighbors(&grid, 3), Some(vec![3]));
    assert_eq!(grid.cell_size(), 20 * U);
}

#[test]
fn a_refresh_with_an_empty_snapshot_empties_the_grid() {
    let mut grid = SpatialHashGrid::default();
    grid.insert_or_update(1, &at(0, 0), &square(U));
    update_spatial_hash_grid(&mut grid, &Vec::new());
    assert!(grid.entities().is_empty());
    assert_eq!(neighbors(&grid, 1), None);
}

#[test]
fn a_refresh_takes_the_last_entry_of_an_entity() {
    let mut grid = SpatialHashGrid::default();
    let bodies = vec![
        Body { entity: 1, position: at(0, 0), collider: square(U) },
        Body { entity: 2, position: at(50 * U, 50 * U), collider: square(U) },
        Body { entity: 1, position: at(50 * U, 50 * U), collider: square(U) },
    ];
    update_spatial_hash_grid(&mut grid, &bodies);
    assert_eq!(known(&grid), vec![1, 2]);
    assert_eq!(neighbors(&grid, 1), Some(vec![1, 2]));
}
