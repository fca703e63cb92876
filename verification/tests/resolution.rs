use pvw_rrect_physics::components::{Collider, ColliderType, Position};
use pvw_rrect_physics::resolver::{check_collisions_and_resolve, CollisionMessage};
use pvw_rrect_physics::snapshot::Body;
use pvw_rrect_physics::spatial_grid::{update_spatial_hash_grid, SpatialHashGrid};
use pvw_rrect_physics::vector::Vec2;

const U: i64 = 1_000_000;

fn body(entity: u64, x: i64, y: i64, ctype: ColliderType) -> Body {
    Body {
        entity,
        position: Position(Vec2::new(x, y)),
        collider: Collider::rect(Vec2::new(U, U), ctype),
    }
}

fn resolve(bodies: &mut Vec<Body>) -> Vec<CollisionMessage> {
    let mut grid = SpatialHashGrid::default();
    update_spatial_hash_grid(&mut grid, bodies);
    check_collisions_and_resolve(bodies, &grid)
}

fn positions(bodies: &[Body]) -> Vec<(i64, i64)> {
    bodies.iter().map(|b| (b.position.0.x, b.position.0.y)).collect()
}

fn unordered(m: &CollisionMessage) -> (u64, u64) {
    if m.0 < m.1 {
        (m.0, m.1)
    } else {
        (m.1, m.0)
    }
}

#[test]
fn a_static_body_pushes_a_dynamic_one_out() {
    let mut bodies = vec![
        body(1, 0, 0, ColliderType::Static),
        body(2, U / 2, 0, ColliderType::Dynamic(U)),
    ];
    let events = resolve(&mut bodies);
    assert_eq!(events, vec![CollisionMessage(2, 1)]);
    assert_eq!(positions(&bodies), vec![(0, 0), (U, 0)]);
    // the two now touch and no longer overlap
    assert_eq!(resolve(&mut bodies), vec![]);
    assert_eq!(positions(&bodies), vec![(0, 0), (U, 0)]);
}

#[test]
fn equal_dynamic_bodies_part_by_halves() {
    let mut bodies = vec![
        body(1, 0, 0, ColliderType::Dynamic(U)),
        body(2, U / 2, 0, ColliderType::Dynamic(U)),
    ];
    let events = resolve(&mut bodies);
    assert_eq!(events, vec![CollisionMessage(1, 2)]);
    assert_eq!(positions(&bodies), vec![(-U / 4, 0), (3 * U / 4, 0)]);
    assert_eq!(bodies[1].position.0.x - bodies[0].position.0.x, U);
}

#[test]
fn the_lighter_body_is_displaced_four_times_as_far() {
    let mut bodies = vec![
        body(1, 0, 0, ColliderType::Dynamic(4 * U)),
        body(2, U / 2, 0, ColliderType::Dynamic(U)),
    ];
    let events = resolve(&mut bodies);
    assert_eq!(events, vec![CollisionMessage(1, 2)]);
    assert_eq!(positions(&bodies), vec![(-100_000, 0), (900_000, 0)]);
}

#[test]
fn bodies_that_are_apart_are_left_alone() {
    let mut bodies = vec![
        body(1, 0, 0, ColliderType::Dynamic(U)),
        body(2, 2 * U, 0, ColliderType::Dynamic(U)),
        body(3, 0, 2 * U, ColliderType::Static),
        body(4, -2 * U, 0, ColliderType::Sensor),
    ];
    let events = resolve(&mut bodies);
    assert_eq!(events, vec![]);
    assert_eq!(positions(&bodies), vec![(0, 0), (2 * U, 0), (0, 2 * U), (-2 * U, 0)]);
}

#[test]
fn each_pair_is_reported_once_whichever_comes_first() {
    let mut forward = vec![
        body(1, 0, 0, ColliderType::Dynamic(U)),
        body(2, U / 2, 0, ColliderType::Dynamic(U)),
    ];
    let mut backward = vec![
        body(2, U / 2, 0, ColliderType::Dynamic(U)),
        body(1, 0, 0, ColliderType::Dynamic(U)),
    ];
    let first = resolve(&mut forward);
    let second = resolve(&mut backward);
    assert_eq!(first.len(), 1);
    assert_eq!(second.len(), 1);
    assert_eq!(first, vec![CollisionMessage(1, 2)]);
    assert_eq!(second, vec![CollisionMessage(2, 1)]);
    assert_eq!(unordered(&first[0]), unordered(&second[0]));
    assert_eq!(positions(&forward), vec![(-U / 4, 0), (3 * U / 4, 0)]);
    assert_eq!(positions(&backward), vec![(3 * U / 4, 0), (-U / 4, 0)]);
}

#[test]
fn sensors_are_reported_and_not_moved() {
    let mut bodies = vec![
        body(1, 0, 0, ColliderType::Sensor),
        body(2, U / 2, 0, ColliderType::Sensor),
        body(3, 0, U / 2, ColliderType::Dynamic(U)),
    ];
    let events = resolve(&mut bodies);
    assert_eq!(events, vec![
        CollisionMessage(1, 2),
        CollisionMessage(1, 3),
        CollisionMessage(2, 3)
    ]);
    assert_eq!(positions(&bodies), vec![(0, 0), (U / 2, 0), (0, U / 2)]);
}

#[test]
fn static_bodies_do_not_search() {
    let mut bodies = vec![
        body(1, 0, 0, ColliderType::Static),
        body(2, U / 2, 0, ColliderType::Static),
    ];
    let events = resolve(&mut bodies);
    assert_eq!(events, vec![]);
    assert_eq!(positions(&bodies), vec![(0, 0), (U / 2, 0)]);
}

#[test]
fn a_sensor_finds_a_static_body() {
    let mut bodies = vec![
        body(1, 0, 0, ColliderType::Static),
        body(2, U / 2, 0, ColliderType::Sensor),
    ];
    let events = resolve(&mut bodies);
    assert_eq!(events, vec![CollisionMessage(2, 1)]);
    assert_eq!(positions(&bodies), vec![(0, 0), (U / 2, 0)]);
}

#[test]
fn bodies_the_grid_does_not_know_are_passed_over() {
    let mut grid = SpatialHashGrid::default();
    let mut bodies = vec![
        body(1, 0, 0, ColliderType::Dynamic(U)),
        body(2, U / 2, 0, ColliderType::Dynamic(U)),
    ];
    assert_eq!(check_collisions_and_resolve(&mut bodies, &grid), vec![]);
    // only the second is known: it searches and finds no one but itself
    grid.insert_or_update(2, &bodies[1].position, &bodies[1].collider);
    assert_eq!(check_collisions_and_resolve(&mut bodies, &grid), vec![]);
    assert_eq!(positions(&bodies), vec![(0, 0), (U / 2, 0)]);
}

#[test]
fn neighbors_outside_the_snapshot_are_skipped() {
    let mut grid = SpatialHashGrid::default();
    let ghost = body(9, 0, 0, ColliderType::Dynamic(U));
    grid.insert_or_update(9, &ghost.position, &ghost.collider);
    let mut bodies = vec![body(1, 0, 0, ColliderType::Dynamic(U))];
    grid.insert_or_update(1, &bodies[0].position, &bodies[0].collider);
    assert_eq!(check_collisions_and_resolve(&mut bodies, &grid), vec![]);
    assert_eq!(positions(&bodies), vec![(0, 0)]);
}

#[test]
fn later_pairs_see_earlier_pushes() {
    // three in a row, each overlapping the next by half a unit
    let mut bodies = vec![
        body(1, 0, 0, ColliderType::Dynamic(U)),
        body(2, U / 2, 0, ColliderType::Dynamic(U)),
        body(3, U, 0, ColliderType::Dynamic(U)),
    ];
    let events = resolve(&mut bodies);
    // 1 meets 2: they part to -0.25 and 0.75. 1 at -0.25 no longer reaches 3 at 1.
    // 2 at 0.75 meets 3 at 1: overlap 0.75, they part to 0.375 and 1.375.
    assert_eq!(events, vec![CollisionMessage(1, 2), CollisionMessage(2, 3)]);
    assert_eq!(positions(&bodies), vec![(-250_000, 0), (375_000, 0), (1_375_000, 0)]);
}

#[test]
fn neighbors_are_met_in_ascending_order() {
    // entity 5 overlaps both 7 and 3; 3 is met first although it comes later
    let mut bodies = vec![
        body(5, 0, 0, ColliderType::Sensor),
        body(7, U / 2, 0, ColliderType::Sensor),
        body(3, -U / 2, 0, ColliderType::Sensor),
    ];
    let events = resolve(&mut bodies);
    assert_eq!(events, vec![CollisionMessage(5, 3), CollisionMessage(5, 7)]);
}

#[test]
fn a_dynamic_body_between_two_walls_is_pushed_twice() {
    let mut bodies = vec![
        body(1, 0, 0, ColliderType::Static),
        body(2, 0, U, ColliderType::Static),
        body(3, U / 4, U / 2, ColliderType::Dynamic(U)),
    ];
    let events = resolve(&mut bodies);
    // out of wall 1 along y by 0.5, which drives it deeper into wall 2;
    // then out of wall 2 along x by 0.75
    assert_eq!(events, vec![CollisionMessage(3, 1), CollisionMessage(3, 2)]);
    assert_eq!(positions(&bodies), vec![(0, 0), (0, U), (U, U)]);
}

#[test]
fn rounded_corners_slide_past_each_other() {
    let ball = Collider::circle(U / 2, ColliderType::Dynamic(U));
    let mut bodies = vec![
        Body { entity: 1, position: Position(Vec2::new(0, 0)), collider: ball },
        Body { entity: 2, position: Position(Vec2::new(800_000, 800_000)), collider: ball },
    ];
    assert_eq!(resolve(&mut bodies), vec![]);
    bodies[1].position = Position(Vec2::new(600_000, 600_000));
    assert_eq!(resolve(&mut bodies), vec![CollisionMessage(1, 2)]);
    assert_eq!(positions(&bodies), vec![(-53_553, -53_553), (653_553, 653_553)]);
}

#[test]
fn an_empty_snapshot_yields_nothing() {
    let mut bodies: Vec<Body> = Vec::new();
    assert_eq!(resolve(&mut bodies), vec![]);
    assert!(bodies.is_empty());
}

#[test]
fn bodies_with_one_centre_part_along_y() {
    let mut bodies = vec![
        body(1, 7, 7, ColliderType::Static),
        body(2, 7, 7, ColliderType::Dynamic(U)),
    ];
    let events = resolve(&mut bodies);
    // the push of the wall out of the body points up, so the body gives way downward
    assert_eq!(events, vec![CollisionMessage(2, 1)]);
    assert_eq!(positions(&bodies), vec![(7, 7), (7, 7 - U)]);
}

#[test]
fn pushes_stop_at_the_edge_of_the_range() {
    let mut bodies = vec![
        body(1, i64::MIN + U / 2, 0, ColliderType::Static),
        body(2, i64::MIN, 0, ColliderType::Dynamic(U)),
    ];
    let events = resolve(&mut bodies);
    // half a unit to the left of the least coordinate there is nothing
    assert_eq!(events, vec![CollisionMessage(2, 1)]);
    assert_eq!(positions(&bodies), vec![(i64::MIN + U / 2, 0), (i64::MIN, 0)]);
}
