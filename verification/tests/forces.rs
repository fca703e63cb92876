use pvw_rrect_physics::components::Position;
use pvw_rrect_physics::force::{Force, PartialForce};
use pvw_rrect_physics::movement::{update_velocity_and_predict, Movement};
use pvw_rrect_physics::vector::Vec2;

fn request(id: &str, force: Option<Vec2>, active: Option<bool>) -> PartialForce {
    PartialForce { id: id.to_string(), force, active }
}

fn stored(m: &Movement, id: &str) -> (String, Vec2, bool) {
    let f = m.forces.get(id).expect("the force exists");
    (f.id.clone(), f.force, f.active)
}

#[test]
fn mix_takes_what_the_request_carries() {
    let f = Force { id: "wind".to_string(), force: Vec2::new(1, 2), active: true };
    let both = f.mix(&request("other", Some(Vec2::new(3, 4)), Some(false)));
    assert_eq!(both.id, "wind");
    assert_eq!(both.force, Vec2::new(3, 4));
    assert!(!both.active);
    let none = f.mix(&request("other", None, None));
    assert_eq!(none.id, "wind");
    assert_eq!(none.force, Vec2::new(1, 2));
    assert!(none.active);
}

#[test]
fn a_request_with_only_a_flag_keeps_the_vector() {
    let mut m = Movement::default();
    m.apply_force(request("push", Some(Vec2::new(5, -6)), Some(true)));
    m.apply_force(request("push", None, Some(false)));
    assert_eq!(stored(&m, "push"), ("push".to_string(), Vec2::new(5, -6), false));
}

#[test]
fn a_request_with_only_a_vector_keeps_the_flag() {
    let mut m = Movement::default();
    m.apply_force(request("push", Some(Vec2::new(5, -6)), Some(true)));
    m.apply_force(request("push", Some(Vec2::new(7, 8)), None));
    assert_eq!(stored(&m, "push"), ("push".to_string(), Vec2::new(7, 8), true));
}

#[test]
fn a_request_for_a_new_name_fills_in_defaults() {
    let mut m = Movement::default();
    m.apply_force(request("a", None, None));
    m.apply_force(request("b", Some(Vec2::new(1, 1)), None));
    m.apply_force(request("c", None, Some(true)));
    assert_eq!(stored(&m, "a"), ("a".to_string(), Vec2::new(0, 0), false));
    assert_eq!(stored(&m, "b"), ("b".to_string(), Vec2::new(1, 1), false));
    assert_eq!(stored(&m, "c"), ("c".to_string(), Vec2::new(0, 0), true));
    assert_eq!(m.forces.len(), 3);
}

#[test]
fn apply_force_touches_one_entry_only() {
    let mut m = Movement::damped(Vec2::new(9, 9));
    m.velocity = Vec2::new(4, 4);
    m.apply_force(request("a", Some(Vec2::new(1, 1)), Some(true)));
    m.apply_force(request("b", Some(Vec2::new(2, 2)), Some(true)));
    m.apply_force(request("a", None, Some(false)));
    assert_eq!(stored(&m, "b"), ("b".to_string(), Vec2::new(2, 2), true));
    assert_eq!(m.forces.len(), 2);
    assert_eq!(m.velocity, Vec2::new(4, 4));
    assert_eq!(m.damping, Vec2::new(9, 9));
}

#[test]
fn damped_starts_at_rest() {
    let m = Movement::damped(Vec2::new(500_000, 250_000));
    assert_eq!(m.velocity, Vec2::new(0, 0));
    assert_eq!(m.damping, Vec2::new(500_000, 250_000));
    assert!(m.forces.is_empty());
    let d = Movement::default();
    assert_eq!(d.damping, Vec2::new(0, 0));
    assert!(d.forces.is_empty());
}

#[test]
fn from_materializes_a_request() {
    let f = Force::from(request("x", None, None));
    assert_eq!((f.id.as_str(), f.force, f.active), ("x", Vec2::new(0, 0), false));
    let g = Force::from(request("y", Some(Vec2::new(2, 3)), Some(true)));
    assert_eq!((g.id.as_str(), g.force, g.active), ("y", Vec2::new(2, 3), true));
    let h: Force = request("z", None, Some(true)).into();
    assert_eq!((h.id.as_str(), h.force, h.active), ("z", Vec2::new(0, 0), true));
}

#[test]
fn forces_are_equal_by_name() {
    let a = Force { id: "a".to_string(), force: Vec2::new(1, 2), active: true };
    let same_name = Force { id: "a".to_string(), force: Vec2::new(9, 9), active: false };
    let other = Force { id: "b".to_string(), force: Vec2::new(1, 2), active: true };
    assert!(a == same_name);
    assert!(a != other);
}

#[test]
fn default_force_is_named_and_idle() {
    let f = Force::default();
    assert_eq!(f.id, "default_force");
    assert_eq!(f.id, Force::DEFAULT_NAME);
    assert_eq!(f.force, Vec2::new(0, 0));
    assert!(!f.active);
}

#[test]
fn multiplying_a_force_scales_its_vector() {
    let f = Force { id: "a".to_string(), force: Vec2::new(4_000_000, -8_000_000), active: true };
    let g = f * Vec2::new(250_000, 125_000);
    assert_eq!((g.id.as_str(), g.force, g.active), ("a", Vec2::new(1_000_000, -1_000_000), true));
}

#[test]
fn clones_keep_every_field() {
    let f = Force { id: "a".to_string(), force: Vec2::new(4, -8), active: true };
    let g = f.clone();
    assert_eq!((g.id.as_str(), g.force, g.active), ("a", Vec2::new(4, -8), true));
    let p = request("p", Some(Vec2::new(1, 2)), None);
    let q = p.clone();
    assert_eq!((q.id.as_str(), q.force, q.active), ("p", Some(Vec2::new(1, 2)), None));
}

#[test]
fn damping_scales_inactive_forces_only() {
    // damping (0.5, 0.25) over half a second: the factor is (0.25, 0.125)
    let mut m = Movement::damped(Vec2::new(500_000, 250_000));
    m.apply_force(request("idle", Some(Vec2::new(4_000_000, -8_000_000)), Some(false)));
    m.apply_force(request("held", Some(Vec2::new(4_000_000, -8_000_000)), Some(true)));
    m.apply_damping(500_000);
    assert_eq!(stored(&m, "idle"), ("idle".to_string(), Vec2::new(1_000_000, -1_000_000), false));
    assert_eq!(stored(&m, "held"), ("held".to_string(), Vec2::new(4_000_000, -8_000_000), true));
    assert_eq!(m.forces.len(), 2);
}

#[test]
fn damping_compounds_and_keeps_the_sign() {
    let mut m = Movement::damped(Vec2::new(1_000_000, 1_000_000));
    m.apply_force(request("idle", Some(Vec2::new(8_000_000, -8_000_000)), None));
    let mut last = Vec2::new(8_000_000, -8_000_000);
    for _ in 0..30 {
        m.apply_damping(500_000);
        let now = stored(&m, "idle").1;
        assert_eq!(now, Vec2::new(last.x / 2, last.y / 2));
        assert!(now.x >= 0 && now.y <= 0);
        last = now;
    }
    assert_eq!(last, Vec2::new(0, 0));
}

#[test]
fn damping_without_forces_changes_nothing() {
    let mut m = Movement::damped(Vec2::new(1, 1));
    m.velocity = Vec2::new(3, 4);
    m.apply_damping(1_000_000);
    assert!(m.forces.is_empty());
    assert_eq!(m.velocity, Vec2::new(3, 4));
    assert_eq!(m.damping, Vec2::new(1, 1));
}

#[test]
fn forces_add_up_to_a_displacement() {
    let mut m = Movement::default();
    assert_eq!(m.sum_of_forces(1_000_000), Vec2::new(0, 0));
    m.apply_force(request("a", Some(Vec2::new(3_000_000, 0)), Some(true)));
    m.apply_force(request("b", Some(Vec2::new(-1_000_000, 2_000_000)), Some(true)));
    m.apply_force(request("c", Some(Vec2::new(0, -500_000)), None));
    assert_eq!(m.sum_of_forces(1_000_000), Vec2::new(2_000_000, 1_500_000));
    assert_eq!(m.sum_of_forces(500_000), Vec2::new(1_000_000, 750_000));
    assert_eq!(m.sum_of_forces(0), Vec2::new(0, 0));
}

#[test]
fn the_sum_of_forces_saturates_once() {
    let mut m = Movement::default();
    m.apply_force(request("a", Some(Vec2::new(i64::MAX, i64::MIN)), Some(true)));
    m.apply_force(request("b", Some(Vec2::new(i64::MAX, i64::MIN)), Some(true)));
    m.apply_force(request("c", Some(Vec2::new(i64::MIN, i64::MAX)), Some(true)));
    // the sum is exact before it is stored: MAX + MAX + MIN is MAX - 1, and
    // MIN + MIN + MAX lies one below the range
    assert_eq!(m.sum_of_forces(1_000_000), Vec2::new(i64::MAX - 1, i64::MIN));
}

#[test]
fn a_tick_moves_the_position_by_the_velocity() {
    let mut m = Movement::default();
    m.velocity = Vec2::new(77, 77);
    m.apply_force(request("a", Some(Vec2::new(64_000_000, -128_000_000)), Some(true)));
    let mut p = Position(Vec2::new(1_000_000, 1_000_000));
    // a 64th of a second
    update_velocity_and_predict(&mut m, &mut p, 15_625);
    assert_eq!(m.velocity, Vec2::new(1_000_000, -2_000_000));
    assert_eq!(p, Position(Vec2::new(2_000_000, -1_000_000)));
    update_velocity_and_predict(&mut m, &mut p, 15_625);
    assert_eq!(m.velocity, Vec2::new(1_000_000, -2_000_000));
    assert_eq!(p, Position(Vec2::new(3_000_000, -3_000_000)));
}

#[test]
fn a_tick_clamps_the_velocity() {
    let mut m = Movement::default();
    m.apply_force(request("a", Some(Vec2::new(3_000_000_000, 4_000_000_000)), Some(true)));
    let mut p = Position(Vec2::new(0, 0));
    update_velocity_and_predict(&mut m, &mut p, 15_625);
    // 256 units a second over a 64th of a second: four units, along (3, 4)
    assert_eq!(m.velocity, Vec2::new(2_400_000, 3_200_000));
    assert_eq!(p, Position(Vec2::new(2_400_000, 3_200_000)));
}

#[test]
fn a_tick_damps_before_it_sums() {
    let mut m = Movement::damped(Vec2::new(500_000, 500_000));
    m.apply_force(request("held", Some(Vec2::new(3_000_000_000, 4_000_000_000)), Some(true)));
    m.apply_force(request("idle", Some(Vec2::new(100_000_000, 0)), Some(false)));
    let mut p = Position(Vec2::new(0, 0));
    update_velocity_and_predict(&mut m, &mut p, 15_625);
    assert_eq!(stored(&m, "idle").1, Vec2::new(781_200, 0));
    assert_eq!(m.velocity, Vec2::new(2_400_399, 3_199_699));
    let len_sq = (m.velocity.x as i128).pow(2) + (m.velocity.y as i128).pow(2);
    assert!(len_sq <= 4_000_000i128 * 4_000_000i128);
    assert_eq!(p, Position(m.velocity));
}

#[test]
fn a_tick_of_no_length_stands_still() {
    let mut m = Movement::default();
    m.apply_force(request("a", Some(Vec2::new(3_000_000_000, 4_000_000_000)), Some(true)));
    let mut p = Position(Vec2::new(5, 6));
    update_velocity_and_predict(&mut m, &mut p, 0);
    assert_eq!(m.velocity, Vec2::new(0, 0));
    assert_eq!(p, Position(Vec2::new(5, 6)));
}

#[test]
fn the_velocity_stays_within_the_limit_at_the_extremes() {
    let mut m = Movement::default();
    m.apply_force(request("a", Some(Vec2::new(i64::MAX, i64::MIN)), Some(true)));
    m.apply_force(request("b", Some(Vec2::new(i64::MAX, i64::MIN)), Some(true)));
    let mut p = Position(Vec2::new(i64::MAX, i64::MIN));
    update_velocity_and_predict(&mut m, &mut p, 1_000_000);
    let len_sq = (m.velocity.x as i128).pow(2) + (m.velocity.y as i128).pow(2);
    assert!(len_sq <= 256_000_000i128 * 256_000_000i128);
    assert!(m.velocity.x > 181_000_000 && m.velocity.y < -181_000_000);
    assert_eq!(p, Position(Vec2::new(i64::MAX, i64::MIN)));
}

#[test]
fn the_speed_limit_is_256_units_a_second() {
    assert_eq!(Movement::MAX_VELOCITY, 256_000_000);
    let mut m = Movement::default();
    m.apply_force(request("a", Some(Vec2::new(1_000_000_000, 0)), Some(true)));
    let mut p = Position(Vec2::new(0, 0));
    update_velocity_and_predict(&mut m, &mut p, 1_000_000);
    assert_eq!(m.velocity, Vec2::new(256_000_000, 0));
    update_velocity_and_predict(&mut m, &mut p, 500_000);
    assert_eq!(m.velocity, Vec2::new(128_000_000, 0));
    assert_eq!(p, Position(Vec2::new(384_000_000, 0)));
}
