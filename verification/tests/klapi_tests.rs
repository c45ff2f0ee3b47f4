use klapit::game_object::GameObject;
use klapit::klapi::{copy_vectors, Klapi};
use klapit::rectangle::Rectangle;
use klapit::vector::vec2;

fn body(speed_x: i64, speed_y: i64) -> Klapi {
    Klapi {
        rect: Rectangle { position: vec2(1_000_000, 2_000_000), width: 450_000, height: 150_000, rotation: 0 },
        mass: 2_500_000,
        forces: vec![vec2(0, -24_525_000)],
        speed: vec2(speed_x, speed_y),
        rotational_speed: 0,
        max_speed: 10_000_000,
    }
}

#[test]
fn weight_pulls_the_velocity_down() {
    let klapi = body(3_000_000, 4_000_000);
    // 24.525 / 2.5 * 0.01 = 0.0981
    let speed = klapi.calculate_new_speed(10_000);
    assert_eq!(speed, vec2(3_000_000, 3_901_900));
}

#[test]
fn the_position_advances_at_the_new_velocity() {
    let klapi = body(3_000_000, 4_000_000);
    let next = klapi.update(10_000);
    assert_eq!(next.speed, vec2(3_000_000, 3_901_900));
    // 1 + 3 * 0.01 and 2 + 3.9019 * 0.01
    assert_eq!(next.rect.position, vec2(1_030_000, 2_039_019));
    assert_eq!(next.rect.width, 450_000);
    assert_eq!(next.rect.height, 150_000);
    assert_eq!(next.rect.rotation, 0);
    assert_eq!(next.mass, 2_500_000);
    assert_eq!(next.max_speed, 10_000_000);
    assert_eq!(next.rotational_speed, 0);
    assert_eq!(next.forces, vec![vec2(0, -24_525_000)]);
    // the body itself is left as it was
    assert_eq!(klapi.rect.position, vec2(1_000_000, 2_000_000));
    assert_eq!(klapi.speed, vec2(3_000_000, 4_000_000));
}

#[test]
fn the_forces_add_up() {
    let mut klapi = body(0, 0);
    klapi.forces = vec![vec2(1_000_000, 2_000_000), vec2(-3_000_000, 500_000), vec2(250_000, -1)];
    assert_eq!(klapi.net_force(), vec2(-1_750_000, 2_499_999));
    klapi.forces = Vec::new();
    assert_eq!(klapi.net_force(), vec2(0, 0));
    // mass 2.5, a second: the velocity is unchanged without forces
    assert_eq!(klapi.calculate_new_speed(1_000_000), vec2(0, 0));
}

#[test]
fn the_net_force_saturates() {
    let limit = 1_000_000_000_000;
    let mut klapi = body(0, 0);
    klapi.forces = vec![vec2(limit, -limit), vec2(limit, -limit), vec2(1, -1)];
    assert_eq!(klapi.net_force(), vec2(limit, -limit));
}

#[test]
fn the_velocity_is_capped_from_above_only() {
    let mut klapi = body(9_999_000, -50_000_000);
    klapi.forces = vec![vec2(25_000_000, -25_000_000)];
    // the change is 10 * 0.01 = 0.1 along both axes
    let speed = klapi.calculate_new_speed(10_000);
    assert_eq!(speed, vec2(10_000_000, -50_100_000));
    let mut fast = body(30_000_000, 20_000_000);
    fast.forces = Vec::new();
    assert_eq!(fast.calculate_new_speed(10_000), vec2(10_000_000, 10_000_000));
}

#[test]
fn the_rotation_advances_at_the_rotational_speed() {
    let mut klapi = body(0, 0);
    klapi.rotational_speed = 90_000_000;
    klapi.rect.rotation = 10_000_000;
    let rect = klapi.calculate_new_rect(vec2(-2_000_000, 1_000_000), 500_000);
    assert_eq!(rect.rotation, 55_000_000);
    assert_eq!(rect.position, vec2(0, 2_500_000));
}

#[test]
fn a_body_without_net_force_moves_in_a_straight_line() {
    let mut klapi = body(1_234_567, -7_654_321);
    klapi.forces = vec![vec2(5, -3), vec2(-5, 3)];
    let start = klapi.rect.position;
    let delta = 16_667;
    // 1.234567 * 0.016667 = 0.020577 and 7.654321 * 0.016667 = 0.127575
    let step = vec2(20_577, -127_575);
    let mut current = klapi.clone();
    for n in 1..=200 {
        current = current.update(delta);
        assert_eq!(current.speed, klapi.speed);
        assert_eq!(current.rect.position, vec2(start.x + n * step.x, start.y + n * step.y));
    }
}

#[test]
fn many_steps_at_once_are_the_steps_one_by_one() {
    let klapi = body(3_000_000, 4_000_000);
    let mut current = klapi.clone();
    for _ in 0..25 {
        current = current.update(16_000);
    }
    let after = klapi.update_times(16_000, 25);
    assert_eq!(after.rect, current.rect);
    assert_eq!(after.speed, current.speed);
    assert_eq!(after.forces, current.forces);
    let same = klapi.update_times(16_000, 0);
    assert_eq!(same.rect, klapi.rect);
    assert_eq!(same.speed, klapi.speed);
    // without net force: 200 steps of 0.020577 and -0.127575
    let mut free = body(1_234_567, -7_654_321);
    free.forces = Vec::new();
    let moved = free.update_times(16_667, 200);
    assert_eq!(moved.speed, free.speed);
    assert_eq!(moved.rect.position, vec2(1_000_000 + 200 * 20_577, 2_000_000 - 200 * 127_575));
}

#[test]
fn a_huge_time_step_saturates() {
    let klapi = body(3_000_000, 4_000_000);
    let next = klapi.update(i64::MAX);
    assert!(next.is_wf());
    // the change of velocity and the displacement saturate, not their sums
    assert_eq!(next.speed, vec2(3_000_000, 4_000_000 - 1_000_000_000_000));
    assert_eq!(next.rect.position, vec2(1_000_000_000_000, 2_000_000 - 1_000_000_000_000));
    let back = klapi.update(i64::MIN);
    assert!(back.is_wf());
    assert_eq!(back.speed, vec2(3_000_000, 10_000_000));
}

#[test]
fn well_formed_bodies_are_told_apart() {
    assert!(body(0, 0).is_wf());
    let mut massless = body(0, 0);
    massless.mass = 0;
    assert!(!massless.is_wf());
    let mut pushed = body(0, 0);
    pushed.forces.push(vec2(0, 1_000_000_000_001));
    assert!(!pushed.is_wf());
    let mut fast = body(0, 0);
    fast.speed = vec2(-1_000_000_000_001, 0);
    assert!(!fast.is_wf());
    let mut wide = body(0, 0);
    wide.rect.width = -1;
    assert!(!wide.is_wf());
}

#[test]
fn copies_hold_the_same_values() {
    let forces = vec![vec2(1, 2), vec2(3, 4), vec2(-5, 6)];
    assert_eq!(copy_vectors(&forces), forces);
    assert_eq!(copy_vectors(&Vec::new()), Vec::new());
    let klapi = body(1, 2);
    let copy = klapi.clone();
    assert_eq!(copy.forces, klapi.forces);
    assert_eq!(copy.rect, klapi.rect);
    assert_eq!(copy.speed, klapi.speed);
    assert_eq!(copy.mass, klapi.mass);
}
