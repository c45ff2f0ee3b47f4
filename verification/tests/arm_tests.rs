use klapit::arm::{
    new_arm, Arm, ARM_HEIGHT, ARM_INITIAL_SPEED, ARM_MAX_ANGLE, ARM_MIN_ANGLE, ARM_WIDTH,
    KLAPI_HEIGHT, KLAPI_MASS, KLAPI_MAX_SPEED, KLAPI_WEIGHT, KLAPI_WIDTH,
};
use klapit::game_object::GameObject;
use klapit::rectangle::Rectangle;
use klapit::vector::vec2;

fn arm() -> Arm {
    new_arm(vec2(-1_900_000, -450_000))
}

#[test]
fn a_new_arm_stands_upright_at_rest() {
    let arm = arm();
    assert!(arm.is_wf());
    assert_eq!(arm.start_location, vec2(-1_900_000, -450_000));
    assert_eq!(arm.pivot_location, vec2(-1_900_000, 0));
    assert_eq!(
        arm.arm_rect,
        Rectangle { position: vec2(-1_900_000, -450_000), width: 180_000, height: 900_000, rotation: 0 }
    );
    assert_eq!(
        arm.hand_rect,
        Rectangle { position: vec2(-1_900_000, -900_000), width: 180_000, height: 180_000, rotation: 0 }
    );
    assert_eq!(arm.angle, 0);
    assert_eq!(arm.min_angle, -90_000_000);
    assert_eq!(arm.max_angle, 90_000_000);
    assert_eq!(arm.speed, 720_000_000);
    assert_eq!(arm.acceleration, 0);
    assert_eq!(arm.radius, 900_000);
    assert!(!arm.thrown);
    assert_eq!(ARM_HEIGHT, 900_000);
    assert_eq!(ARM_WIDTH, 180_000);
    assert_eq!(ARM_MAX_ANGLE, 90_000_000);
    assert_eq!(ARM_MIN_ANGLE, -90_000_000);
    assert_eq!(ARM_INITIAL_SPEED, 720_000_000);
}

#[test]
fn a_new_arm_near_the_limit_saturates() {
    let limit = 1_000_000_000_000;
    let arm = new_arm(vec2(limit, limit));
    assert!(arm.is_wf());
    assert_eq!(arm.pivot_location, vec2(limit, limit));
    assert_eq!(arm.hand_rect.position, vec2(limit, limit - 450_000));
    let low = new_arm(vec2(-limit, -limit));
    assert_eq!(low.hand_rect.position, vec2(-limit, -limit));
    assert_eq!(low.pivot_location, vec2(-limit, -limit + 450_000));
}

#[test]
fn the_start_rect_is_the_arm_rect_at_the_start_location() {
    let mut arm = arm();
    arm.arm_rect.position = vec2(7, 8);
    arm.arm_rect.rotation = 33;
    let rect = arm.get_arm_start_rect();
    assert_eq!(
        rect,
        Rectangle { position: vec2(-1_900_000, -450_000), width: 180_000, height: 900_000, rotation: 33 }
    );
}

#[test]
fn charging_winds_the_arm_back() {
    let mut arm = arm();
    arm.speed = -60_000_000;
    let next = arm.update(16_000);
    // 60 degrees a second for 16 milliseconds
    assert_eq!(next.angle, -960_000);
    assert_eq!(next.speed, -60_000_000);
    assert_eq!(next.arm_rect.rotation, -960_000);
    // the centre hangs 0.45 below the pivot and swings by 0.96 degrees:
    // 0.45 sin(0.96) = 0.007539 and 0.45 cos(0.96) = 0.449937
    assert_eq!(next.arm_rect.position, vec2(-1_907_539, -449_937));
    assert_eq!(next.arm_rect.width, 180_000);
    assert_eq!(next.arm_rect.height, 900_000);
    assert_eq!(next.hand_rect, arm.hand_rect);
    assert_eq!(next.start_location, arm.start_location);
    assert_eq!(next.pivot_location, arm.pivot_location);
    assert_eq!(next.min_angle, arm.min_angle);
    assert_eq!(next.max_angle, arm.max_angle);
    assert_eq!(next.radius, arm.radius);
    assert_eq!(next.thrown, arm.thrown);
}

#[test]
fn launching_speeds_the_arm_up() {
    let mut arm = arm();
    arm.speed = 0;
    arm.acceleration = 720_000_000;
    arm.angle = -90_000_000;
    let next = arm.update(100_000);
    // 720 * 0.1 = 72 degrees a second, 7.2 degrees in the step
    assert_eq!(next.speed, 72_000_000);
    assert_eq!(next.angle, -82_800_000);
    let after = next.update(100_000);
    assert_eq!(after.speed, 144_000_000);
    assert_eq!(after.angle, -68_400_000);
}

#[test]
fn the_angle_stops_at_the_ends_of_its_range() {
    let mut arm = arm();
    arm.speed = -60_000_000;
    arm.angle = -89_500_000;
    let next = arm.update(16_000);
    assert_eq!(next.angle, -90_000_000);
    assert_eq!(next.arm_rect.position, vec2(-2_350_000, 0));
    arm.speed = 720_000_000;
    arm.angle = 80_000_000;
    let forward = arm.update(16_000);
    assert_eq!(forward.angle, 90_000_000);
    assert_eq!(forward.arm_rect.position, vec2(-1_450_000, 0));
    assert_eq!(forward.speed, 720_000_000);
}

#[test]
fn the_angle_stays_in_range_for_any_time_step() {
    let deltas = vec![0, 1, -1, 16_000, 1_000_000, 1_000_000_000_000, i64::MAX, i64::MIN];
    let speeds = vec![0, 720_000_000, -60_000_000, 1_000_000_000_000, -1_000_000_000_000];
    let accelerations = vec![0, 720_000_000, -720_000_000, 1_000_000_000_000];
    for delta in &deltas {
        for speed in &speeds {
            for acceleration in &accelerations {
                let mut arm = arm();
                arm.speed = *speed;
                arm.acceleration = *acceleration;
                let next = arm.update(*delta);
                assert!(arm.min_angle <= next.angle && next.angle <= arm.max_angle);
                assert!(next.is_wf());
                assert_eq!(next.arm_rect.rotation, next.angle);
            }
        }
    }
}

#[test]
fn an_angle_out_of_range_is_brought_back() {
    let mut arm = arm();
    arm.angle = 500_000_000;
    arm.speed = 0;
    assert_eq!(arm.update(16_000).angle, 90_000_000);
    arm.angle = -500_000_000;
    assert_eq!(arm.update(16_000).angle, -90_000_000);
}

#[test]
fn the_klapi_leaves_at_the_velocity_of_the_tip() {
    let mut arm = arm();
    arm.speed = 500_000_000;
    arm.angle = 60_000_000;
    arm.arm_rect = arm.get_arm_start_rect().pivot(arm.pivot_location, arm.angle);
    let klapi = arm.launch_klapi();
    // 2 pi * (500 / 360) * 0.9 = 7.853982, times cos 60 and sin 60
    assert_eq!(klapi.speed, vec2(3_926_991, 6_801_748));
    assert_eq!(klapi.rect.position, arm.arm_rect.bottom_right());
    assert_eq!(klapi.rect.rotation, 60_000_000);
    assert_eq!(klapi.rect.width, 450_000);
    assert_eq!(klapi.rect.height, 150_000);
    assert_eq!(klapi.mass, 2_500_000);
    assert_eq!(klapi.max_speed, 10_000_000);
    assert_eq!(klapi.rotational_speed, 0);
    assert_eq!(klapi.forces, vec![vec2(0, -24_525_000)]);
    assert!(klapi.is_wf());
    assert_eq!(
        (KLAPI_WIDTH, KLAPI_HEIGHT, KLAPI_MASS, KLAPI_MAX_SPEED, KLAPI_WEIGHT),
        (450_000, 150_000, 2_500_000, 10_000_000, -24_525_000)
    );
}

#[test]
fn the_klapi_of_an_arm_at_the_end_of_its_swing() {
    let mut arm = arm();
    arm.speed = 720_000_000;
    arm.angle = 90_000_000;
    arm.arm_rect = arm.get_arm_start_rect().pivot(arm.pivot_location, arm.angle);
    assert_eq!(arm.arm_rect.position, vec2(-1_450_000, 0));
    let klapi = arm.launch_klapi();
    // 2 pi * (720 / 360) * 0.9 = 11.309734, straight up
    assert_eq!(klapi.speed, vec2(0, 11_309_734));
    // the long side of the arm lies along x now; the corner is 0.45 ahead of
    // the centre and 0.09 above it
    assert_eq!(klapi.rect.position, vec2(-1_000_000, 90_000));
}

#[test]
fn an_arm_at_rest_or_turning_back_throws_accordingly() {
    let mut arm = arm();
    arm.speed = 0;
    assert_eq!(arm.launch_klapi().speed, vec2(0, 0));
    arm.speed = -360_000_000;
    // 2 pi * (-1) * 0.9 = -5.654867, at the angle zero
    assert_eq!(arm.launch_klapi().speed, vec2(-5_654_867, 0));
}

#[test]
fn well_formed_arms_are_told_apart() {
    let mut arm = arm();
    arm.min_angle = 10;
    arm.max_angle = 9;
    assert!(!arm.is_wf());
    let mut fast = self::arm();
    fast.speed = 1_000_000_000_001;
    assert!(!fast.is_wf());
    let mut wide = self::arm();
    wide.hand_rect.width = -1;
    assert!(!wide.is_wf());
}
