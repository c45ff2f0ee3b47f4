//! The launcher: a lever that turns about a pivot and throws the projectile.

use vstd::prelude::*;
use crate::fixed::{
    clamp,
    fx_add,
    fx_mul,
    fx_mul_div,
    fx_sub,
    in_range,
    lemma_product_magnitude,
    round_div,
    rounded_quotient,
    saturate,
    spec_fx_mul,
    spec_fx_mul_div,
    LIMIT,
};
use crate::game_object::GameObject;
use crate::klapi::{Klapi, KlapiView};
use crate::rectangle::Rectangle;
use crate::trig::{cos, sin, spec_cos, spec_sin, TRIG_ONE};
use crate::vector::Vector2;

verus! {

/// The length of the lever.
pub const ARM_HEIGHT: i64 = 900_000;

/// The breadth of the lever, and of the square hand at its end.
pub const ARM_WIDTH: i64 = 180_000;

/// Half the length of the lever: the distance from its centre to the pivot.
pub const ARM_HALF_HEIGHT: i64 = 450_000;

/// The largest angle of a fresh lever, a quarter turn forward.
pub const ARM_MAX_ANGLE: i64 = 90_000_000;

/// The smallest angle of a fresh lever, a quarter turn back.
pub const ARM_MIN_ANGLE: i64 = -90_000_000;

/// The angular speed a fresh lever is made with.
pub const ARM_INITIAL_SPEED: i64 = 720_000_000;

/// The width of a projectile.
pub const KLAPI_WIDTH: i64 = 450_000;

/// The height of a projectile.
pub const KLAPI_HEIGHT: i64 = 150_000;

/// The mass of a projectile.
pub const KLAPI_MASS: i64 = 2_500_000;

/// The ceiling of a projectile's linear velocity.
pub const KLAPI_MAX_SPEED: i64 = 10_000_000;

/// The weight of a projectile: its mass times 9.81, downward.
pub const KLAPI_WEIGHT: i64 = -24_525_000;

/// The number pi in units of a millionth of a millionth.
pub const PI_PICO: i64 = 3_141_592_653_590;

/// What divides `speed * radius * PI_PICO` to give the launch velocity: half
/// a turn in millionths of a degree, times the scale of `PI_PICO`.
pub const LAUNCH_DIVISOR: i128 = 180_000_000_000_000_000_000;

/// The pivoting lever with its hand.
#[derive(Clone, Copy, Debug, PartialEq, Eq, Structural)]
pub struct Arm {
    pub arm_rect: Rectangle,
    pub hand_rect: Rectangle,
    pub min_angle: i64,
    pub max_angle: i64,
    pub angle: i64,
    pub radius: i64,
    pub thrown: bool,
    pub acceleration: i64,
    pub speed: i64,
    pub start_location: Vector2,
    pub pivot_location: Vector2,
}

/// `angle` held to `[min_angle, max_angle]`: an angle above the range goes to
/// its upper end, one below to its lower end.
pub open spec fn held_angle(angle: int, min_angle: int, max_angle: int) -> int {
    if angle > max_angle {
        max_angle
    } else if angle < min_angle {
        min_angle
    } else {
        angle
    }
}

/// The linear velocity of the tip of a lever of length `radius` that turns at
/// `speed`: the lever makes `speed / 360` turns in a unit of time, and the tip
/// travels `2 pi radius` in each.
pub open spec fn launch_velocity(speed: int, radius: int) -> int {
    clamp(round_div(speed * radius * PI_PICO, LAUNCH_DIVISOR as int))
}

/// The lever at rest at `start_location`: upright, with the pivot at its upper
/// end and the hand at its lower end.
pub open spec fn spec_new_arm(start_location: Vector2) -> Arm {
    Arm {
        start_location,
        pivot_location: Vector2 {
            x: start_location.x,
            y: clamp(start_location.y + ARM_HALF_HEIGHT) as i64,
        },
        acceleration: 0,
        arm_rect: Rectangle {
            position: start_location,
            width: ARM_WIDTH,
            height: ARM_HEIGHT,
            rotation: 0,
        },
        angle: 0,
        max_angle: ARM_MAX_ANGLE,
        min_angle: ARM_MIN_ANGLE,
        speed: ARM_INITIAL_SPEED,
        thrown: false,
        radius: ARM_HEIGHT,
        hand_rect: Rectangle {
            position: Vector2 {
                x: start_location.x,
                y: clamp(start_location.y - ARM_HALF_HEIGHT) as i64,
            },
            width: ARM_WIDTH,
            height: ARM_WIDTH,
            rotation: 0,
        },
    }
}

impl Arm {
    /// Both rectangles are well formed, the angle range is not empty, and
    /// every stored quantity lies within the saturation bounds.
    pub open spec fn wf(self) -> bool {
        &&& self.arm_rect.wf()
        &&& self.hand_rect.wf()
        &&& self.start_location.in_range()
        &&& self.pivot_location.in_range()
        &&& self.min_angle <= self.max_angle
        &&& in_range(self.min_angle as int)
        &&& in_range(self.max_angle as int)
        &&& in_range(self.angle as int)
        &&& in_range(self.radius as int)
        &&& in_range(self.acceleration as int)
        &&& in_range(self.speed as int)
    }

    /// The lever's rectangle, centred at the start location.
    pub open spec fn spec_arm_start_rect(self) -> Rectangle {
        Rectangle { position: self.start_location, ..self.arm_rect }
    }

    /// The angular speed after `delta`.
    pub open spec fn new_speed(self, delta: i64) -> int {
        clamp(self.speed + spec_fx_mul(self.acceleration as int, delta as int))
    }

    /// The angle after `delta`: it advances at the new speed and is held to
    /// the range.
    pub open spec fn new_angle(self, delta: i64) -> int {
        held_angle(
            clamp(self.angle + spec_fx_mul(self.new_speed(delta), delta as int)),
            self.min_angle as int,
            self.max_angle as int,
        )
    }

    /// The lever after `delta`: speed and angle advance, and the lever's
    /// rectangle is the one at the start location turned about the pivot by
    /// the new angle. Everything else is kept.
    pub open spec fn updated(self, delta: i64) -> Arm {
        Arm {
            speed: self.new_speed(delta) as i64,
            angle: self.new_angle(delta) as i64,
            arm_rect: self.spec_arm_start_rect().spec_pivot(
                self.pivot_location,
                self.new_angle(delta) as i64,
            ),
            ..self
        }
    }

    /// The projectile that leaves the lever: it starts at the bottom right
    /// corner of the lever, saturated, with the lever's angle, and flies off at the
    /// velocity of the tip in the direction of that angle, under its weight.
    pub open spec fn launched(self) -> KlapiView {
        let velocity = launch_velocity(self.speed as int, self.radius as int);
        KlapiView {
            rect: Rectangle {
                position: self.arm_rect.spec_bottom_right().spec_saturated(),
                height: KLAPI_HEIGHT,
                width: KLAPI_WIDTH,
                rotation: self.angle,
            },
            speed: Vector2 {
                x: spec_fx_mul_div(velocity, spec_cos(self.angle as int), TRIG_ONE as int) as i64,
                y: spec_fx_mul_div(velocity, spec_sin(self.angle as int), TRIG_ONE as int) as i64,
            },
            rotational_speed: 0,
            max_speed: KLAPI_MAX_SPEED,
            mass: KLAPI_MASS,
            forces: seq![Vector2 { x: 0, y: KLAPI_WEIGHT }],
        }
    }

    /// Tests whether the lever is well formed.
    pub fn is_wf(&self) -> (ok: bool)
        ensures
            ok == self.wf(),
    {
        self.arm_rect.is_wf() && self.hand_rect.is_wf() && self.start_location.is_in_range()
            && self.pivot_location.is_in_range() && self.min_angle <= self.max_angle && -LIMIT
            <= self.min_angle && self.max_angle <= LIMIT && -LIMIT <= self.angle && self.angle
            <= LIMIT && -LIMIT <= self.radius && self.radius <= LIMIT && -LIMIT
            <= self.acceleration && self.acceleration <= LIMIT && -LIMIT <= self.speed
            && self.speed <= LIMIT
    }

    /// The lever's rectangle, centred at the start location.
    pub fn get_arm_start_rect(&self) -> (rect: Rectangle)
        ensures
            rect == self.spec_arm_start_rect(),
    {
        let mut rect = self.arm_rect;
        rect.position = self.start_location;
        rect
    }

    /// Throws: the projectile that leaves the lever in its present state.
    pub fn launch_klapi(&self) -> (klapi: Klapi)
        requires
            self.wf(),
        ensures
            klapi@ == self.launched(),
            klapi@.wf(),
    {
        proof {
            lemma_product_magnitude(self.speed as int, self.radius as int, LIMIT as int, LIMIT as int);
            lemma_product_magnitude(
                self.speed * self.radius,
                PI_PICO as int,
                LIMIT * LIMIT,
                PI_PICO as int,
            );
        }
        let turning: i128 = self.speed as i128 * self.radius as i128 * PI_PICO as i128;
        let velocity: i64 = saturate(rounded_quotient(turning, LAUNCH_DIVISOR));
        let x_speed = fx_mul_div(velocity, cos(self.angle), TRIG_ONE);
        let y_speed = fx_mul_div(velocity, sin(self.angle), TRIG_ONE);
        let position = self.arm_rect.bottom_right().saturated();
        let mut forces: Vec<Vector2> = Vec::new();
        forces.push(Vector2 { x: 0, y: KLAPI_WEIGHT });
        let klapi = Klapi {
            rect: Rectangle {
                position,
                height: KLAPI_HEIGHT,
                width: KLAPI_WIDTH,
                rotation: self.angle,
            },
            speed: Vector2 { x: x_speed, y: y_speed },
            rotational_speed: 0,
            max_speed: KLAPI_MAX_SPEED,
            mass: KLAPI_MASS,
            forces,
        };
        assert(klapi@.forces =~= self.launched().forces);
        klapi
    }
}

impl GameObject<Arm> for Arm {
    open spec fn ready(&self) -> bool {
        self.wf()
    }

    open spec fn advances_to(&self, delta: i64, next: Arm) -> bool {
        &&& next == self.updated(delta)
        &&& next.wf()
        &&& self.min_angle <= next.angle <= self.max_angle
    }

    fn update(&self, delta: i64) -> (next: Arm) {
        let speed = fx_add(self.speed, fx_mul(self.acceleration, delta));
        let mut angle = fx_add(self.angle, fx_mul(speed, delta));
        if angle > self.max_angle {
            angle = self.max_angle;
        } else if angle < self.min_angle {
            angle = self.min_angle
        }
        let rect = self.get_arm_start_rect();
        let arm_rect = rect.pivot(self.pivot_location, angle);
        Arm {
            start_location: self.start_location,
            pivot_location: self.pivot_location,
            acceleration: self.acceleration,
            arm_rect,
            angle,
            max_angle: self.max_angle,
            min_angle: self.min_angle,
            speed,
            thrown: self.thrown,
            radius: self.radius,
            hand_rect: self.hand_rect,
        }
    }
}

/// A lever at rest at `start_location`.
pub fn new_arm(start_location: Vector2) -> (arm: Arm)
    requires
        start_location.in_range(),
    ensures
        arm == spec_new_arm(start_location),
        arm.wf(),
{
    let hand_y = fx_sub(start_location.y, ARM_HALF_HEIGHT);
    let hand_position = Vector2 { x: start_location.x, y: hand_y };
    let pivot_y = fx_add(start_location.y, ARM_HALF_HEIGHT);
    let pivot_location = Vector2 { x: start_location.x, y: pivot_y };
    Arm {
        start_location,
        pivot_location,
        acceleration: 0,
        arm_rect: Rectangle {
            height: ARM_HEIGHT,
            width: ARM_WIDTH,
            position: start_location,
            rotation: 0,
        },
        angle: 0,
        max_angle: ARM_MAX_ANGLE,
        min_angle: ARM_MIN_ANGLE,
        speed: ARM_INITIAL_SPEED,
        thrown: false,
        radius: ARM_HEIGHT,
        hand_rect: Rectangle {
            position: hand_position,
            height: ARM_WIDTH,
            width: ARM_WIDTH,
            rotation: 0,
        },
    }
}

/// After a time step of any length the angle lies within the lever's range.
pub proof fn lemma_arm_angle_stays_in_range(arm: Arm, delta: i64)
    requires
        arm.min_angle <= arm.max_angle,
    ensures
        arm.min_angle <= arm.updated(delta).angle <= arm.max_angle,
        arm.updated(delta).min_angle == arm.min_angle,
        arm.updated(delta).max_angle == arm.max_angle,
{
}

} // verus!
