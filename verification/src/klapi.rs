//! The projectile: a rigid body under constant forces.

use vstd::prelude::*;
use crate::fixed::{
    clamp,
    fx_add,
    fx_mul,
    fx_mul_div,
    in_range,
    round_div,
    saturate,
    spec_fx_mul,
    spec_fx_mul_div,
    LIMIT,
    SCALE,
};
use crate::game_object::GameObject;
use crate::rectangle::Rectangle;
use crate::vector::Vector2;

verus! {

/// The launched body: its pose, its mass, the forces that act on it, its
/// linear and angular velocity, and the ceiling of its linear velocity.
#[derive(Debug)]
pub struct Klapi {
    pub rect: Rectangle,
    pub mass: i64,
    pub forces: Vec<Vector2>,
    pub speed: Vector2,
    pub rotational_speed: i64,
    pub max_speed: i64,
}

/// The mathematical content of a `Klapi`.
pub ghost struct KlapiView {
    pub rect: Rectangle,
    pub mass: i64,
    pub forces: Seq<Vector2>,
    pub speed: Vector2,
    pub rotational_speed: i64,
    pub max_speed: i64,
}

impl View for Klapi {
    type V = KlapiView;

    open spec fn view(&self) -> KlapiView {
        KlapiView {
            rect: self.rect,
            mass: self.mass,
            forces: self.forces@,
            speed: self.speed,
            rotational_speed: self.rotational_speed,
            max_speed: self.max_speed,
        }
    }
}

/// The sum of the `x` components.
pub open spec fn sum_x(forces: Seq<Vector2>) -> int
    decreases forces.len(),
{
    if forces.len() == 0 {
        0
    } else {
        sum_x(forces.drop_last()) + forces.last().x
    }
}

/// The sum of the `y` components.
pub open spec fn sum_y(forces: Seq<Vector2>) -> int
    decreases forces.len(),
{
    if forces.len() == 0 {
        0
    } else {
        sum_y(forces.drop_last()) + forces.last().y
    }
}

/// Every vector lies within the saturation bounds.
pub open spec fn all_in_range(vectors: Seq<Vector2>) -> bool {
    forall|i: int| 0 <= i < vectors.len() ==> (#[trigger] vectors[i]).in_range()
}

/// The smaller of two numbers.
pub open spec fn lesser(a: int, b: int) -> int {
    if a <= b {
        a
    } else {
        b
    }
}

impl KlapiView {
    /// The pose is well formed, the mass is positive, and every stored
    /// quantity lies within the saturation bounds.
    pub open spec fn wf(self) -> bool {
        &&& self.rect.wf()
        &&& in_range(self.rect.rotation as int)
        &&& 0 < self.mass <= LIMIT
        &&& all_in_range(self.forces)
        &&& self.speed.in_range()
        &&& in_range(self.rotational_speed as int)
        &&& in_range(self.max_speed as int)
    }

    /// The net force: the saturated sum of the forces.
    pub open spec fn net_force(self) -> Vector2 {
        Vector2 { x: clamp(sum_x(self.forces)) as i64, y: clamp(sum_y(self.forces)) as i64 }
    }

    /// The velocity after `delta`: the net force over the mass is the
    /// acceleration, which `delta` turns into a change of velocity. Each
    /// component is capped at `max_speed` from above and not from below.
    pub open spec fn new_speed(self, delta: i64) -> Vector2 {
        let force = self.net_force();
        let change_x = spec_fx_mul_div(force.x as int, delta as int, self.mass as int);
        let change_y = spec_fx_mul_div(force.y as int, delta as int, self.mass as int);
        Vector2 {
            x: lesser(clamp(self.speed.x + change_x), self.max_speed as int) as i64,
            y: lesser(clamp(self.speed.y + change_y), self.max_speed as int) as i64,
        }
    }

    /// The pose after `delta` at the velocity `speed`: the centre moves by
    /// `speed * delta` and the rotation grows by `rotational_speed * delta`.
    pub open spec fn new_rect(self, speed: Vector2, delta: i64) -> Rectangle {
        Rectangle {
            position: Vector2 {
                x: clamp(self.rect.position.x + spec_fx_mul(speed.x as int, delta as int)) as i64,
                y: clamp(self.rect.position.y + spec_fx_mul(speed.y as int, delta as int)) as i64,
            },
            width: self.rect.width,
            height: self.rect.height,
            rotation: clamp(
                self.rect.rotation + spec_fx_mul(self.rotational_speed as int, delta as int),
            ) as i64,
        }
    }

    /// The body after `delta`: first the new velocity, then the new pose at
    /// that velocity. Mass, forces, angular velocity and ceiling are kept.
    pub open spec fn updated(self, delta: i64) -> KlapiView {
        let speed = self.new_speed(delta);
        KlapiView { rect: self.new_rect(speed, delta), speed, ..self }
    }

    /// The conditions of straight motion over `count` steps of `delta`: no
    /// net force acts, no component of the velocity lies above the ceiling,
    /// and the centre, advancing by the displacement of one step each time,
    /// ends within the saturation bounds.
    pub open spec fn moves_straight(self, delta: i64, count: nat) -> bool {
        &&& sum_x(self.forces) == 0
        &&& sum_y(self.forces) == 0
        &&& self.speed.x <= self.max_speed
        &&& self.speed.y <= self.max_speed
        &&& in_range(self.rect.position.x + count * spec_fx_mul(self.speed.x as int, delta as int))
        &&& in_range(self.rect.position.y + count * spec_fx_mul(self.speed.y as int, delta as int))
    }

    /// The body after `count` steps of `delta` each.
    pub open spec fn updated_times(self, delta: i64, count: nat) -> KlapiView
        decreases count,
    {
        if count == 0 {
            self
        } else {
            self.updated_times(delta, (count - 1) as nat).updated(delta)
        }
    }
}

/// A time step keeps a well-formed body well formed.
pub proof fn lemma_updated_wf(body: KlapiView, delta: i64)
    requires
        body.wf(),
    ensures
        body.updated(delta).wf(),
{
}

/// A body on which no net force acts, and whose velocity lies under its
/// ceiling, moves in a straight line at that velocity: every step keeps the
/// velocity and adds the same displacement `speed * delta` to the centre, as
/// long as the centre stays within the saturation bounds.
pub proof fn lemma_linear_motion(body: KlapiView, delta: i64, count: nat)
    requires
        body.wf(),
        body.moves_straight(delta, count),
    ensures
        body.updated_times(delta, count).speed == body.speed,
        body.updated_times(delta, count).rect.position.x == body.rect.position.x + count
            * spec_fx_mul(body.speed.x as int, delta as int),
        body.updated_times(delta, count).rect.position.y == body.rect.position.y + count
            * spec_fx_mul(body.speed.y as int, delta as int),
        body.updated_times(delta, count).wf(),
        body.updated_times(delta, count).forces == body.forces,
        body.updated_times(delta, count).mass == body.mass,
        body.updated_times(delta, count).max_speed == body.max_speed,
    decreases count,
{
    if count > 0 {
        let before = (count - 1) as nat;
        let step_x = spec_fx_mul(body.speed.x as int, delta as int);
        let step_y = spec_fx_mul(body.speed.y as int, delta as int);
        lemma_between_multiples(body.rect.position.x as int, step_x, before as int, count as int);
        lemma_between_multiples(body.rect.position.y as int, step_y, before as int, count as int);
        lemma_linear_motion(body, delta, before);
        let earlier = body.updated_times(delta, before);
        lemma_updated_wf(earlier, delta);
        crate::fixed::lemma_round_div_exact(0, body.mass as int);
        assert(0 * (body.mass as int) == 0);
        assert(0 * (delta as int) == 0);
        assert(earlier.net_force() == Vector2 { x: 0, y: 0 });
        assert(earlier.new_speed(delta) == body.speed);
        assert(count * step_x == before * step_x + step_x) by (nonlinear_arith)
            requires
                count == before + 1,
        ;
        assert(count * step_y == before * step_y + step_y) by (nonlinear_arith)
            requires
                count == before + 1,
        ;
    } else {
        assert(0 * spec_fx_mul(body.speed.x as int, delta as int) == 0);
        assert(0 * spec_fx_mul(body.speed.y as int, delta as int) == 0);
    }
}

/// A point that lies within the saturation bounds after no step and after
/// `count` equal steps lies within them after every number of steps between.
proof fn lemma_between_multiples(origin: int, step: int, part: int, count: int)
    requires
        0 <= part <= count,
        in_range(origin),
        in_range(origin + count * step),
    ensures
        in_range(origin + part * step),
{
    assert(in_range(origin + part * step)) by (nonlinear_arith)
        requires
            0 <= part <= count,
            -LIMIT <= origin <= LIMIT,
            -LIMIT <= origin + count * step <= LIMIT,
    {
        if step >= 0 {
            assert(0 <= part * step <= count * step);
        } else {
            assert(count * step <= part * step <= 0);
        }
    }
}

/// In the straight motion of `lemma_linear_motion` the distance covered in
/// `count` steps is the velocity times the time `count * delta`, up to half a
/// millionth for each step, as long as the displacement of one step lies
/// within the saturation bounds.
pub proof fn lemma_linear_motion_distance(body: KlapiView, delta: i64, count: nat)
    requires
        body.wf(),
        body.moves_straight(delta, count),
        in_range(round_div(body.speed.x * delta, SCALE as int)),
        in_range(round_div(body.speed.y * delta, SCALE as int)),
    ensures
        ({
            let after = body.updated_times(delta, count).rect.position;
            let covered_x = after.x - body.rect.position.x;
            let covered_y = after.y - body.rect.position.y;
            &&& -count * SCALE <= 2 * (body.speed.x * (count * delta)) - 2 * SCALE * covered_x
                <= count * SCALE
            &&& -count * SCALE <= 2 * (body.speed.y * (count * delta)) - 2 * SCALE * covered_y
                <= count * SCALE
        }),
{
    lemma_linear_motion(body, delta, count);
    lemma_steps_are_nearest(body.speed.x as int, delta as int, count as int);
    lemma_steps_are_nearest(body.speed.y as int, delta as int, count as int);
}

/// `count` rounded steps differ from `count` exact ones by at most `count`
/// halves.
proof fn lemma_steps_are_nearest(speed: int, delta: int, count: int)
    requires
        count >= 0,
        in_range(round_div(speed * delta, SCALE as int)),
    ensures
        -count * SCALE <= 2 * (speed * (count * delta)) - 2 * SCALE * (count * spec_fx_mul(
            speed,
            delta,
        )) <= count * SCALE,
{
    crate::fixed::lemma_round_div_nearest(speed * delta, SCALE as int);
    let exact = speed * delta;
    let step = spec_fx_mul(speed, delta);
    let scale = SCALE as int;
    assert(-count * scale <= 2 * (speed * (count * delta)) - 2 * scale * (count * step) <= count
        * scale) by (nonlinear_arith)
        requires
            count >= 0,
            exact == speed * delta,
            -scale <= 2 * exact - 2 * scale * step <= scale,
    {
        assert(speed * (count * delta) == count * exact);
        assert(2 * (count * exact) - 2 * scale * (count * step) == count * (2 * exact - 2 * scale
            * step));
    }
}

/// A copy of a list of vectors.
pub fn copy_vectors(vectors: &Vec<Vector2>) -> (copy: Vec<Vector2>)
    ensures
        copy@ == vectors@,
{
    let mut copy: Vec<Vector2> = Vec::new();
    let mut i: usize = 0;
    while i < vectors.len()
        invariant
            i <= vectors.len(),
            copy@ == vectors@.subrange(0, i as int),
        decreases vectors.len() - i,
    {
        copy.push(vectors[i]);
        assert(copy@ =~= vectors@.subrange(0, i + 1));
        i = i + 1;
    }
    assert(vectors@.subrange(0, i as int) =~= vectors@);
    copy
}

impl Klapi {
    /// Tests whether the body is well formed.
    pub fn is_wf(&self) -> (ok: bool)
        ensures
            ok == self@.wf(),
    {
        if !(self.rect.is_wf() && -LIMIT <= self.rect.rotation && self.rect.rotation <= LIMIT && 0
            < self.mass && self.mass <= LIMIT && self.speed.is_in_range() && -LIMIT
            <= self.rotational_speed && self.rotational_speed <= LIMIT && -LIMIT <= self.max_speed
            && self.max_speed <= LIMIT) {
            return false;
        }
        let mut i: usize = 0;
        while i < self.forces.len()
            invariant
                i <= self.forces.len(),
                forall|k: int| 0 <= k < i ==> (#[trigger] self.forces@[k]).in_range(),
            decreases self.forces.len() - i,
        {
            if !self.forces[i].is_in_range() {
                return false;
            }
            i = i + 1;
        }
        true
    }

    /// The saturated sum of the forces.
    pub fn net_force(&self) -> (force: Vector2)
        requires
            all_in_range(self.forces@),
        ensures
            force == self@.net_force(),
    {
        let mut x_force_sum: i128 = 0;
        let mut y_force_sum: i128 = 0;
        let mut i: usize = 0;
        while i < self.forces.len()
            invariant
                i <= self.forces.len(),
                all_in_range(self.forces@),
                x_force_sum == sum_x(self.forces@.subrange(0, i as int)),
                y_force_sum == sum_y(self.forces@.subrange(0, i as int)),
                -(i * LIMIT) <= x_force_sum <= i * LIMIT,
                -(i * LIMIT) <= y_force_sum <= i * LIMIT,
            decreases self.forces.len() - i,
        {
            assert(self.forces@.subrange(0, i + 1).drop_last() =~= self.forces@.subrange(
                0,
                i as int,
            ));
            let f = self.forces[i];
            assert(f.in_range());
            assert(i * LIMIT <= 0xffff_ffff_ffff_ffff * LIMIT) by (nonlinear_arith)
                requires
                    0 <= i <= 0xffff_ffff_ffff_ffff,
            ;
            assert((i + 1) * LIMIT == i * LIMIT + LIMIT) by (nonlinear_arith);
            x_force_sum = x_force_sum + f.x as i128;
            y_force_sum = y_force_sum + f.y as i128;
            i = i + 1;
        }
        assert(self.forces@.subrange(0, i as int) =~= self.forces@);
        Vector2 { x: saturate(x_force_sum), y: saturate(y_force_sum) }
    }

    /// The velocity after `delta`.
    pub fn calculate_new_speed(&self, delta: i64) -> (speed: Vector2)
        requires
            self@.wf(),
        ensures
            speed == self@.new_speed(delta),
            speed.in_range(),
    {
        let force = self.net_force();
        let x_change = fx_mul_div(force.x, delta, self.mass);
        let y_change = fx_mul_div(force.y, delta, self.mass);
        let raised_x = fx_add(self.speed.x, x_change);
        let raised_y = fx_add(self.speed.y, y_change);
        let new_x_speed = if raised_x <= self.max_speed {
            raised_x
        } else {
            self.max_speed
        };
        let new_y_speed = if raised_y <= self.max_speed {
            raised_y
        } else {
            self.max_speed
        };
        Vector2 { x: new_x_speed, y: new_y_speed }
    }

    /// The pose after `delta` at the velocity `speed`.
    pub fn calculate_new_rect(&self, speed: Vector2, delta: i64) -> (rect: Rectangle)
        requires
            self@.wf(),
        ensures
            rect == self@.new_rect(speed, delta),
            rect.wf(),
            in_range(rect.rotation as int),
    {
        let x = fx_add(self.rect.position.x, fx_mul(speed.x, delta));
        let y = fx_add(self.rect.position.y, fx_mul(speed.y, delta));
        let rotation = fx_add(self.rect.rotation, fx_mul(self.rotational_speed, delta));
        Rectangle {
            height: self.rect.height,
            width: self.rect.width,
            rotation,
            position: Vector2 { x, y },
        }
    }
}

impl Klapi {
    /// The body after `count` steps of `delta` each. Where no net force
    /// acts, the velocity lies under its ceiling and the centre stays within
    /// the saturation bounds, the body has moved in a straight line: it has
    /// kept its velocity, and each step has added the same displacement to
    /// its centre.
    pub fn update_times(&self, delta: i64, count: u32) -> (next: Klapi)
        requires
            self@.wf(),
        ensures
            next@ == self@.updated_times(delta, count as nat),
            next@.wf(),
            self@.moves_straight(delta, count as nat) ==> {
                &&& next.speed == self.speed
                &&& next.rect.position.x == self.rect.position.x + count * spec_fx_mul(
                    self.speed.x as int,
                    delta as int,
                )
                &&& next.rect.position.y == self.rect.position.y + count * spec_fx_mul(
                    self.speed.y as int,
                    delta as int,
                )
            },
    {
        let mut current = self.clone();
        let mut done: u32 = 0;
        while done < count
            invariant
                done <= count,
                current@.wf(),
                current@ == self@.updated_times(delta, done as nat),
            decreases count - done,
        {
            current = current.update(delta);
            done = done + 1;
        }
        proof {
            if self@.moves_straight(delta, count as nat) {
                lemma_linear_motion(self@, delta, count as nat);
            }
        }
        current
    }
}

impl Clone for Klapi {
    fn clone(&self) -> (copy: Klapi)
        ensures
            copy@ == self@,
    {
        Klapi {
            rect: self.rect,
            mass: self.mass,
            forces: copy_vectors(&self.forces),
            speed: self.speed,
            rotational_speed: self.rotational_speed,
            max_speed: self.max_speed,
        }
    }
}

impl GameObject<Klapi> for Klapi {
    open spec fn ready(&self) -> bool {
        self@.wf()
    }

    open spec fn advances_to(&self, delta: i64, next: Klapi) -> bool {
        next@ == self@.updated(delta) && next@.wf()
    }

    fn update(&self, delta: i64) -> (next: Klapi) {
        let speed = self.calculate_new_speed(delta);
        let rect = self.calculate_new_rect(speed, delta);
        Klapi {
            rect,
            speed,
            rotational_speed: self.rotational_speed,
            forces: copy_vectors(&self.forces),
            max_speed: self.max_speed,
            mass: self.mass,
        }
    }
}

} // verus!
