//! Static obstacles: pushing a colliding projectile out and bouncing it off.

use vstd::prelude::*;
use crate::fixed::{
    clamp,
    fx_mul,
    fx_mul_div,
    in_range,
    integer_sqrt,
    lemma_product_magnitude,
    magnitude,
    saturate,
    spec_fx_mul,
    spec_fx_mul_div,
    spec_sqrt,
    LIMIT,
    SCALE,
};
use crate::klapi::{copy_vectors, Klapi, KlapiView};
use crate::line::lemma_on_one_line_at_two_shifts;
use crate::polygon::{
    edges_below,
    edges_not_below,
    edges_on_one_line,
    lemma_apart_lists_collide_only_on_one_line,
    some_edges_on_one_line,
};
use crate::aligned::lemma_aligned_is_solid;
use crate::rectangle::{
    lemma_edges_within_reach,
    lemma_large_enough_is_solid,
    lemma_same_shape_is_solid,
    lemma_shifted_edges,
    Rectangle,
};
use crate::trig::{cos, lemma_sin_cos_at_quarter_turns, sin, spec_cos, spec_sin, TRIG_ONE};
use crate::vector::Vector2;

verus! {

/// The step of the push-out: a hundredth of a unit, and the factor that turns
/// a velocity into a step.
pub const RESOLUTION: i64 = 10_000;

/// The largest number of steps the push-out takes before it gives up stepping
/// and moves the projectile clear of the barrier at once.
pub const MAX_PUSH_OUT_STEPS: u32 = 1024;

/// The number of places beside the first that the projectile is tried at
/// when it is moved clear of the barrier at once, each a step of the
/// resolution beside the one before. Two rectangles have sixteen pairs of
/// edges, and each pair shares a carrying line at one place at most, so one
/// of the seventeen places leaves every such line.
pub const ESCAPE_SHIFTS: u32 = 16;

/// The angle at which a projectile leaves a barrier, whatever its approach.
pub const REBOUND_ANGLE: i64 = 0;

/// A static rectangle that deflects the projectile. `bounciness` is the part
/// of the impact speed that the projectile keeps, between zero and one.
#[derive(Clone, Copy, Debug, PartialEq, Eq, Structural)]
pub struct Barrier {
    pub bounciness: i64,
    pub rect: Rectangle,
}

/// The result of pushing a projectile out of a barrier.
#[derive(Clone, Copy, Debug, PartialEq, Eq, Structural)]
pub struct PushOut {
    /// The pose the projectile is left in.
    pub rect: Rectangle,
    /// The number of steps taken.
    pub steps: u32,
    /// Whether the pose is clear of the barrier.
    pub resolved: bool,
}

/// The distance by which one step of the push-out moves a projectile of
/// velocity component `v` back along that axis: `v` times the resolution, but
/// never less than the resolution itself, so that a slow projectile still
/// makes progress.
pub open spec fn step_back(v: int) -> int {
    let scaled = spec_fx_mul(v, RESOLUTION as int);
    if magnitude(scaled) <= RESOLUTION {
        if v >= 0 {
            RESOLUTION as int
        } else {
            -RESOLUTION as int
        }
    } else {
        scaled
    }
}

/// `rect` moved back by `steps` steps against the velocity `speed`.
pub open spec fn displaced(rect: Rectangle, speed: Vector2, steps: int) -> Rectangle {
    Rectangle {
        position: Vector2 {
            x: clamp(rect.position.x - steps * step_back(speed.x as int)) as i64,
            y: clamp(rect.position.y - steps * step_back(speed.y as int)) as i64,
        },
        ..rect
    }
}

/// The speed that the impulse starts from: the square root of the sum of two
/// squares, both of the `x` component of the velocity; the `y` component
/// does not enter.
pub open spec fn impact_speed(speed: Vector2) -> int {
    clamp(spec_sqrt(speed.x * speed.x + speed.x * speed.x))
}

impl Barrier {
    /// The rectangle is well formed and the bounciness lies between zero and
    /// one.
    pub open spec fn wf(self) -> bool {
        self.rect.wf() && 0 <= self.bounciness <= SCALE
    }

    /// The barrier collides with `rect`.
    pub open spec fn blocks(self, rect: Rectangle) -> bool {
        self.rect.spec_collide(rect)
    }

    /// The least number of steps, from `from` on, after which `rect` is clear
    /// of the barrier, or `MAX_PUSH_OUT_STEPS` if it is not clear by then.
    pub open spec fn first_clear(self, rect: Rectangle, speed: Vector2, from: int) -> int
        decreases MAX_PUSH_OUT_STEPS - from,
    {
        if from >= MAX_PUSH_OUT_STEPS || !self.blocks(displaced(rect, speed, from)) {
            from
        } else {
            self.first_clear(rect, speed, from + 1)
        }
    }

    /// Half the sum of all four extents, and a margin for rounding: along
    /// either axis the centres of two rectangles that share a point are less
    /// than this apart.
    pub open spec fn clearance(self, rect: Rectangle) -> int {
        (self.rect.width + self.rect.height + rect.width + rect.height) / 2 + 3
    }

    /// The height at which the projectile is put when it is moved clear of
    /// the barrier at once, before saturation: at the clearance from the
    /// barrier's centre, below the barrier for a projectile that rises, above
    /// it for one that falls.
    pub open spec fn escape_height(self, rect: Rectangle, speed: Vector2) -> int {
        if speed.y >= 0 {
            self.rect.position.y - self.clearance(rect)
        } else {
            self.rect.position.y + self.clearance(rect)
        }
    }

    /// How far along `x` the place number `shift` lies from the place of
    /// `rect`: `shift` steps of the resolution, towards the origin.
    pub open spec fn escape_offset(rect: Rectangle, shift: int) -> int {
        if rect.position.x >= 0 {
            -(shift * RESOLUTION)
        } else {
            shift * RESOLUTION
        }
    }

    /// `rect` at the height `escape_height`, at the place number `shift`
    /// along `x`.
    pub open spec fn escaped_at(self, rect: Rectangle, speed: Vector2, shift: int) -> Rectangle {
        Rectangle {
            position: Vector2 {
                x: (rect.position.x + Self::escape_offset(rect, shift)) as i64,
                y: clamp(self.escape_height(rect, speed)) as i64,
            },
            ..rect
        }
    }

    /// The least place number, from `from` on, at which `rect` is clear of
    /// the barrier, or `ESCAPE_SHIFTS` if it is clear at none before that.
    pub open spec fn first_free(self, rect: Rectangle, speed: Vector2, from: int) -> int
        decreases ESCAPE_SHIFTS - from,
    {
        if from >= ESCAPE_SHIFTS || !self.blocks(self.escaped_at(rect, speed, from)) {
            from
        } else {
            self.first_free(rect, speed, from + 1)
        }
    }

    /// `rect` moved clear of the barrier at once: it is put above or below
    /// the barrier, at the first place along `x` at which it is clear.
    pub open spec fn escaped(self, rect: Rectangle, speed: Vector2) -> Rectangle {
        self.escaped_at(rect, speed, self.first_free(rect, speed, 0))
    }

    /// What makes sure that the push-out ends clear of the barrier: the
    /// escape height lies within the saturation bounds, and one of the two
    /// rectangles has no edge that is a single point. (Two edges that are
    /// single points always count as meeting.)
    pub open spec fn can_clear(self, rect: Rectangle, speed: Vector2) -> bool {
        in_range(self.escape_height(rect, speed)) && (self.rect.is_solid() || rect.is_solid())
    }

    /// One of the two rectangles is at least two millionths wide and high,
    /// or without rotation and neither width nor height zero. Such a
    /// rectangle has no edge that is a single point.
    pub open spec fn has_extent(self, rect: Rectangle) -> bool {
        ||| self.rect.width >= 2 && self.rect.height >= 2
        ||| rect.width >= 2 && rect.height >= 2
        ||| self.rect.rotation == 0 && self.rect.width > 0 && self.rect.height > 0
        ||| rect.rotation == 0 && rect.width > 0 && rect.height > 0
    }

    /// The barrier lets go of every projectile of the given width and
    /// height: the barrier itself has extent, and the escape height lies
    /// within the saturation bounds on either side.
    pub open spec fn lets_go(self, width: int, height: int) -> bool {
        let clearance = (self.rect.width + self.rect.height + width + height) / 2 + 3;
        &&& (self.rect.width >= 2 && self.rect.height >= 2) || (self.rect.rotation == 0
            && self.rect.width > 0 && self.rect.height > 0)
        &&& in_range(self.rect.position.y - clearance)
        &&& in_range(self.rect.position.y + clearance)
    }

    /// The push-out of a projectile with pose `rect` and velocity `speed`:
    /// the projectile steps back until it is clear of the barrier. If it is
    /// still not clear after `MAX_PUSH_OUT_STEPS` steps, it is moved above or
    /// below the barrier, to a place where it shares no carrying line with it.
    #[verifier::opaque]
    pub open spec fn pushed_out(self, rect: Rectangle, speed: Vector2) -> PushOut {
        let steps = self.first_clear(rect, speed, 0);
        let stepped = displaced(rect, speed, steps);
        if !self.blocks(stepped) {
            PushOut { rect: stepped, steps: steps as u32, resolved: true }
        } else {
            let moved = self.escaped(rect, speed);
            PushOut { rect: moved, steps: steps as u32, resolved: !self.blocks(moved) }
        }
    }

    /// The projectile after the collision: pushed out of the barrier, with
    /// the velocity `bounciness * impact_speed` in the direction of
    /// `REBOUND_ANGLE`. Mass, forces, angular velocity and ceiling are kept.
    pub open spec fn rebound(self, klapi: KlapiView) -> KlapiView {
        let kept = spec_fx_mul(self.bounciness as int, impact_speed(klapi.speed));
        KlapiView {
            rect: self.pushed_out(klapi.rect, klapi.speed).rect,
            speed: Vector2 {
                x: spec_fx_mul_div(kept, spec_cos(REBOUND_ANGLE as int), TRIG_ONE as int) as i64,
                y: spec_fx_mul_div(kept, spec_sin(REBOUND_ANGLE as int), TRIG_ONE as int) as i64,
            },
            ..klapi
        }
    }

    /// Tests whether the barrier is well formed.
    pub fn is_wf(&self) -> (ok: bool)
        ensures
            ok == self.wf(),
    {
        self.rect.is_wf() && 0 <= self.bounciness && self.bounciness <= SCALE
    }

    /// Pushes the projectile out of the barrier and gives it the velocity
    /// of the rebound.
    pub fn on_collision(&self, klapi: &Klapi) -> (next: Klapi)
        requires
            self.wf(),
            klapi@.wf(),
        ensures
            next@ == self.rebound(klapi@),
            next@.wf(),
            next.speed.x == spec_fx_mul(self.bounciness as int, impact_speed(klapi.speed)),
            next.speed.y == 0,
    {
        proof {
            lemma_rebound_is_horizontal(*self, klapi@);
        }
        let rect = self.move_klapi_out_of(klapi).rect;
        self.rebound_from(klapi, rect)
    }

    /// The projectile in the pose `rect`, with the velocity of the rebound.
    fn rebound_from(&self, klapi: &Klapi, rect: Rectangle) -> (next: Klapi)
        requires
            self.wf(),
            klapi@.wf(),
            rect.wf(),
            rect.rotation == klapi.rect.rotation,
        ensures
            next@ == (KlapiView { rect, ..self.rebound(klapi@) }),
            next@.wf(),
    {
        proof {
            lemma_product_magnitude(
                klapi.speed.x as int,
                klapi.speed.x as int,
                LIMIT as int,
                LIMIT as int,
            );
            assert(klapi.speed.x * klapi.speed.x >= 0) by (nonlinear_arith);
        }
        let square: i128 = klapi.speed.x as i128 * klapi.speed.x as i128;
        let root: u128 = integer_sqrt((square + square) as u128);
        let velo: i64 = saturate(root as i128);
        let kept = fx_mul(self.bounciness, velo);
        let x_speed = fx_mul_div(kept, cos(REBOUND_ANGLE), TRIG_ONE);
        let y_speed = fx_mul_div(kept, sin(REBOUND_ANGLE), TRIG_ONE);
        Klapi {
            forces: copy_vectors(&klapi.forces),
            rotational_speed: klapi.rotational_speed,
            speed: Vector2 { x: x_speed, y: y_speed },
            rect,
            mass: klapi.mass,
            max_speed: klapi.max_speed,
        }
    }

    /// The distance of one step back along one axis.
    pub fn step_back_of(v: i64) -> (step: i64)
        ensures
            step == step_back(v as int),
            in_range(step as int),
            step != 0,
    {
        let scaled = fx_mul(v, RESOLUTION);
        if -RESOLUTION <= scaled && scaled <= RESOLUTION {
            if v >= 0 {
                RESOLUTION
            } else {
                -RESOLUTION
            }
        } else {
            scaled
        }
    }

    /// The pose of the projectile after `steps` steps back.
    fn displace(klapi: &Klapi, steps: u32) -> (rect: Rectangle)
        requires
            klapi@.wf(),
            steps <= MAX_PUSH_OUT_STEPS,
        ensures
            rect == displaced(klapi.rect, klapi.speed, steps as int),
            rect.wf(),
    {
        let x_delta = Self::step_back_of(klapi.speed.x);
        let y_delta = Self::step_back_of(klapi.speed.y);
        proof {
            lemma_product_magnitude(
                steps as int,
                x_delta as int,
                MAX_PUSH_OUT_STEPS as int,
                LIMIT as int,
            );
            lemma_product_magnitude(
                steps as int,
                y_delta as int,
                MAX_PUSH_OUT_STEPS as int,
                LIMIT as int,
            );
        }
        let x = saturate(klapi.rect.position.x as i128 - steps as i128 * x_delta as i128);
        let y = saturate(klapi.rect.position.y as i128 - steps as i128 * y_delta as i128);
        Rectangle {
            position: Vector2 { x, y },
            width: klapi.rect.width,
            height: klapi.rect.height,
            rotation: klapi.rect.rotation,
        }
    }

    /// The pose of the projectile at the escape height, at the place number
    /// `shift`.
    fn escape_to(&self, klapi: &Klapi, shift: u32) -> (rect: Rectangle)
        requires
            self.wf(),
            klapi@.wf(),
            shift <= ESCAPE_SHIFTS,
        ensures
            rect == self.escaped_at(klapi.rect, klapi.speed, shift as int),
            rect.wf(),
    {
        let reach: i128 = (self.rect.width as i128 + self.rect.height as i128
            + klapi.rect.width as i128 + klapi.rect.height as i128) / 2 + 3;
        let y = if klapi.speed.y >= 0 {
            saturate(self.rect.position.y as i128 - reach)
        } else {
            saturate(self.rect.position.y as i128 + reach)
        };
        let offset: i64 = shift as i64 * RESOLUTION;
        let x = if klapi.rect.position.x >= 0 {
            klapi.rect.position.x - offset
        } else {
            klapi.rect.position.x + offset
        };
        Rectangle {
            position: Vector2 { x, y },
            width: klapi.rect.width,
            height: klapi.rect.height,
            rotation: klapi.rect.rotation,
        }
    }

    /// The pose of the projectile moved clear of the barrier.
    fn escape(&self, klapi: &Klapi) -> (rect: Rectangle)
        requires
            self.wf(),
            klapi@.wf(),
        ensures
            rect == self.escaped(klapi.rect, klapi.speed),
            rect.wf(),
    {
        let mut shift: u32 = 0;
        let mut rect = self.escape_to(klapi, 0);
        let mut blocked: bool = self.rect.collide(&rect);
        while blocked && shift < ESCAPE_SHIFTS
            invariant
                self.wf(),
                klapi@.wf(),
                shift <= ESCAPE_SHIFTS,
                rect == self.escaped_at(klapi.rect, klapi.speed, shift as int),
                rect.wf(),
                blocked == self.blocks(rect),
                self.first_free(klapi.rect, klapi.speed, 0) == self.first_free(
                    klapi.rect,
                    klapi.speed,
                    shift as int,
                ),
            decreases ESCAPE_SHIFTS - shift,
        {
            shift = shift + 1;
            rect = self.escape_to(klapi, shift);
            blocked = self.rect.collide(&rect);
        }
        rect
    }

    /// Moves the projectile back step by step until it is clear of the
    /// barrier, and above or below the barrier if the steps run out.
    pub fn move_klapi_out_of(&self, klapi: &Klapi) -> (out: PushOut)
        requires
            self.wf(),
            klapi@.wf(),
        ensures
            out == self.pushed_out(klapi.rect, klapi.speed),
            out.steps <= MAX_PUSH_OUT_STEPS,
            out.resolved == !self.blocks(out.rect),
            self.can_clear(klapi.rect, klapi.speed) ==> out.resolved,
            self.has_extent(klapi.rect) && in_range(self.escape_height(klapi.rect, klapi.speed))
                ==> out.resolved,
            out.rect.wf(),
            out.rect.rotation == klapi.rect.rotation,
    {
        proof {
            reveal(Barrier::pushed_out);
            if self.has_extent(klapi.rect) {
                lemma_extent_is_solid(*self, klapi.rect);
            }
            if self.can_clear(klapi.rect, klapi.speed) {
                lemma_escape_clears(*self, klapi.rect, klapi.speed);
            }
        }
        let mut steps: u32 = 0;
        let mut rect = Self::displace(klapi, 0);
        let mut blocked: bool = self.rect.collide(&rect);
        while blocked && steps < MAX_PUSH_OUT_STEPS
            invariant
                self.wf(),
                klapi@.wf(),
                steps <= MAX_PUSH_OUT_STEPS,
                rect == displaced(klapi.rect, klapi.speed, steps as int),
                rect.wf(),
                blocked == self.blocks(rect),
                self.first_clear(klapi.rect, klapi.speed, 0) == self.first_clear(
                    klapi.rect,
                    klapi.speed,
                    steps as int,
                ),
            decreases MAX_PUSH_OUT_STEPS - steps,
        {
            steps = steps + 1;
            rect = Self::displace(klapi, steps);
            blocked = self.rect.collide(&rect);
        }
        if !blocked {
            return PushOut { rect, steps, resolved: true };
        }
        let moved = self.escape(klapi);
        let resolved = !self.rect.collide(&moved);
        PushOut { rect: moved, steps, resolved }
    }
}

/// The push-out takes at most `MAX_PUSH_OUT_STEPS` steps, every pose before
/// the last step collides with the barrier, and it reports the projectile as
/// resolved exactly when the pose it leaves is clear of the barrier.
pub proof fn lemma_push_out_bounded(barrier: Barrier, rect: Rectangle, speed: Vector2)
    ensures
        0 <= barrier.first_clear(rect, speed, 0) <= MAX_PUSH_OUT_STEPS,
        barrier.pushed_out(rect, speed).steps == barrier.first_clear(rect, speed, 0),
        barrier.pushed_out(rect, speed).resolved == !barrier.blocks(
            barrier.pushed_out(rect, speed).rect,
        ),
        forall|k: int|
            0 <= k < barrier.pushed_out(rect, speed).steps ==> barrier.blocks(
                #[trigger] displaced(rect, speed, k),
            ),
{
    reveal(Barrier::pushed_out);
    lemma_first_clear(barrier, rect, speed, 0);
}

/// Where some number of steps within the bound clears the projectile of the
/// barrier, the push-out ends after the least such number of steps, and
/// leaves the projectile at the pose of that step, clear of the barrier.
pub proof fn lemma_push_out_clears(barrier: Barrier, rect: Rectangle, speed: Vector2, clear: int)
    requires
        0 <= clear <= MAX_PUSH_OUT_STEPS,
        !barrier.blocks(displaced(rect, speed, clear)),
    ensures
        barrier.pushed_out(rect, speed).resolved,
        !barrier.blocks(barrier.pushed_out(rect, speed).rect),
        barrier.pushed_out(rect, speed).steps <= clear,
        barrier.pushed_out(rect, speed).rect == displaced(
            rect,
            speed,
            barrier.pushed_out(rect, speed).steps as int,
        ),
        forall|k: int|
            0 <= k < barrier.pushed_out(rect, speed).steps ==> barrier.blocks(
                #[trigger] displaced(rect, speed, k),
            ),
{
    reveal(Barrier::pushed_out);
    lemma_first_clear(barrier, rect, speed, 0);
}

/// `first_clear` from `from` on lies between `from` and the bound, every pose
/// from `from` up to it collides, and if it lies under the bound its own pose
/// is clear.
proof fn lemma_first_clear(barrier: Barrier, rect: Rectangle, speed: Vector2, from: int)
    requires
        0 <= from <= MAX_PUSH_OUT_STEPS,
    ensures
        from <= barrier.first_clear(rect, speed, from) <= MAX_PUSH_OUT_STEPS,
        forall|k: int|
            from <= k < barrier.first_clear(rect, speed, from) ==> barrier.blocks(
                #[trigger] displaced(rect, speed, k),
            ),
        barrier.first_clear(rect, speed, from) < MAX_PUSH_OUT_STEPS ==> !barrier.blocks(
            displaced(rect, speed, barrier.first_clear(rect, speed, from)),
        ),
    decreases MAX_PUSH_OUT_STEPS - from,
{
    if from < MAX_PUSH_OUT_STEPS && barrier.blocks(displaced(rect, speed, from)) {
        lemma_first_clear(barrier, rect, speed, from + 1);
    }
}

/// `first_free` from `from` on lies between `from` and the last place, and
/// the projectile collides with the barrier at every place from `from` up to
/// it.
proof fn lemma_first_free(barrier: Barrier, rect: Rectangle, speed: Vector2, from: int)
    requires
        0 <= from <= ESCAPE_SHIFTS,
    ensures
        from <= barrier.first_free(rect, speed, from) <= ESCAPE_SHIFTS,
        forall|k: int|
            from <= k < barrier.first_free(rect, speed, from) ==> barrier.blocks(
                #[trigger] barrier.escaped_at(rect, speed, k),
            ),
        barrier.first_free(rect, speed, from) < ESCAPE_SHIFTS ==> !barrier.blocks(
            barrier.escaped_at(rect, speed, barrier.first_free(rect, speed, from)),
        ),
    decreases ESCAPE_SHIFTS - from,
{
    if from < ESCAPE_SHIFTS && barrier.blocks(barrier.escaped_at(rect, speed, from)) {
        lemma_first_free(barrier, rect, speed, from + 1);
    }
}

/// At the escape height the projectile lies wholly above or below the
/// barrier: no edge of the one starts at the height at which an edge of the
/// other starts, and the two collide only where an edge of the one is in the
/// case `on_one_line` with an edge of the other.
proof fn lemma_escape_apart(barrier: Barrier, rect: Rectangle, speed: Vector2, shift: int)
    requires
        barrier.wf(),
        rect.wf(),
        in_range(barrier.escape_height(rect, speed)),
        0 <= shift <= ESCAPE_SHIFTS,
    ensures
        barrier.escaped_at(rect, speed, shift).wf(),
        barrier.escaped_at(rect, speed, shift).position.x == rect.position.x
            + Barrier::escape_offset(rect, shift),
        barrier.blocks(barrier.escaped_at(rect, speed, shift)) ==> some_edges_on_one_line(
            barrier.rect.spec_to_poly(),
            barrier.escaped_at(rect, speed, shift).spec_to_poly(),
        ),
        forall|i: int, j: int|
            0 <= i < 4 && 0 <= j < 4 ==> (#[trigger] barrier.rect.spec_to_poly()[i]).start.y != (
            #[trigger] barrier.escaped_at(rect, speed, shift).spec_to_poly()[j]).start.y,
{
    reveal(Rectangle::spec_collide);
    let moved = barrier.escaped_at(rect, speed, shift);
    assert(-16 * RESOLUTION <= Barrier::escape_offset(rect, shift) <= 16 * RESOLUTION)
        by (nonlinear_arith)
        requires
            0 <= shift <= 16,
            Barrier::escape_offset(rect, shift) == shift * RESOLUTION || Barrier::escape_offset(
                rect,
                shift,
            ) == -(shift * RESOLUTION),
    ;
    assert(rect.position.x >= 0 ==> Barrier::escape_offset(rect, shift) <= 0) by (nonlinear_arith)
        requires
            0 <= shift,
            rect.position.x >= 0 ==> Barrier::escape_offset(rect, shift) == -(shift * RESOLUTION),
    ;
    assert(rect.position.x < 0 ==> Barrier::escape_offset(rect, shift) >= 0) by (nonlinear_arith)
        requires
            0 <= shift,
            rect.position.x < 0 ==> Barrier::escape_offset(rect, shift) == shift * RESOLUTION,
    ;
    lemma_edges_within_reach(barrier.rect);
    lemma_edges_within_reach(moved);
    let pb = barrier.rect.spec_to_poly();
    let pm = moved.spec_to_poly();
    assert(moved.reach() == rect.reach());
    assert(barrier.clearance(rect) >= barrier.rect.reach() + rect.reach() + 1);
    if speed.y >= 0 {
        let level = barrier.rect.position.y - barrier.rect.reach();
        assert(edges_below(pm, level));
        assert(edges_not_below(pb, level));
        lemma_apart_lists_collide_only_on_one_line(pb, pm, level);
        assert forall|i: int, j: int| 0 <= i < 4 && 0 <= j < 4 implies (#[trigger] pb[i]).start.y
            != (#[trigger] pm[j]).start.y by {
            assert(pm[j].below(level) && pb[i].not_below(level));
        }
    } else {
        let level = barrier.rect.position.y + barrier.rect.reach() + 1;
        assert(edges_below(pb, level));
        assert(edges_not_below(pm, level));
        lemma_apart_lists_collide_only_on_one_line(pb, pm, level);
        assert forall|i: int, j: int| 0 <= i < 4 && 0 <= j < 4 implies (#[trigger] pb[i]).start.y
            != (#[trigger] pm[j]).start.y by {
            assert(pb[i].below(level) && pm[j].not_below(level));
        }
    }
}

/// More values than there are numbers to take them from hold some number
/// twice.
proof fn lemma_pigeonhole(values: Seq<int>, count: int)
    requires
        values.len() > count >= 0,
        forall|k: int| 0 <= k < values.len() ==> 0 <= #[trigger] values[k] < count,
    ensures
        exists|i: int, j: int| 0 <= i < j < values.len() && #[trigger] values[i] == #[trigger] values[j],
    decreases count,
{
    let last = values.len() - 1;
    let held = values[last];
    if count == 0 {
        assert(0 <= values[0] < count);
    } else if exists|i: int| 0 <= i < last && #[trigger] values[i] == held {
        let i = choose|i: int| 0 <= i < last && #[trigger] values[i] == held;
        assert(values[i] == values[last]);
    } else {
        // No other value is `held`: the values before the last fit the
        // numbers below `count - 1` once `held` takes the place of
        // `count - 1`.
        let rest = Seq::new(
            last as nat,
            |k: int|
                if values[k] == count - 1 {
                    held
                } else {
                    values[k]
                },
        );
        assert forall|k: int| 0 <= k < rest.len() implies 0 <= #[trigger] rest[k] < count - 1 by {
            assert(0 <= values[k] < count);
            assert(values[k] != held);
        }
        lemma_pigeonhole(rest, count - 1);
        let (i, j) = choose|i: int, j: int|
            0 <= i < j < rest.len() && #[trigger] rest[i] == #[trigger] rest[j];
        assert(values[i] != held && values[j] != held);
        assert(values[i] == values[j]);
    }
}

/// The pose that `escaped` gives is clear of the barrier, where the escape
/// height lies within the saturation bounds and one of the two rectangles has
/// no edge that is a single point.
pub proof fn lemma_escape_clears(barrier: Barrier, rect: Rectangle, speed: Vector2)
    requires
        barrier.wf(),
        rect.wf(),
        barrier.can_clear(rect, speed),
    ensures
        !barrier.blocks(barrier.escaped(rect, speed)),
{
    lemma_first_free(barrier, rect, speed, 0);
    let found = barrier.first_free(rect, speed, 0);
    if barrier.blocks(barrier.escaped_at(rect, speed, found)) {
        // The projectile collides at every one of the seventeen places, so
        // at each an edge of the barrier and an edge of the projectile are
        // on one line. Two places have the same pair of edges.
        assert(found == ESCAPE_SHIFTS);
        assert forall|k: int| 0 <= k <= ESCAPE_SHIFTS implies barrier.blocks(
            #[trigger] barrier.escaped_at(rect, speed, k),
        ) by {}
        let pb = barrier.rect.spec_to_poly();
        let pairs = Seq::new(
            17,
            |k: int|
                {
                    let pair = edges_on_one_line(pb, barrier.escaped_at(rect, speed, k).spec_to_poly());
                    4 * pair.0 + pair.1
                },
        );
        assert forall|k: int| 0 <= k < pairs.len() implies 0 <= #[trigger] pairs[k] < 16 by {
            lemma_escape_pair(barrier, rect, speed, k);
        }
        lemma_pigeonhole(pairs, 16);
        let (k1, k2) = choose|k1: int, k2: int|
            0 <= k1 < k2 < pairs.len() && #[trigger] pairs[k1] == #[trigger] pairs[k2];
        lemma_escape_pair(barrier, rect, speed, k1);
        lemma_escape_pair(barrier, rect, speed, k2);
        let first = barrier.escaped_at(rect, speed, k1);
        let second = barrier.escaped_at(rect, speed, k2);
        let pair = edges_on_one_line(pb, first.spec_to_poly());
        assert(pair == edges_on_one_line(pb, second.spec_to_poly()));
        let a = pb[pair.0];
        let b = first.spec_to_poly()[pair.1];
        let moved = second.spec_to_poly()[pair.1];
        let shift = Barrier::escape_offset(rect, k2) - Barrier::escape_offset(rect, k1);
        assert(shift != 0) by (nonlinear_arith)
            requires
                k1 < k2,
                shift == k2 * RESOLUTION - k1 * RESOLUTION || shift == -(k2 * RESOLUTION) + k1
                    * RESOLUTION,
        ;
        assert(second == first.shifted(shift));
        lemma_shifted_edges(first, shift);
        lemma_on_one_line_at_two_shifts(a, b, moved, shift);
        lemma_same_shape_is_solid(rect, first);
    }
}

/// At a place where the projectile collides with the barrier at the escape
/// height, `edges_on_one_line` names a pair of edges that are on one line.
proof fn lemma_escape_pair(barrier: Barrier, rect: Rectangle, speed: Vector2, shift: int)
    requires
        barrier.wf(),
        rect.wf(),
        in_range(barrier.escape_height(rect, speed)),
        0 <= shift <= ESCAPE_SHIFTS,
        barrier.blocks(barrier.escaped_at(rect, speed, shift)),
    ensures
        ({
            let pb = barrier.rect.spec_to_poly();
            let pm = barrier.escaped_at(rect, speed, shift).spec_to_poly();
            let pair = edges_on_one_line(pb, pm);
            &&& 0 <= pair.0 < 4
            &&& 0 <= pair.1 < 4
            &&& pb[pair.0].on_one_line(pm[pair.1])
            &&& pb[pair.0].start.y != pm[pair.1].start.y
            &&& barrier.escaped_at(rect, speed, shift).wf()
            &&& barrier.escaped_at(rect, speed, shift).position.x == rect.position.x
                + Barrier::escape_offset(rect, shift)
        }),
{
    lemma_escape_apart(barrier, rect, speed, shift);
}

/// Of a barrier and a projectile of which one has extent, one has no edge
/// that is a single point.
pub proof fn lemma_extent_is_solid(barrier: Barrier, rect: Rectangle)
    requires
        barrier.wf(),
        rect.wf(),
        barrier.has_extent(rect),
    ensures
        barrier.rect.is_solid() || rect.is_solid(),
{
    if barrier.rect.width >= 2 && barrier.rect.height >= 2 {
        lemma_large_enough_is_solid(barrier.rect);
    } else if rect.width >= 2 && rect.height >= 2 {
        lemma_large_enough_is_solid(rect);
    } else if barrier.rect.rotation == 0 && barrier.rect.width > 0 && barrier.rect.height > 0 {
        lemma_aligned_is_solid(barrier.rect);
    } else {
        lemma_aligned_is_solid(rect);
    }
}

/// The push-out leaves the projectile clear of the barrier and reports it as
/// resolved, where the escape height lies within the saturation bounds and
/// one of the two rectangles has extent.
pub proof fn lemma_push_out_resolves(barrier: Barrier, rect: Rectangle, speed: Vector2)
    requires
        barrier.wf(),
        rect.wf(),
        in_range(barrier.escape_height(rect, speed)),
        barrier.has_extent(rect),
    ensures
        barrier.pushed_out(rect, speed).resolved,
        !barrier.blocks(barrier.pushed_out(rect, speed).rect),
{
    reveal(Barrier::pushed_out);
    lemma_extent_is_solid(barrier, rect);
    lemma_escape_clears(barrier, rect, speed);
}

/// A rebound leaves the projectile with a velocity along `x` alone: the part
/// of the impact speed that the barrier's bounciness keeps.
pub proof fn lemma_rebound_is_horizontal(barrier: Barrier, klapi: KlapiView)
    requires
        barrier.wf(),
    ensures
        barrier.rebound(klapi).speed.x == spec_fx_mul(
            barrier.bounciness as int,
            impact_speed(klapi.speed),
        ),
        barrier.rebound(klapi).speed.y == 0,
{
    let kept = spec_fx_mul(barrier.bounciness as int, impact_speed(klapi.speed));
    lemma_sin_cos_at_quarter_turns(REBOUND_ANGLE as int);
    crate::fixed::lemma_round_div_exact(kept, TRIG_ONE as int);
    assert(kept * 0 == 0);
    crate::fixed::lemma_round_div_exact(0, TRIG_ONE as int);
    assert(0 * (TRIG_ONE as int) == 0);
}

/// The obstacle course around the goal: barriers, and the rectangle that a
/// projectile must reach.
#[derive(Debug)]
pub struct Kiuas {
    pub barriers: Vec<Barrier>,
    pub goal: Rectangle,
}

/// The mathematical content of a `Kiuas`.
pub ghost struct KiuasView {
    pub barriers: Seq<Barrier>,
    pub goal: Rectangle,
}

impl View for Kiuas {
    type V = KiuasView;

    open spec fn view(&self) -> KiuasView {
        KiuasView { barriers: self.barriers@, goal: self.goal }
    }
}

/// Every barrier is well formed.
pub open spec fn all_barriers_wf(barriers: Seq<Barrier>) -> bool {
    forall|i: int| 0 <= i < barriers.len() ==> (#[trigger] barriers[i]).wf()
}

impl KiuasView {
    /// The goal and every barrier are well formed.
    pub open spec fn wf(self) -> bool {
        self.goal.wf() && all_barriers_wf(self.barriers)
    }
}

/// The projectile after it has met the barriers in their order: each barrier
/// that collides with the projectile as the ones before have left it
/// rebounds it.
pub open spec fn settled(klapi: KlapiView, barriers: Seq<Barrier>) -> KlapiView
    decreases barriers.len(),
{
    if barriers.len() == 0 {
        klapi
    } else {
        let before = settled(klapi, barriers.drop_last());
        if barriers.last().blocks(before.rect) {
            barriers.last().rebound(before)
        } else {
            before
        }
    }
}

/// The number of barriers, met in their order, that still collide with the
/// projectile after their push-out.
pub open spec fn unresolved(klapi: KlapiView, barriers: Seq<Barrier>) -> nat
    decreases barriers.len(),
{
    if barriers.len() == 0 {
        0
    } else {
        let before = settled(klapi, barriers.drop_last());
        let stuck = barriers.last().blocks(before.rect) && !barriers.last().pushed_out(
            before.rect,
            before.speed,
        ).resolved;
        unresolved(klapi, barriers.drop_last()) + if stuck {
            1nat
        } else {
            0nat
        }
    }
}

/// Every barrier lets go of every projectile of the given width and height.
pub open spec fn all_let_go(barriers: Seq<Barrier>, width: int, height: int) -> bool {
    forall|i: int| 0 <= i < barriers.len() ==> (#[trigger] barriers[i]).lets_go(width, height)
}

/// The push-out leaves a well-formed pose of the same width, height and
/// rotation.
pub proof fn lemma_push_out_keeps_shape(barrier: Barrier, rect: Rectangle, speed: Vector2)
    requires
        rect.wf(),
    ensures
        barrier.pushed_out(rect, speed).rect.wf(),
        barrier.pushed_out(rect, speed).rect.width == rect.width,
        barrier.pushed_out(rect, speed).rect.height == rect.height,
        barrier.pushed_out(rect, speed).rect.rotation == rect.rotation,
{
    reveal(Barrier::pushed_out);
    lemma_first_free(barrier, rect, speed, 0);
    let shift = barrier.first_free(rect, speed, 0);
    assert(0 <= shift * RESOLUTION <= 16 * RESOLUTION) by (nonlinear_arith)
        requires
            0 <= shift <= 16,
    ;
}

/// Barriers that all let go of the projectile leave none unresolved: the
/// projectile comes clear of each barrier that it meets.
pub proof fn lemma_settling_resolves(klapi: KlapiView, barriers: Seq<Barrier>)
    requires
        klapi.rect.wf(),
        all_barriers_wf(barriers),
        all_let_go(barriers, klapi.rect.width as int, klapi.rect.height as int),
    ensures
        unresolved(klapi, barriers) == 0,
        settled(klapi, barriers).rect.wf(),
        settled(klapi, barriers).rect.width == klapi.rect.width,
        settled(klapi, barriers).rect.height == klapi.rect.height,
    decreases barriers.len(),
{
    if barriers.len() > 0 {
        let rest = barriers.drop_last();
        let last = barriers.last();
        assert forall|i: int| 0 <= i < rest.len() implies (#[trigger] rest[i]).wf() && rest[i].lets_go(
            klapi.rect.width as int,
            klapi.rect.height as int,
        ) by {
            assert(rest[i] == barriers[i]);
        }
        lemma_settling_resolves(klapi, rest);
        let before = settled(klapi, rest);
        assert(last == barriers[barriers.len() - 1]);
        assert(last.wf() && last.lets_go(klapi.rect.width as int, klapi.rect.height as int));
        lemma_push_out_keeps_shape(last, before.rect, before.speed);
        if last.blocks(before.rect) {
            lemma_push_out_resolves(last, before.rect, before.speed);
        }
    }
}

/// Tests whether every barrier is well formed.
pub fn barriers_are_wf(barriers: &Vec<Barrier>) -> (ok: bool)
    ensures
        ok == all_barriers_wf(barriers@),
{
    let mut i: usize = 0;
    while i < barriers.len()
        invariant
            i <= barriers.len(),
            forall|k: int| 0 <= k < i ==> (#[trigger] barriers@[k]).wf(),
        decreases barriers.len() - i,
    {
        if !barriers[i].is_wf() {
            return false;
        }
        i = i + 1;
    }
    true
}

/// A copy of a list of barriers.
pub fn copy_barriers(barriers: &Vec<Barrier>) -> (copy: Vec<Barrier>)
    ensures
        copy@ == barriers@,
{
    let mut copy: Vec<Barrier> = Vec::new();
    let mut i: usize = 0;
    while i < barriers.len()
        invariant
            i <= barriers.len(),
            copy@ == barriers@.subrange(0, i as int),
        decreases barriers.len() - i,
    {
        copy.push(barriers[i]);
        assert(copy@ =~= barriers@.subrange(0, i + 1));
        i = i + 1;
    }
    assert(barriers@.subrange(0, i as int) =~= barriers@);
    copy
}

/// Lets the projectile meet the barriers in their order. Returns the
/// projectile as the barriers leave it, and the number of barriers that it
/// could not be pushed out of.
pub fn settle(klapi: Klapi, barriers: &Vec<Barrier>) -> (next: (Klapi, usize))
    requires
        klapi@.wf(),
        all_barriers_wf(barriers@),
    ensures
        next.0@ == settled(klapi@, barriers@),
        next.1 == unresolved(klapi@, barriers@),
        next.0@.wf(),
        all_let_go(barriers@, klapi.rect.width as int, klapi.rect.height as int) ==> next.1 == 0,
{
    proof {
        if all_let_go(barriers@, klapi.rect.width as int, klapi.rect.height as int) {
            lemma_settling_resolves(klapi@, barriers@);
        }
    }
    let mut current = klapi;
    let mut failures: usize = 0;
    let mut i: usize = 0;
    while i < barriers.len()
        invariant
            i <= barriers.len(),
            all_barriers_wf(barriers@),
            current@.wf(),
            current@ == settled(klapi@, barriers@.subrange(0, i as int)),
            failures == unresolved(klapi@, barriers@.subrange(0, i as int)),
            failures <= i,
        decreases barriers.len() - i,
    {
        assert(barriers@.subrange(0, i + 1).drop_last() =~= barriers@.subrange(0, i as int));
        let barrier = barriers[i];
        assert(barrier.wf());
        if barrier.rect.collide(&current.rect) {
            let out = barrier.move_klapi_out_of(&current);
            if !out.resolved {
                failures = failures + 1;
            }
            current = barrier.rebound_from(&current, out.rect);
        }
        i = i + 1;
    }
    assert(barriers@.subrange(0, i as int) =~= barriers@);
    (current, failures)
}

impl Kiuas {
    /// Tests whether the goal and every barrier are well formed.
    pub fn is_wf(&self) -> (ok: bool)
        ensures
            ok == self@.wf(),
    {
        self.goal.is_wf() && barriers_are_wf(&self.barriers)
    }

}

impl Clone for Kiuas {
    fn clone(&self) -> (copy: Kiuas)
        ensures
            copy@ == self@,
    {
        Kiuas { barriers: copy_barriers(&self.barriers), goal: self.goal }
    }
}

} // verus!
