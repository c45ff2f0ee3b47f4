//! The phases of a round and the step that leads from one to the next.

use vstd::prelude::*;
use crate::arm::{new_arm, spec_new_arm, Arm};
use crate::barrier::{
    all_barriers_wf,
    all_let_go,
    lemma_settling_resolves,
    copy_barriers,
    settle,
    settled,
    unresolved,
    Barrier,
    Kiuas,
    KiuasView,
};
use crate::game_object::GameObject;
use crate::klapi::{Klapi, KlapiView};
use crate::rectangle::Rectangle;
use crate::vector::Vector2;

verus! {

/// The angular speed at which the lever winds back while it charges.
pub const CHARGING_SPEED: i64 = -60_000_000;

/// The angular acceleration of the lever while it launches.
pub const LAUNCH_ACCELERATION: i64 = 720_000_000;

/// The points that a projectile in the goal is worth.
pub const GOAL_POINTS: u32 = 10;

/// The place of the lever of a new game, along `x`.
pub const ARM_START_X: i64 = -1_900_000;

/// The place of the lever of a new game, along `y`.
pub const ARM_START_Y: i64 = -450_000;

/// The height of the centre of the small barrier below the goal.
pub const LOWER_BARRIER_Y: i64 = -900_000;

/// The height of the centre of the goal.
pub const GOAL_Y: i64 = -600_000;

/// The height of the centre of the ground.
pub const GROUND_Y: i64 = -1_400_000;

/// Where the lever of a new game stands.
pub open spec fn spec_arm_start() -> Vector2 {
    Vector2 { x: ARM_START_X, y: ARM_START_Y }
}

/// The course that every launch faces: the goal, a large barrier above it and
/// a small one below.
pub open spec fn spec_course() -> KiuasView {
    KiuasView {
        barriers: seq![
            Barrier {
                bounciness: 800_000,
                rect: Rectangle {
                    position: Vector2 { x: 3_300_000, y: 0 },
                    width: 1_000_000,
                    height: 800_000,
                    rotation: 0,
                },
            },
            Barrier {
                bounciness: 200_000,
                rect: Rectangle {
                    position: Vector2 { x: 3_050_000, y: LOWER_BARRIER_Y },
                    width: 400_000,
                    height: 200_000,
                    rotation: 0,
                },
            },
        ],
        goal: Rectangle {
            position: Vector2 { x: 3_100_000, y: GOAL_Y },
            width: 300_000,
            height: 300_000,
            rotation: 0,
        },
    }
}

/// The barriers besides those of the course: the ground.
pub open spec fn spec_ground() -> Seq<Barrier> {
    seq![
        Barrier {
            bounciness: 500_000,
            rect: Rectangle {
                position: Vector2 { x: 0, y: GROUND_Y },
                width: 20_000_000,
                height: 200_000,
                rotation: 0,
            },
        },
    ]
}

/// Where the lever of a new game stands.
pub fn arm_start() -> (start: Vector2)
    ensures
        start == spec_arm_start(),
{
    Vector2 { x: ARM_START_X, y: ARM_START_Y }
}

/// The course that every launch faces.
pub fn course() -> (kiuas: Kiuas)
    ensures
        kiuas@ == spec_course(),
        kiuas@.wf(),
{
    let mut barriers: Vec<Barrier> = Vec::new();
    barriers.push(
        Barrier {
            bounciness: 800_000,
            rect: Rectangle {
                position: Vector2 { x: 3_300_000, y: 0 },
                width: 1_000_000,
                height: 800_000,
                rotation: 0,
            },
        },
    );
    barriers.push(
        Barrier {
            bounciness: 200_000,
            rect: Rectangle {
                position: Vector2 { x: 3_050_000, y: LOWER_BARRIER_Y },
                width: 400_000,
                height: 200_000,
                rotation: 0,
            },
        },
    );
    let kiuas = Kiuas {
        barriers,
        goal: Rectangle {
            position: Vector2 { x: 3_100_000, y: GOAL_Y },
            width: 300_000,
            height: 300_000,
            rotation: 0,
        },
    };
    assert(kiuas@.barriers =~= spec_course().barriers);
    kiuas
}

/// The barriers besides those of the course.
pub fn ground() -> (barriers: Vec<Barrier>)
    ensures
        barriers@ == spec_ground(),
        all_barriers_wf(barriers@),
{
    let mut barriers: Vec<Barrier> = Vec::new();
    barriers.push(
        Barrier {
            bounciness: 500_000,
            rect: Rectangle {
                position: Vector2 { x: 0, y: GROUND_Y },
                width: 20_000_000,
                height: 200_000,
                rotation: 0,
            },
        },
    );
    assert(barriers@ =~= spec_ground());
    barriers
}

/// What a step reports besides the state it leaves.
#[derive(Clone, Copy, Debug, PartialEq, Eq, Structural)]
pub struct StepReport {
    /// The projectile reached the goal, and points were given for it.
    pub goal: bool,
    /// The number of barriers that the projectile was pushed out of without
    /// coming clear of them.
    pub unresolved: usize,
}

/// The phase of a round, with what that phase works on. `Start` aims,
/// `Charging` winds the lever back, `Launching` swings it forward, and
/// `Launched` follows the projectile past the course and the other barriers.
#[derive(Debug)]
pub enum GamePhase {
    Start(Arm),
    Charging(Arm),
    Launching(Arm),
    Launched(Arm, Klapi, Kiuas, Vec<Barrier>),
}

/// The mathematical content of a `GamePhase`.
pub ghost enum GamePhaseView {
    Start(Arm),
    Charging(Arm),
    Launching(Arm),
    Launched(Arm, KlapiView, KiuasView, Seq<Barrier>),
}

impl View for GamePhase {
    type V = GamePhaseView;

    open spec fn view(&self) -> GamePhaseView {
        match self {
            GamePhase::Start(arm) => GamePhaseView::Start(*arm),
            GamePhase::Charging(arm) => GamePhaseView::Charging(*arm),
            GamePhase::Launching(arm) => GamePhaseView::Launching(*arm),
            GamePhase::Launched(arm, klapi, kiuas, barriers) => GamePhaseView::Launched(
                *arm,
                klapi@,
                kiuas@,
                barriers@,
            ),
        }
    }
}

impl GamePhaseView {
    /// The lever of the phase.
    pub open spec fn arm(self) -> Arm {
        match self {
            GamePhaseView::Start(arm) => arm,
            GamePhaseView::Charging(arm) => arm,
            GamePhaseView::Launching(arm) => arm,
            GamePhaseView::Launched(arm, _, _, _) => arm,
        }
    }

    /// The angle of the lever lies within the lever's range.
    pub open spec fn angle_in_range(self) -> bool {
        self.arm().min_angle <= self.arm().angle <= self.arm().max_angle
    }

    /// Everything the phase works on is well formed.
    pub open spec fn wf(self) -> bool {
        match self {
            GamePhaseView::Launched(arm, klapi, kiuas, barriers) => {
                &&& arm.wf()
                &&& klapi.wf()
                &&& kiuas.wf()
                &&& all_barriers_wf(barriers)
            },
            _ => self.arm().wf(),
        }
    }

    /// The step scores: a projectile is in flight, the round is not reset,
    /// and the projectile collides with the goal.
    pub open spec fn reaches_goal(self, reset_pressed: bool) -> bool {
        match self {
            GamePhaseView::Launched(_, klapi, kiuas, _) => !reset_pressed
                && klapi.rect.spec_collide(kiuas.goal),
            _ => false,
        }
    }

    /// Every barrier of a flight lets go of its projectile. Outside a flight
    /// there is nothing to let go of.
    pub open spec fn lets_go(self) -> bool {
        match self {
            GamePhaseView::Launched(_, klapi, kiuas, barriers) => all_let_go(
                barriers + kiuas.barriers,
                klapi.rect.width as int,
                klapi.rect.height as int,
            ),
            _ => true,
        }
    }

    /// The number of barriers that the projectile of this step does not
    /// come clear of: none outside a flight, and none in a step that ends
    /// the flight.
    pub open spec fn stuck(self, delta: i64, reset_pressed: bool) -> nat {
        match self {
            GamePhaseView::Launched(_, klapi, kiuas, barriers) => {
                if reset_pressed || klapi.rect.spec_collide(kiuas.goal) {
                    0
                } else {
                    unresolved(klapi.updated(delta), barriers + kiuas.barriers)
                }
            },
            _ => 0,
        }
    }

    /// What the step reports.
    pub open spec fn report(self, delta: i64, reset_pressed: bool) -> StepReport {
        StepReport {
            goal: self.reaches_goal(reset_pressed),
            unresolved: self.stuck(delta, reset_pressed) as usize,
        }
    }

    /// The phase after one step of `delta`.
    ///
    /// `Start` waits for the action, then winds the lever back. `Charging`
    /// advances the lever until the action or the lower end of its range, then
    /// swings it forward from rest. `Launching` advances the lever until the
    /// action or the upper end of its range, then throws. `Launched` ends in
    /// a new `Start` at the same place on a reset or a goal; otherwise the
    /// projectile advances and meets first the barriers that stand by
    /// themselves and then those of the course.
    pub open spec fn advanced(
        self,
        delta: i64,
        action_pressed: bool,
        reset_pressed: bool,
    ) -> GamePhaseView {
        match self {
            GamePhaseView::Start(arm) => {
                if action_pressed {
                    GamePhaseView::Charging(Arm { speed: CHARGING_SPEED, ..arm })
                } else {
                    GamePhaseView::Start(arm)
                }
            },
            GamePhaseView::Charging(arm) => {
                if action_pressed || arm.angle <= arm.min_angle {
                    GamePhaseView::Launching(
                        Arm { speed: 0, acceleration: LAUNCH_ACCELERATION, ..arm },
                    )
                } else {
                    GamePhaseView::Charging(arm.updated(delta))
                }
            },
            GamePhaseView::Launching(arm) => {
                if action_pressed || arm.angle >= arm.max_angle {
                    GamePhaseView::Launched(arm, arm.launched(), spec_course(), spec_ground())
                } else {
                    GamePhaseView::Launching(arm.updated(delta))
                }
            },
            GamePhaseView::Launched(arm, klapi, kiuas, barriers) => {
                if reset_pressed || klapi.rect.spec_collide(kiuas.goal) {
                    GamePhaseView::Start(spec_new_arm(arm.start_location))
                } else {
                    GamePhaseView::Launched(
                        arm,
                        settled(klapi.updated(delta), barriers + kiuas.barriers),
                        kiuas,
                        barriers,
                    )
                }
            },
        }
    }
}

/// The barriers of `first`, then those of `second`.
pub fn join_barriers(first: &Vec<Barrier>, second: &Vec<Barrier>) -> (all: Vec<Barrier>)
    ensures
        all@ == first@ + second@,
{
    let mut all = copy_barriers(first);
    let mut i: usize = 0;
    while i < second.len()
        invariant
            i <= second.len(),
            all@ == first@ + second@.subrange(0, i as int),
        decreases second.len() - i,
    {
        all.push(second[i]);
        assert(all@ =~= first@ + second@.subrange(0, i + 1));
        i = i + 1;
    }
    assert(second@.subrange(0, i as int) =~= second@);
    all
}

impl GamePhase {
    /// Tests whether everything the phase works on is well formed.
    pub fn is_wf(&self) -> (ok: bool)
        ensures
            ok == self@.wf(),
    {
        match self {
            GamePhase::Start(arm) => arm.is_wf(),
            GamePhase::Charging(arm) => arm.is_wf(),
            GamePhase::Launching(arm) => arm.is_wf(),
            GamePhase::Launched(arm, klapi, kiuas, barriers) => {
                arm.is_wf() && klapi.is_wf() && kiuas.is_wf() && crate::barrier::barriers_are_wf(
                    barriers,
                )
            },
        }
    }

    /// One step of `delta`: the phase that follows, and what the step
    /// reports.
    pub fn advance(&self, delta: i64, action_pressed: bool, reset_pressed: bool) -> (next: (
        GamePhase,
        StepReport,
    ))
        requires
            self@.wf(),
        ensures
            next.0@ == self@.advanced(delta, action_pressed, reset_pressed),
            next.1 == self@.report(delta, reset_pressed),
            next.1.unresolved == self@.stuck(delta, reset_pressed),
            next.0@.wf(),
            self@.angle_in_range() ==> next.0@.angle_in_range(),
            self@.lets_go() ==> next.1.unresolved == 0 && next.0@.lets_go(),
            !(self@ is Launched && next.0@ is Start) ==> {
                &&& next.0@.arm().min_angle == self@.arm().min_angle
                &&& next.0@.arm().max_angle == self@.arm().max_angle
            },
    {
        let quiet = StepReport { goal: false, unresolved: 0 };
        proof {
            if self@.lets_go() {
                lemma_flight_lets_go(self@, delta, action_pressed, reset_pressed);
            }
        }
        match self {
            GamePhase::Start(arm) => {
                if action_pressed {
                    let mut new_arm = *arm;
                    new_arm.speed = CHARGING_SPEED;
                    (GamePhase::Charging(new_arm), quiet)
                } else {
                    (GamePhase::Start(*arm), quiet)
                }
            },
            GamePhase::Charging(arm) => {
                if action_pressed || arm.angle <= arm.min_angle {
                    let mut new_arm = *arm;
                    new_arm.speed = 0;
                    new_arm.acceleration = LAUNCH_ACCELERATION;
                    (GamePhase::Launching(new_arm), quiet)
                } else {
                    (GamePhase::Charging(arm.update(delta)), quiet)
                }
            },
            GamePhase::Launching(arm) => {
                if action_pressed || arm.angle >= arm.max_angle {
                    let klapi = arm.launch_klapi();
                    (GamePhase::Launched(*arm, klapi, course(), ground()), quiet)
                } else {
                    (GamePhase::Launching(arm.update(delta)), quiet)
                }
            },
            GamePhase::Launched(arm, klapi, kiuas, barriers) => {
                if reset_pressed {
                    (GamePhase::Start(new_arm(arm.start_location)), quiet)
                } else if klapi.rect.collide(&kiuas.goal) {
                    (
                        GamePhase::Start(new_arm(arm.start_location)),
                        StepReport { goal: true, unresolved: 0 },
                    )
                } else {
                    let updated_klapi = klapi.update(delta);
                    let all_barriers = join_barriers(barriers, &kiuas.barriers);
                    let (settled_klapi, failures) = settle(updated_klapi, &all_barriers);
                    (
                        GamePhase::Launched(
                            *arm,
                            settled_klapi,
                            kiuas.clone(),
                            copy_barriers(barriers),
                        ),
                        StepReport { goal: false, unresolved: failures },
                    )
                }
            },
        }
    }
}

/// A game: the phase of the round, the score, and whether the textures of the
/// display have been loaded.
#[derive(Debug)]
pub struct KlapiGame {
    pub phase: GamePhase,
    pub score: u32,
    pub textures_loaded: bool,
}

/// The mathematical content of a `KlapiGame`.
pub ghost struct KlapiGameView {
    pub phase: GamePhaseView,
    pub score: u32,
    pub textures_loaded: bool,
}

impl View for KlapiGame {
    type V = KlapiGameView;

    open spec fn view(&self) -> KlapiGameView {
        KlapiGameView {
            phase: self.phase@,
            score: self.score,
            textures_loaded: self.textures_loaded,
        }
    }
}

impl KlapiGameView {
    /// The game before its first step: no points, and the lever at rest at
    /// its place.
    pub open spec fn initial() -> KlapiGameView {
        KlapiGameView {
            phase: GamePhaseView::Start(spec_new_arm(spec_arm_start())),
            score: 0,
            textures_loaded: false,
        }
    }

    /// The phase is well formed.
    pub open spec fn wf(self) -> bool {
        self.phase.wf()
    }

    /// The score can still take the points of a goal.
    pub open spec fn can_score(self) -> bool {
        self.score + GOAL_POINTS <= u32::MAX
    }

    /// The game after one step of `delta`: the phase advances, and a step
    /// that scores adds the points of a goal.
    pub open spec fn updated(
        self,
        delta: i64,
        action_pressed: bool,
        reset_pressed: bool,
    ) -> KlapiGameView {
        KlapiGameView {
            phase: self.phase.advanced(delta, action_pressed, reset_pressed),
            score: if self.phase.reaches_goal(reset_pressed) {
                (self.score + GOAL_POINTS) as u32
            } else {
                self.score
            },
            textures_loaded: self.textures_loaded,
        }
    }
}

impl KlapiGame {
    /// A new game.
    pub fn new() -> (game: KlapiGame)
        ensures
            game@ == KlapiGameView::initial(),
            game@.wf(),
            game@.can_score(),
            game@.phase.angle_in_range(),
            game@.phase.lets_go(),
    {
        KlapiGame { score: 0, textures_loaded: false, phase: GamePhase::Start(new_arm(arm_start())) }
    }

    /// Tests whether the phase is well formed.
    pub fn is_wf(&self) -> (ok: bool)
        ensures
            ok == self@.wf(),
    {
        self.phase.is_wf()
    }

    /// Tests whether the score can still take the points of a goal.
    pub fn can_score(&self) -> (ok: bool)
        ensures
            ok == self@.can_score(),
    {
        self.score <= u32::MAX - GOAL_POINTS
    }

    /// One step of the game. `delta` is the time since the step before,
    /// `action_pressed` and `reset_pressed` tell whether the player asked for
    /// the action or for a new round in that time. Returns what the step
    /// reports. A step that scores needs a score that can take the points.
    pub fn update(&mut self, delta: i64, action_pressed: bool, reset_pressed: bool) -> (report:
        StepReport)
        requires
            old(self)@.wf(),
            old(self)@.phase.reaches_goal(reset_pressed) ==> old(self)@.can_score(),
        ensures
            final(self)@ == old(self)@.updated(delta, action_pressed, reset_pressed),
            final(self)@.wf(),
            report == old(self)@.phase.report(delta, reset_pressed),
            report.unresolved == old(self)@.phase.stuck(delta, reset_pressed),
            old(self)@.phase.angle_in_range() ==> final(self)@.phase.angle_in_range(),
            old(self)@.phase.lets_go() ==> report.unresolved == 0 && final(self)@.phase.lets_go(),
            !(old(self)@.phase is Launched && final(self)@.phase is Start) ==> {
                &&& final(self)@.phase.arm().min_angle == old(self)@.phase.arm().min_angle
                &&& final(self)@.phase.arm().max_angle == old(self)@.phase.arm().max_angle
            },
    {
        let (phase, report) = self.phase.advance(delta, action_pressed, reset_pressed);
        if report.goal {
            self.score = self.score + GOAL_POINTS;
        }
        self.phase = phase;
        report
    }
}

/// The ground and the barriers of the course let go of the projectile that
/// the lever throws.
pub proof fn lemma_course_lets_go()
    ensures
        all_let_go(
            spec_ground() + spec_course().barriers,
            crate::arm::KLAPI_WIDTH as int,
            crate::arm::KLAPI_HEIGHT as int,
        ),
{
    let all = spec_ground() + spec_course().barriers;
    assert(all.len() == 3);
    assert(all[0] == spec_ground()[0]);
    assert(all[1] == spec_course().barriers[0]);
    assert(all[2] == spec_course().barriers[1]);
}

/// In a flight whose barriers let go of the projectile, a step leaves no
/// barrier unresolved, and the barriers of the flight that follows let go of
/// its projectile. A throw begins such a flight.
pub proof fn lemma_flight_lets_go(
    phase: GamePhaseView,
    delta: i64,
    action_pressed: bool,
    reset_pressed: bool,
)
    requires
        phase.wf(),
        phase.lets_go(),
    ensures
        phase.stuck(delta, reset_pressed) == 0,
        phase.advanced(delta, action_pressed, reset_pressed).lets_go(),
{
    lemma_course_lets_go();
    match phase {
        GamePhaseView::Launched(_, klapi, kiuas, barriers) => {
            if !(reset_pressed || klapi.rect.spec_collide(kiuas.goal)) {
                let all = barriers + kiuas.barriers;
                assert forall|i: int| 0 <= i < all.len() implies (#[trigger] all[i]).wf() by {
                    if i < barriers.len() {
                        assert(all[i] == barriers[i]);
                    } else {
                        assert(all[i] == kiuas.barriers[i - barriers.len()]);
                    }
                }
                lemma_settling_resolves(klapi.updated(delta), all);
            }
        },
        _ => {},
    }
}

/// A step keeps the angle of the lever within its range: if it lies within
/// the range before the step, it does so after it, whatever the length of the
/// step and whatever the player asked for. The range itself changes only
/// where a new round begins.
pub proof fn lemma_step_keeps_angle_in_range(
    phase: GamePhaseView,
    delta: i64,
    action_pressed: bool,
    reset_pressed: bool,
)
    requires
        phase.angle_in_range(),
    ensures
        phase.advanced(delta, action_pressed, reset_pressed).angle_in_range(),
        !(phase is Launched) ==> {
            &&& phase.advanced(delta, action_pressed, reset_pressed).arm().min_angle
                == phase.arm().min_angle
            &&& phase.advanced(delta, action_pressed, reset_pressed).arm().max_angle
                == phase.arm().max_angle
        },
{
}

} // verus!
