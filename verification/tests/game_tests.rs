use klapit::arm::new_arm;
use klapit::barrier::{Barrier, Kiuas};
use klapit::game::{
    arm_start, course, ground, join_barriers, GamePhase, KlapiGame, StepReport, CHARGING_SPEED,
    GOAL_POINTS, LAUNCH_ACCELERATION,
};
use klapit::klapi::Klapi;
use klapit::rectangle::Rectangle;
use klapit::vector::vec2;

const DELTA: i64 = 16_000;

fn rect(x: i64, y: i64, width: i64, height: i64) -> Rectangle {
    Rectangle { position: vec2(x, y), width, height, rotation: 0 }
}

fn flying(x: i64, y: i64, speed_x: i64, speed_y: i64) -> Klapi {
    Klapi {
        rect: rect(x, y, 450_000, 150_000),
        mass: 2_500_000,
        forces: vec![vec2(0, -24_525_000)],
        speed: vec2(speed_x, speed_y),
        rotational_speed: 0,
        max_speed: 10_000_000,
    }
}

fn launched(klapi: Klapi) -> KlapiGame {
    KlapiGame {
        phase: GamePhase::Launched(new_arm(arm_start()), klapi, course(), ground()),
        score: 0,
        textures_loaded: true,
    }
}

#[test]
fn a_new_game_waits_at_the_start() {
    let game = KlapiGame::new();
    assert_eq!(game.score, 0);
    assert!(!game.textures_loaded);
    assert!(game.is_wf());
    assert!(game.can_score());
    match &game.phase {
        GamePhase::Start(arm) => assert_eq!(*arm, new_arm(vec2(-1_900_000, -450_000))),
        _ => panic!("a new game is in its first phase"),
    }
    assert_eq!(arm_start(), vec2(-1_900_000, -450_000));
}

#[test]
fn the_course_and_the_ground() {
    let kiuas = course();
    assert_eq!(kiuas.goal, rect(3_100_000, -600_000, 300_000, 300_000));
    assert_eq!(
        kiuas.barriers,
        vec![
            Barrier { bounciness: 800_000, rect: rect(3_300_000, 0, 1_000_000, 800_000) },
            Barrier { bounciness: 200_000, rect: rect(3_050_000, -900_000, 400_000, 200_000) },
        ]
    );
    assert_eq!(
        ground(),
        vec![Barrier { bounciness: 500_000, rect: rect(0, -1_400_000, 20_000_000, 200_000) }]
    );
    assert!(kiuas.is_wf());
    assert_eq!((CHARGING_SPEED, LAUNCH_ACCELERATION, GOAL_POINTS), (-60_000_000, 720_000_000, 10));
}

#[test]
fn barriers_are_joined_in_order() {
    let joined = join_barriers(&ground(), &course().barriers);
    assert_eq!(joined.len(), 3);
    assert_eq!(joined[0], ground()[0]);
    assert_eq!(joined[1], course().barriers[0]);
    assert_eq!(joined[2], course().barriers[1]);
    assert_eq!(join_barriers(&Vec::new(), &Vec::new()), Vec::new());
}

#[test]
fn the_start_waits_for_the_action() {
    let mut game = KlapiGame::new();
    game.update(DELTA, false, false);
    game.update(DELTA, false, true);
    match &game.phase {
        GamePhase::Start(arm) => assert_eq!(*arm, new_arm(arm_start())),
        _ => panic!("without the action the game stays at the start"),
    }
    game.update(DELTA, true, false);
    match &game.phase {
        GamePhase::Charging(arm) => {
            let mut expected = new_arm(arm_start());
            expected.speed = -60_000_000;
            assert_eq!(*arm, expected);
        }
        _ => panic!("the action starts the charge"),
    }
    assert_eq!(game.score, 0);
}

#[test]
fn charging_winds_back_until_the_action() {
    let mut game = KlapiGame::new();
    game.update(DELTA, true, false);
    game.update(DELTA, false, false);
    game.update(DELTA, false, false);
    match &game.phase {
        GamePhase::Charging(arm) => {
            assert_eq!(arm.angle, -1_920_000);
            assert_eq!(arm.speed, -60_000_000);
        }
        _ => panic!("the charge goes on"),
    }
    game.update(DELTA, true, false);
    match &game.phase {
        GamePhase::Launching(arm) => {
            assert_eq!(arm.angle, -1_920_000);
            assert_eq!(arm.speed, 0);
            assert_eq!(arm.acceleration, 720_000_000);
        }
        _ => panic!("the action ends the charge"),
    }
}

#[test]
fn charging_ends_at_the_lower_end_of_the_range() {
    let mut game = KlapiGame::new();
    game.update(DELTA, true, false);
    // 0.96 degrees a step: the lower end is reached in the 94th step
    for _ in 0..93 {
        game.update(DELTA, false, false);
    }
    match &game.phase {
        GamePhase::Charging(arm) => assert_eq!(arm.angle, -89_280_000),
        _ => panic!("the charge goes on"),
    }
    game.update(DELTA, false, false);
    match &game.phase {
        GamePhase::Charging(arm) => assert_eq!(arm.angle, -90_000_000),
        _ => panic!("the step that reaches the end still charges"),
    }
    game.update(DELTA, false, false);
    match &game.phase {
        GamePhase::Launching(arm) => {
            assert_eq!(arm.angle, -90_000_000);
            assert_eq!(arm.speed, 0);
            assert_eq!(arm.acceleration, 720_000_000);
        }
        _ => panic!("at the end of the range the launch begins"),
    }
}

#[test]
fn launching_throws_on_the_action() {
    let mut arm = new_arm(arm_start());
    arm.speed = 0;
    arm.acceleration = 720_000_000;
    arm.angle = -90_000_000;
    let mut game = KlapiGame { phase: GamePhase::Launching(arm), score: 3, textures_loaded: true };
    game.update(100_000, false, false);
    game.update(100_000, false, false);
    let swinging = match &game.phase {
        GamePhase::Launching(arm) => *arm,
        _ => panic!("the launch goes on"),
    };
    assert_eq!(swinging.speed, 144_000_000);
    assert_eq!(swinging.angle, -68_400_000);
    game.update(100_000, true, false);
    match &game.phase {
        GamePhase::Launched(arm, klapi, kiuas, barriers) => {
            assert_eq!(*arm, swinging);
            let thrown = swinging.launch_klapi();
            assert_eq!(klapi.rect, thrown.rect);
            assert_eq!(klapi.speed, thrown.speed);
            assert_eq!(klapi.forces, vec![vec2(0, -24_525_000)]);
            assert_eq!(kiuas.goal, course().goal);
            assert_eq!(kiuas.barriers, course().barriers);
            assert_eq!(*barriers, ground());
        }
        _ => panic!("the action throws"),
    }
    assert_eq!(game.score, 3);
    assert!(game.textures_loaded);
}

#[test]
fn launching_throws_at_the_upper_end_of_the_range() {
    let mut arm = new_arm(arm_start());
    arm.speed = 0;
    arm.acceleration = 720_000_000;
    arm.angle = -90_000_000;
    let mut game = KlapiGame { phase: GamePhase::Launching(arm), score: 0, textures_loaded: false };
    let mut steps = 0;
    while let GamePhase::Launching(arm) = &game.phase {
        assert!(-90_000_000 <= arm.angle && arm.angle <= 90_000_000);
        game.update(DELTA, false, false);
        steps += 1;
        assert!(steps < 1000);
    }
    match &game.phase {
        GamePhase::Launched(arm, klapi, _, _) => {
            assert_eq!(arm.angle, 90_000_000);
            assert_eq!(klapi.rect.rotation, 90_000_000);
            // straight up, at the ceiling of ten or under it
            assert_eq!(klapi.speed.x, 0);
            assert!(klapi.speed.y > 0);
        }
        _ => panic!("the launch ends in a throw"),
    }
}

#[test]
fn a_klapi_in_flight_falls() {
    let mut game = launched(flying(0, 2_000_000, 1_000_000, 0));
    game.update(10_000, false, false);
    match &game.phase {
        GamePhase::Launched(_, klapi, _, _) => {
            assert_eq!(klapi.speed, vec2(1_000_000, -98_100));
            assert_eq!(klapi.rect.position, vec2(10_000, 1_999_019));
        }
        _ => panic!("the flight goes on"),
    }
    assert_eq!(game.score, 0);
}

#[test]
fn a_klapi_that_meets_the_ground_is_pushed_out_and_rebounds() {
    // the upper side of the ground lies at -1.3
    let mut game = launched(flying(0, -1_200_000, 3_000_000, -5_000_000));
    let report = game.update(10_000, false, false);
    assert_eq!(report, StepReport { goal: false, unresolved: 0 });
    match &game.phase {
        GamePhase::Launched(_, klapi, _, _) => {
            // sqrt(2) * 3 = 4.242640, of which half is kept
            assert_eq!(klapi.speed, vec2(2_121_320, 0));
            let ground = &ground()[0];
            assert!(!ground.rect.collide(&klapi.rect));
            assert!(klapi.rect.position.y - 75_000 > -1_300_000);
            assert!(klapi.rect.position.y - 75_000 < -1_300_000 + 60_000);
        }
        _ => panic!("the flight goes on"),
    }
}

#[test]
fn a_klapi_in_the_goal_scores() {
    let mut game = launched(flying(3_100_000, -600_000, 0, 0));
    game.score = 20;
    let report = game.update(DELTA, false, false);
    assert_eq!(report, StepReport { goal: true, unresolved: 0 });
    assert_eq!(game.score, 30);
    match &game.phase {
        GamePhase::Start(arm) => assert_eq!(*arm, new_arm(arm_start())),
        _ => panic!("a goal starts a new round"),
    }
    assert!(game.textures_loaded);
}

#[test]
fn a_reset_starts_a_new_round_without_points() {
    let mut game = launched(flying(3_100_000, -600_000, 0, 0));
    let report = game.update(DELTA, false, true);
    assert_eq!(report, StepReport { goal: false, unresolved: 0 });
    assert_eq!(game.score, 0);
    match &game.phase {
        GamePhase::Start(arm) => assert_eq!(*arm, new_arm(arm_start())),
        _ => panic!("a reset starts a new round"),
    }
}

#[test]
fn a_new_round_starts_where_the_arm_started() {
    let start = vec2(123_456, -654_321);
    let mut game = KlapiGame {
        phase: GamePhase::Launched(new_arm(start), flying(0, 0, 0, 0), course(), ground()),
        score: 0,
        textures_loaded: false,
    };
    game.update(DELTA, true, true);
    match &game.phase {
        GamePhase::Start(arm) => assert_eq!(*arm, new_arm(start)),
        _ => panic!("a reset starts a new round"),
    }
}

#[test]
fn the_flight_keeps_the_course_and_the_barriers() {
    let kiuas = Kiuas {
        barriers: vec![Barrier { bounciness: 1, rect: rect(9_000_000, 9_000_000, 1, 1) }],
        goal: rect(-9_000_000, 9_000_000, 5, 5),
    };
    let barriers = vec![Barrier { bounciness: 2, rect: rect(9_000_000, -9_000_000, 2, 2) }];
    let mut game = KlapiGame {
        phase: GamePhase::Launched(new_arm(arm_start()), flying(0, 0, 0, 0), kiuas.clone(), barriers.clone()),
        score: 0,
        textures_loaded: false,
    };
    game.update(DELTA, false, false);
    match &game.phase {
        GamePhase::Launched(arm, _, kept, others) => {
            assert_eq!(*arm, new_arm(arm_start()));
            assert_eq!(kept.goal, kiuas.goal);
            assert_eq!(kept.barriers, kiuas.barriers);
            assert_eq!(*others, barriers);
        }
        _ => panic!("the flight goes on"),
    }
}

#[test]
fn a_klapi_that_stays_stuck_is_reported() {
    // a flat klapi over a flat barrier: the two always count as meeting
    let kiuas = Kiuas {
        barriers: vec![Barrier { bounciness: 500_000, rect: rect(0, 0, 2_000_000, 0) }],
        goal: rect(50_000_000, 50_000_000, 300_000, 300_000),
    };
    let mut klapi = flying(500_000, 700_000, 1_000_000, 1_000_000);
    klapi.rect.height = 0;
    let mut game = KlapiGame {
        phase: GamePhase::Launched(new_arm(arm_start()), klapi, kiuas, Vec::new()),
        score: 0,
        textures_loaded: false,
    };
    let report = game.update(DELTA, false, false);
    assert_eq!(report, StepReport { goal: false, unresolved: 1 });
    assert!(game.is_wf());
    let quiet = KlapiGame::new().update(DELTA, true, true);
    assert_eq!(quiet, StepReport { goal: false, unresolved: 0 });
}

#[test]
fn a_whole_round_keeps_the_game_well_formed() {
    let mut game = KlapiGame::new();
    let mut steps = 0;
    game.update(DELTA, true, false);
    while !matches!(game.phase, GamePhase::Launching(_)) {
        game.update(DELTA, false, false);
        steps += 1;
        assert!(steps < 1000);
    }
    // let the arm swing for a quarter of a second, then throw
    for _ in 0..16 {
        game.update(DELTA, false, false);
    }
    game.update(DELTA, true, false);
    assert!(matches!(game.phase, GamePhase::Launched(_, _, _, _)));
    for _ in 0..600 {
        assert!(game.is_wf());
        assert!(game.can_score());
        if let GamePhase::Launched(_, klapi, kiuas, barriers) = &game.phase {
            // after each step the klapi is clear of every barrier it met last
            assert!(klapi.rect.position.y > -1_400_000);
            assert_eq!(kiuas.barriers.len(), 2);
            assert_eq!(barriers.len(), 1);
        }
        let report = game.update(DELTA, false, false);
        assert_eq!(report.unresolved, 0);
    }
    assert!(game.score % 10 == 0);
}

#[test]
fn the_score_is_counted_up_to_the_last_goal_that_fits() {
    let mut game = launched(flying(3_100_000, -600_000, 0, 0));
    game.score = u32::MAX - 10;
    assert!(game.can_score());
    game.update(DELTA, false, false);
    assert_eq!(game.score, u32::MAX);
    assert!(!game.can_score());
    // steps that do not score go on
    game.update(DELTA, true, false);
    game.update(DELTA, false, false);
    assert_eq!(game.score, u32::MAX);
    assert!(matches!(game.phase, GamePhase::Charging(_)));
}

#[test]
fn well_formed_phases_are_told_apart() {
    let mut arm = new_arm(arm_start());
    assert!(GamePhase::Charging(arm).is_wf());
    arm.radius = i64::MAX;
    assert!(!GamePhase::Start(arm).is_wf());
    assert!(!GamePhase::Launching(arm).is_wf());
    let mut heavy = flying(0, 0, 0, 0);
    heavy.mass = -1;
    assert!(!launched(heavy).is_wf());
    assert!(launched(flying(0, 0, 0, 0)).is_wf());
}
