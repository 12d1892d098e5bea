use tracer::path::Encounter;
use tracer::path::PathState;
use tracer::path::Radiance;

const BLACK: PathState = PathState::Finished { radiance: Radiance::Black };
const SKY: PathState = PathState::Finished { radiance: Radiance::Background };

#[test]
fn path_of_no_depth_is_black() {
    assert_eq!(PathState::start(0), BLACK);
    assert_eq!(PathState::start(-1), BLACK);
    assert_eq!(PathState::start(isize::MIN), BLACK);
    assert!(PathState::start(0).is_finished());
}

#[test]
fn path_of_no_depth_stays_black() {
    for encounter in [Encounter::Miss, Encounter::Absorbed, Encounter::Scattered] {
        assert_eq!(PathState::start(0).advance(encounter), BLACK);
    }
}

#[test]
fn path_with_depth_sends_a_ray() {
    assert_eq!(PathState::start(1), PathState::Tracing { depth: 1 });
    assert_eq!(PathState::start(50), PathState::Tracing { depth: 50 });
    assert!(!PathState::start(50).is_finished());
}

#[test]
fn path_that_misses_sees_the_sky() {
    assert_eq!(PathState::start(3).advance(Encounter::Miss), SKY);
}

#[test]
fn path_that_is_absorbed_is_black() {
    assert_eq!(PathState::start(3).advance(Encounter::Absorbed), BLACK);
}

#[test]
fn path_that_is_scattered_loses_depth() {
    let state = PathState::start(3).advance(Encounter::Scattered);
    assert_eq!(state, PathState::Tracing { depth: 2 });
    let state = state.advance(Encounter::Scattered);
    assert_eq!(state, PathState::Tracing { depth: 1 });
    let state = state.advance(Encounter::Scattered);
    assert_eq!(state, BLACK);
}

#[test]
fn path_scattered_then_missing_sees_the_sky() {
    let state = PathState::start(3).advance(Encounter::Scattered).advance(Encounter::Miss);
    assert_eq!(state, SKY);
}

#[test]
fn path_of_depth_one_scattered_is_black() {
    assert_eq!(PathState::start(1).advance(Encounter::Scattered), BLACK);
    assert_eq!(PathState::start(1).advance(Encounter::Miss), SKY);
}

#[test]
fn path_that_ended_stays() {
    for encounter in [Encounter::Miss, Encounter::Absorbed, Encounter::Scattered] {
        assert_eq!(SKY.advance(encounter), SKY);
        assert_eq!(BLACK.advance(encounter), BLACK);
    }
}

#[test]
fn path_ends_within_its_depth() {
    for depth in 0..60isize {
        let mut state = PathState::start(depth);
        let mut rays = 0;
        while !state.is_finished() {
            state = state.advance(Encounter::Scattered);
            rays += 1;
        }
        assert_eq!(rays, depth);
        assert_eq!(state, BLACK);
    }
}

#[test]
fn path_state_by_hand_without_depth() {
    let state = PathState::Tracing { depth: isize::MIN };
    assert_eq!(state.advance(Encounter::Scattered), BLACK);
}
