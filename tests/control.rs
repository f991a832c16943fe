use rigid2d::control::{FrameActions, FrameInput, SimState};

fn input(left: bool, right: bool) -> FrameInput {
    FrameInput { left_pressed: left, right_pressed: right }
}

#[test]
fn waiting_starts_on_left_click_without_spawning() {
    let r = SimState::Waiting.react(input(true, true));
    assert_eq!(
        r,
        FrameActions {
            next_state: SimState::Running,
            run_physics: false,
            spawn_ball: false,
            spawn_spring_pair: false,
        }
    );
}

#[test]
fn waiting_ignores_right_click() {
    let r = SimState::Waiting.react(input(false, true));
    assert_eq!(r.next_state, SimState::Waiting);
    assert!(!r.run_physics && !r.spawn_ball && !r.spawn_spring_pair);
}

#[test]
fn running_spawns_on_clicks() {
    assert_eq!(
        SimState::Running.react(input(true, false)),
        FrameActions {
            next_state: SimState::Running,
            run_physics: true,
            spawn_ball: true,
            spawn_spring_pair: false,
        }
    );
    let both = SimState::Running.react(input(true, true));
    assert!(both.spawn_ball && both.spawn_spring_pair);
    let none = SimState::Running.react(input(false, false));
    assert!(none.run_physics && !none.spawn_ball && !none.spawn_spring_pair);
}
