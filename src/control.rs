use vstd::prelude::*;

verus! {

/// Whether the simulation waits for its first click or runs.
#[derive(Clone, Copy, Debug, PartialEq, Eq, Structural)]
pub enum SimState {
    Waiting,
    Running,
}

/// The mouse buttons that went down in this frame.
#[derive(Clone, Copy, Debug, PartialEq, Eq, Structural)]
pub struct FrameInput {
    pub left_pressed: bool,
    pub right_pressed: bool,
}

/// What the host does in a frame: the state for the next frame, whether the
/// fixed physics step runs, and which spawns it performs at the cursor.
#[derive(Clone, Copy, Debug, PartialEq, Eq, Structural)]
pub struct FrameActions {
    pub next_state: SimState,
    pub run_physics: bool,
    /// Spawn one Dynamic ball at the cursor.
    pub spawn_ball: bool,
    /// Spawn two Dynamic balls joined by springs, one at the cursor and one
    /// to its right.
    pub spawn_spring_pair: bool,
}

impl SimState {
    /// The decision of one frame. While waiting, a left click starts the
    /// simulation and spawns nothing; while running, the physics steps, a
    /// left click spawns a ball and a right click a spring pair.
    pub fn react(self, input: FrameInput) -> (r: FrameActions)
        ensures
            r == (match self {
                SimState::Waiting => FrameActions {
                    next_state: if input.left_pressed {
                        SimState::Running
                    } else {
                        SimState::Waiting
                    },
                    run_physics: false,
                    spawn_ball: false,
                    spawn_spring_pair: false,
                },
                SimState::Running => FrameActions {
                    next_state: SimState::Running,
                    run_physics: true,
                    spawn_ball: input.left_pressed,
                    spawn_spring_pair: input.right_pressed,
                },
            }),
    {
        match self {
            SimState::Waiting => FrameActions {
                next_state: if input.left_pressed {
                    SimState::Running
                } else {
                    SimState::Waiting
                },
                run_physics: false,
                spawn_ball: false,
                spawn_spring_pair: false,
            },
            SimState::Running => FrameActions {
                next_state: SimState::Running,
                run_physics: true,
                spawn_ball: input.left_pressed,
                spawn_spring_pair: input.right_pressed,
            },
        }
    }
}

} // verus!
