//! The walk cycle of a creature: which animation frame it shows and when it
//! bobs up.

use vstd::prelude::*;

verus! {

/// Number of frames in the walk cycle.
pub const WALK_FRAME_COUNT: usize = 4;

/// Where a step leaves the creature's height.
#[derive(Clone, Copy, Debug, PartialEq, Eq)]
pub enum Bounce {
    /// Lifted to the bounce height.
    Raised,
    /// Back on the ground.
    Grounded,
    /// As it was.
    Unchanged,
}

/// The walk-cycle state after one step.
#[derive(Clone, Copy, Debug, PartialEq, Eq)]
pub struct WalkStep {
    /// The frame now shown.
    pub current_frame: usize,
    /// Whether the creature counts as moving.
    pub is_moving: bool,
    /// Whether the frame timer starts over at zero.
    pub restart_timer: bool,
    /// Where the creature's height goes.
    pub bounce: Bounce,
}

/// The walk cycle's step: a moving creature whose frame time is up shows the
/// next frame (wrapping after `WALK_FRAME_COUNT`), restarts the frame timer,
/// and is raised on even frames and grounded on odd ones; a moving creature
/// whose frame time is not up keeps its frame and height; a creature that does
/// not move goes back to frame 0 on the ground.
pub open spec fn walk_step(current_frame: usize, moving: bool, frame_due: bool) -> WalkStep {
    if moving {
        if frame_due {
            let next = ((current_frame + 1) % WALK_FRAME_COUNT as int) as usize;
            WalkStep {
                current_frame: next,
                is_moving: true,
                restart_timer: true,
                bounce: if next % 2 == 0 {
                    Bounce::Raised
                } else {
                    Bounce::Grounded
                },
            }
        } else {
            WalkStep { current_frame, is_moving: true, restart_timer: false, bounce: Bounce::Unchanged }
        }
    } else {
        WalkStep { current_frame: 0, is_moving: false, restart_timer: false, bounce: Bounce::Grounded }
    }
}

/// Advances a creature's walk cycle by one step, given whether it moves and
/// whether the time of its current frame is up.
pub fn update_walk_animation(current_frame: usize, moving: bool, frame_due: bool) -> (step: WalkStep)
    requires
        moving && frame_due ==> current_frame < usize::MAX,
    ensures
        step == walk_step(current_frame, moving, frame_due),
        moving && frame_due ==> {
            &&& step.current_frame == (current_frame + 1) % (WALK_FRAME_COUNT as int)
            &&& step.is_moving
            &&& step.restart_timer
            &&& (step.bounce == Bounce::Raised <==> step.current_frame % 2 == 0)
            &&& (step.bounce == Bounce::Grounded <==> step.current_frame % 2 == 1)
        },
        moving && !frame_due ==> step == (WalkStep {
            current_frame,
            is_moving: true,
            restart_timer: false,
            bounce: Bounce::Unchanged,
        }),
        !moving ==> step == (WalkStep {
            current_frame: 0,
            is_moving: false,
            restart_timer: false,
            bounce: Bounce::Grounded,
        }),
{
    if moving {
        if frame_due {
            let next = (current_frame + 1) % WALK_FRAME_COUNT;
            let bounce = if next % 2 == 0 {
                Bounce::Raised
            } else {
                Bounce::Grounded
            };
            WalkStep { current_frame: next, is_moving: true, restart_timer: true, bounce }
        } else {
            WalkStep { current_frame, is_moving: true, restart_timer: false, bounce: Bounce::Unchanged }
        }
    } else {
        WalkStep { current_frame: 0, is_moving: false, restart_timer: false, bounce: Bounce::Grounded }
    }
}

/// Law: a moving creature whose frame is due shows the next frame of the cycle,
/// raised when that frame is even and grounded when it is odd; one whose frame
/// is not due changes nothing; one that stands still is on frame 0, grounded.
pub proof fn law_walk_step(current_frame: usize, moving: bool, frame_due: bool)
    requires
        moving && frame_due ==> current_frame < usize::MAX,
    ensures
        moving && frame_due ==> {
            let step = walk_step(current_frame, moving, frame_due);
            &&& step.current_frame == (current_frame + 1) % (WALK_FRAME_COUNT as int)
            &&& step.is_moving
            &&& step.restart_timer
            &&& (step.bounce == Bounce::Raised <==> step.current_frame % 2 == 0)
            &&& (step.bounce == Bounce::Grounded <==> step.current_frame % 2 == 1)
        },
        moving && !frame_due ==> walk_step(current_frame, moving, frame_due) == (WalkStep {
            current_frame,
            is_moving: true,
            restart_timer: false,
            bounce: Bounce::Unchanged,
        }),
        !moving ==> walk_step(current_frame, moving, frame_due) == (WalkStep {
            current_frame: 0,
            is_moving: false,
            restart_timer: false,
            bounce: Bounce::Grounded,
        }),
{
}

/// Law: the frame shown is always one of the cycle's frames once a step has
/// been taken from a valid frame, and four frame changes in a row bring a
/// moving creature back to the frame it started from.
pub proof fn law_walk_cycle(current_frame: usize)
    requires
        current_frame < WALK_FRAME_COUNT,
    ensures
        forall|moving: bool, due: bool| #[trigger]
            walk_step(current_frame, moving, due).current_frame < WALK_FRAME_COUNT,
        walk_step(
            walk_step(
                walk_step(walk_step(current_frame, true, true).current_frame, true, true).current_frame,
                true,
                true,
            ).current_frame,
            true,
            true,
        ).current_frame == current_frame,
{
}

} // verus!
