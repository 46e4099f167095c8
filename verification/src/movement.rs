use vstd::prelude::*;

use crate::messages::{ActionMask, TransmittableAction};

verus! {

/// Represents the movement mode of an entity.
#[derive(PartialEq, Eq, Structural, Hash, Debug, Clone, Copy)]
pub enum MovementMode {
    Walking,
    Flying,
}

impl Default for MovementMode {
    fn default() -> (r: MovementMode)
        ensures
            r == MovementMode::Walking,
    {
        MovementMode::Walking
    }
}

pub open spec fn spec_toggled(m: MovementMode) -> MovementMode {
    match m {
        MovementMode::Walking => MovementMode::Flying,
        MovementMode::Flying => MovementMode::Walking,
    }
}

impl MovementMode {
    /// The other movement mode.
    pub fn toggled(&self) -> (r: MovementMode)
        ensures
            r == spec_toggled(*self),
    {
        match self {
            MovementMode::Walking => MovementMode::Flying,
            MovementMode::Flying => MovementMode::Walking,
        }
    }
}

/// What the fly toggle of one input frame does to the movement mode.
#[derive(PartialEq, Eq, Structural, Debug, Clone, Copy)]
pub struct ModeStep {
    /// The mode after this frame.
    pub movement_mode: MovementMode,
    /// Whether the velocity is reset to zero before the frame's movement is
    /// computed (when flying stops, so no motion carries over).
    pub reset_velocity: bool,
}

pub open spec fn spec_mode_step(mode: MovementMode, actions: ActionMask) -> ModeStep {
    if actions@.contains(TransmittableAction::ToggleFlyMode) {
        ModeStep {
            movement_mode: spec_toggled(mode),
            reset_velocity: spec_toggled(mode) == MovementMode::Walking,
        }
    } else {
        ModeStep { movement_mode: mode, reset_velocity: false }
    }
}

/// The fly toggle: a frame with `ToggleFlyMode` switches between walking and
/// flying, and switching back to walking resets the velocity.
pub fn movement_mode_step(mode: MovementMode, actions: &ActionMask) -> (r: ModeStep)
    ensures
        r == spec_mode_step(mode, *actions),
{
    if actions.contains(TransmittableAction::ToggleFlyMode) {
        let m = mode.toggled();
        ModeStep { movement_mode: m, reset_velocity: m == MovementMode::Walking }
    } else {
        ModeStep { movement_mode: mode, reset_velocity: false }
    }
}

/// Movement intent of one input frame, relative to the camera: `x` is +1 to
/// the right and -1 to the left, `z` is +1 forward and -1 backward.
#[derive(PartialEq, Eq, Structural, Debug, Clone, Copy)]
pub struct MovementAxes {
    pub x: i8,
    pub z: i8,
    pub jump: bool,
    pub crouch: bool,
}

pub open spec fn spec_flag(b: bool) -> int {
    if b { 1 } else { 0 }
}

pub open spec fn spec_movement_axes(actions: ActionMask) -> MovementAxes {
    let s = actions@;
    MovementAxes {
        x: (spec_flag(s.contains(TransmittableAction::MoveRight)) - spec_flag(s.contains(TransmittableAction::MoveLeft))) as i8,
        z: (spec_flag(s.contains(TransmittableAction::MoveForward)) - spec_flag(s.contains(TransmittableAction::MoveBackward))) as i8,
        jump: s.contains(TransmittableAction::JumpOrFlyUp),
        crouch: s.contains(TransmittableAction::CrouchOrFlyDown),
    }
}

/// Reads the movement intent out of an action mask; opposite directions
/// cancel out.
pub fn movement_axes(actions: &ActionMask) -> (r: MovementAxes)
    ensures
        r == spec_movement_axes(*actions),
        -1 <= r.x <= 1,
        -1 <= r.z <= 1,
{
    let mut x: i8 = 0;
    let mut z: i8 = 0;
    if actions.contains(TransmittableAction::MoveForward) {
        z = z + 1;
    }
    if actions.contains(TransmittableAction::MoveBackward) {
        z = z - 1;
    }
    if actions.contains(TransmittableAction::MoveRight) {
        x = x + 1;
    }
    if actions.contains(TransmittableAction::MoveLeft) {
        x = x - 1;
    }
    MovementAxes {
        x,
        z,
        jump: actions.contains(TransmittableAction::JumpOrFlyUp),
        crouch: actions.contains(TransmittableAction::CrouchOrFlyDown),
    }
}

/// Toggling twice gives the mode back; a frame with the toggle always
/// changes the mode, and a frame without it never does.
pub proof fn lemma_toggle_involution(mode: MovementMode, actions: ActionMask)
    ensures
        spec_toggled(spec_toggled(mode)) == mode,
        spec_toggled(mode) != mode,
        (spec_mode_step(mode, actions).movement_mode != mode)
            == actions@.contains(TransmittableAction::ToggleFlyMode),
        spec_mode_step(mode, actions).reset_velocity ==> mode == MovementMode::Flying,
{
}

} // verus!
