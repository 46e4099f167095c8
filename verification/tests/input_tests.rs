use riverbed::messages::{action_mask_from_input_flags, ActionMask, InputFlags, TransmittableAction};
use riverbed::movement::{movement_axes, movement_mode_step, MovementAxes, MovementMode, ModeStep};

fn no_input() -> InputFlags {
    InputFlags {
        forward: false,
        backward: false,
        right: false,
        left: false,
        jump: false,
        crouch: false,
        toggle_fly: false,
        hit: false,
        modify: false,
    }
}

/// Reads a movement stick the way the client does: an axis counts once it
/// leaves the dead zone.
fn flags_from_axis(x: f32, y: f32) -> InputFlags {
    const AXIS_DEADZONE: f32 = 0.15;
    InputFlags {
        forward: y > AXIS_DEADZONE,
        backward: y < -AXIS_DEADZONE,
        right: x > AXIS_DEADZONE,
        left: x < -AXIS_DEADZONE,
        ..no_input()
    }
}

#[test]
fn move_axes_set_bits() {
    let mask = action_mask_from_input_flags(&flags_from_axis(1.0, 0.8));
    assert!(mask.contains(TransmittableAction::MoveForward));
    assert!(mask.contains(TransmittableAction::MoveRight));
}

#[test]
fn toggle_fly_is_edge_triggered() {
    let flags = InputFlags { toggle_fly: true, ..no_input() };
    let mask = action_mask_from_input_flags(&flags);
    assert!(mask.contains(TransmittableAction::ToggleFlyMode));
}

#[test]
fn test_action_mask_contains() {
    let mut mask = ActionMask::default();
    mask.insert(TransmittableAction::MoveForward);
    assert!(mask.contains(TransmittableAction::MoveForward));
    assert!(!mask.contains(TransmittableAction::MoveBackward));
}

#[test]
fn action_bits_follow_declaration_order() {
    let all = [
        TransmittableAction::MoveForward,
        TransmittableAction::MoveBackward,
        TransmittableAction::MoveLeft,
        TransmittableAction::MoveRight,
        TransmittableAction::JumpOrFlyUp,
        TransmittableAction::CrouchOrFlyDown,
        TransmittableAction::ToggleFlyMode,
        TransmittableAction::Hit,
        TransmittableAction::Modify,
    ];
    for (i, a) in all.iter().enumerate() {
        assert_eq!(a.bit() as usize, i);
        let mut m = ActionMask::default();
        m.insert(*a);
        assert_eq!(m.0, 1 << i);
        // Inserting twice changes nothing.
        m.insert(*a);
        assert_eq!(m.0, 1 << i);
    }
    let mut m = ActionMask::default();
    m.insert(TransmittableAction::Hit);
    m.insert(TransmittableAction::MoveLeft);
    assert_eq!(m, ActionMask(0b1000_0100));
}

#[test]
fn dead_zone_and_opposite_directions() {
    let mask = action_mask_from_input_flags(&flags_from_axis(0.1, -0.1));
    assert_eq!(mask, ActionMask(0));
    let mask = action_mask_from_input_flags(&flags_from_axis(-0.5, -0.5));
    assert!(mask.contains(TransmittableAction::MoveBackward));
    assert!(mask.contains(TransmittableAction::MoveLeft));
    // When both keys read as pressed, forward beats backward and right beats left.
    let both = InputFlags { forward: true, backward: true, right: true, left: true, ..no_input() };
    let mask = action_mask_from_input_flags(&both);
    assert!(mask.contains(TransmittableAction::MoveForward));
    assert!(!mask.contains(TransmittableAction::MoveBackward));
    assert!(mask.contains(TransmittableAction::MoveRight));
    assert!(!mask.contains(TransmittableAction::MoveLeft));
}

#[test]
fn buttons_map_to_their_actions() {
    let flags = InputFlags { jump: true, crouch: true, hit: true, modify: true, ..no_input() };
    let mask = action_mask_from_input_flags(&flags);
    assert_eq!(mask, ActionMask((1 << 4) | (1 << 5) | (1 << 7) | (1 << 8)));
}

#[test]
fn movement_axes_cancel_out() {
    let mut m = ActionMask::default();
    m.insert(TransmittableAction::MoveForward);
    m.insert(TransmittableAction::MoveLeft);
    m.insert(TransmittableAction::JumpOrFlyUp);
    assert_eq!(movement_axes(&m), MovementAxes { x: -1, z: 1, jump: true, crouch: false });
    m.insert(TransmittableAction::MoveBackward);
    m.insert(TransmittableAction::MoveRight);
    m.insert(TransmittableAction::CrouchOrFlyDown);
    assert_eq!(movement_axes(&m), MovementAxes { x: 0, z: 0, jump: true, crouch: true });
}

#[test]
fn fly_toggle_switches_modes() {
    let mut toggle = ActionMask::default();
    toggle.insert(TransmittableAction::ToggleFlyMode);
    assert_eq!(MovementMode::default(), MovementMode::Walking);
    assert_eq!(
        movement_mode_step(MovementMode::Walking, &toggle),
        ModeStep { movement_mode: MovementMode::Flying, reset_velocity: false }
    );
    // Landing resets the velocity.
    assert_eq!(
        movement_mode_step(MovementMode::Flying, &toggle),
        ModeStep { movement_mode: MovementMode::Walking, reset_velocity: true }
    );
    let idle = ActionMask::default();
    assert_eq!(
        movement_mode_step(MovementMode::Flying, &idle),
        ModeStep { movement_mode: MovementMode::Flying, reset_velocity: false }
    );
    assert_eq!(MovementMode::Walking.toggled().toggled(), MovementMode::Walking);
}
