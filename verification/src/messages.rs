use vstd::prelude::*;

verus! {

/// Player actions sent from client to server.
#[derive(PartialEq, Eq, Structural, Hash, Debug, Clone, Copy)]
pub enum TransmittableAction {
    MoveForward,
    MoveBackward,
    MoveLeft,
    MoveRight,
    JumpOrFlyUp,
    CrouchOrFlyDown,
    ToggleFlyMode,
    Hit,
    Modify,
}

/// Bit position of an action in an `ActionMask` (its declaration order).
pub open spec fn spec_action_bit(a: TransmittableAction) -> u16 {
    match a {
        TransmittableAction::MoveForward => 0,
        TransmittableAction::MoveBackward => 1,
        TransmittableAction::MoveLeft => 2,
        TransmittableAction::MoveRight => 3,
        TransmittableAction::JumpOrFlyUp => 4,
        TransmittableAction::CrouchOrFlyDown => 5,
        TransmittableAction::ToggleFlyMode => 6,
        TransmittableAction::Hit => 7,
        TransmittableAction::Modify => 8,
    }
}

impl TransmittableAction {
    /// Bit position of the action in an `ActionMask`.
    pub fn bit(&self) -> (r: u16)
        ensures
            r == spec_action_bit(*self),
            r < 9,
    {
        match self {
            TransmittableAction::MoveForward => 0,
            TransmittableAction::MoveBackward => 1,
            TransmittableAction::MoveLeft => 2,
            TransmittableAction::MoveRight => 3,
            TransmittableAction::JumpOrFlyUp => 4,
            TransmittableAction::CrouchOrFlyDown => 5,
            TransmittableAction::ToggleFlyMode => 6,
            TransmittableAction::Hit => 7,
            TransmittableAction::Modify => 8,
        }
    }
}

/// Whether bit `b` of a mask word is set.
pub open spec fn spec_bit_set(m: u16, b: u16) -> bool {
    m & (1u16 << b) != 0
}

/// Bitflag representation of player actions for compact storage and fast checks.
#[derive(PartialEq, Eq, Structural, Debug, Clone, Copy)]
pub struct ActionMask(pub u16);

impl ActionMask {
    /// The actions the mask holds.
    pub open spec fn view(&self) -> Set<TransmittableAction> {
        Set::new(|a: TransmittableAction| spec_bit_set(self.0, spec_action_bit(a)))
    }

    pub open spec fn spec_contains(&self, a: TransmittableAction) -> bool {
        spec_bit_set(self.0, spec_action_bit(a))
    }

    /// Sets the bit of `action`.
    pub fn insert(&mut self, action: TransmittableAction)
        ensures
            final(self).0 == old(self).0 | (1u16 << spec_action_bit(action)),
            final(self)@ == old(self)@.insert(action),
    {
        let b = action.bit();
        let ghost m = self.0;
        self.0 = self.0 | (1u16 << b);
        proof {
            assert forall|a: TransmittableAction| #[trigger] self@.contains(a) == old(self)@.insert(action).contains(a) by {
                let c = spec_action_bit(a);
                let n = self.0;
                assert(c < 9);
                assert(n == m | (1u16 << b));
                assert(b < 16u16 && c < 16u16 && n == m | (1u16 << b) ==>
                    ((n & (1u16 << c) != 0) == (c == b || m & (1u16 << c) != 0))) by (bit_vector);
            }
            assert(self@ =~= old(self)@.insert(action));
        }
    }

    /// Whether the bit of `action` is set.
    pub fn contains(&self, action: TransmittableAction) -> (r: bool)
        ensures
            r == self@.contains(action),
            r == self.spec_contains(action),
    {
        let b = action.bit();
        (self.0 & (1u16 << b)) != 0
    }
}

impl Default for ActionMask {
    /// The empty mask.
    fn default() -> (r: ActionMask)
        ensures
            r.0 == 0,
            r@ == Set::<TransmittableAction>::empty(),
    {
        let r = ActionMask(0);
        assert forall|a: TransmittableAction| !#[trigger] r@.contains(a) by {
            let b = spec_action_bit(a);
            assert(0u16 & (1u16 << b) == 0) by (bit_vector);
        }
        assert(r@ =~= Set::<TransmittableAction>::empty());
        r
    }
}

/// Digital reading of the player's input devices for one frame: which way
/// the movement stick or keys point (after the dead zone), and which buttons
/// are held (`toggle_fly` is true only on the frame its button goes down).
#[derive(PartialEq, Eq, Structural, Debug, Clone, Copy)]
pub struct InputFlags {
    pub forward: bool,
    pub backward: bool,
    pub right: bool,
    pub left: bool,
    pub jump: bool,
    pub crouch: bool,
    pub toggle_fly: bool,
    pub hit: bool,
    pub modify: bool,
}

/// The actions of one frame of input: forward wins over backward and right
/// over left when both are read.
pub open spec fn spec_actions_of_flags(f: InputFlags) -> Set<TransmittableAction> {
    Set::new(|a: TransmittableAction| match a {
        TransmittableAction::MoveForward => f.forward,
        TransmittableAction::MoveBackward => !f.forward && f.backward,
        TransmittableAction::MoveRight => f.right,
        TransmittableAction::MoveLeft => !f.right && f.left,
        TransmittableAction::JumpOrFlyUp => f.jump,
        TransmittableAction::CrouchOrFlyDown => f.crouch,
        TransmittableAction::ToggleFlyMode => f.toggle_fly,
        TransmittableAction::Hit => f.hit,
        TransmittableAction::Modify => f.modify,
    })
}

/// Converts one frame of input into the action mask sent to the server.
pub fn action_mask_from_input_flags(flags: &InputFlags) -> (r: ActionMask)
    ensures
        r@ == spec_actions_of_flags(*flags),
{
    let mut mask = ActionMask::default();
    if flags.forward {
        mask.insert(TransmittableAction::MoveForward);
    } else if flags.backward {
        mask.insert(TransmittableAction::MoveBackward);
    }
    if flags.right {
        mask.insert(TransmittableAction::MoveRight);
    } else if flags.left {
        mask.insert(TransmittableAction::MoveLeft);
    }
    if flags.jump {
        mask.insert(TransmittableAction::JumpOrFlyUp);
    }
    if flags.crouch {
        mask.insert(TransmittableAction::CrouchOrFlyDown);
    }
    if flags.toggle_fly {
        mask.insert(TransmittableAction::ToggleFlyMode);
    }
    if flags.hit {
        mask.insert(TransmittableAction::Hit);
    }
    if flags.modify {
        mask.insert(TransmittableAction::Modify);
    }
    assert(mask@ =~= spec_actions_of_flags(*flags));
    mask
}

/// Inserting an action makes the mask contain it and changes no other action;
/// inserting twice is the same as inserting once.
pub proof fn lemma_insert_contains(m: ActionMask, a: TransmittableAction, b: TransmittableAction)
    ensures
        ActionMask(m.0 | (1u16 << spec_action_bit(a))).spec_contains(b)
            == (a == b || m.spec_contains(b)),
        (m.0 | (1u16 << spec_action_bit(a))) | (1u16 << spec_action_bit(a))
            == m.0 | (1u16 << spec_action_bit(a)),
{
    let x = m.0;
    let ia = spec_action_bit(a);
    let ib = spec_action_bit(b);
    assert(ia < 16u16 && ib < 16u16 ==> (((x | (1u16 << ia)) & (1u16 << ib) != 0) == (ia == ib || x & (1u16 << ib) != 0))) by (bit_vector);
    assert((x | (1u16 << ia)) | (1u16 << ia) == x | (1u16 << ia)) by (bit_vector);
}

/// Each action has its own bit.
pub proof fn lemma_action_bits_distinct(a: TransmittableAction, b: TransmittableAction)
    ensures
        spec_action_bit(a) == spec_action_bit(b) <==> a == b,
        spec_action_bit(a) < 9,
{
}

} // verus!
