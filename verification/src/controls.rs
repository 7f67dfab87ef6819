//! Movement keys and The Hanged Man's curse, which inverts every control
//! on its level.

use vstd::prelude::*;

verus! {

/// The movement and turning keys held in one frame.
#[derive(Clone, Copy, PartialEq, Eq, Structural, Debug)]
pub struct MoveKeys {
    pub forward: bool,
    pub back: bool,
    pub strafe_left: bool,
    pub strafe_right: bool,
    pub turn_left: bool,
    pub turn_right: bool,
}

/// The keys as the player means them once the curse is applied: when
/// `inverted`, forward and back, the two strafes and the two turns trade
/// places; otherwise nothing changes.
pub open spec fn cursed(keys: MoveKeys, inverted: bool) -> MoveKeys {
    if inverted {
        MoveKeys {
            forward: keys.back,
            back: keys.forward,
            strafe_left: keys.strafe_right,
            strafe_right: keys.strafe_left,
            turn_left: keys.turn_right,
            turn_right: keys.turn_left,
        }
    } else {
        keys
    }
}

/// Applies the curse of an inverted level to the keys held.
pub fn apply_curse(keys: MoveKeys, inverted: bool) -> (k: MoveKeys)
    ensures
        k == cursed(keys, inverted),
{
    if inverted {
        MoveKeys {
            forward: keys.back,
            back: keys.forward,
            strafe_left: keys.strafe_right,
            strafe_right: keys.strafe_left,
            turn_left: keys.turn_right,
            turn_right: keys.turn_left,
        }
    } else {
        keys
    }
}

/// Inverting twice gives back the keys held.
pub proof fn lemma_curse_involution(keys: MoveKeys, inverted: bool)
    ensures
        cursed(cursed(keys, inverted), inverted) == keys,
{
}

/// Under the curse every control trades places with its own opposite —
/// forward with back, strafe left with strafe right, turn left with turn
/// right — and without it every key means what it says.
pub proof fn lemma_curse_swaps_opposites(keys: MoveKeys)
    ensures
        cursed(keys, true).forward == keys.back,
        cursed(keys, true).back == keys.forward,
        cursed(keys, true).strafe_left == keys.strafe_right,
        cursed(keys, true).strafe_right == keys.strafe_left,
        cursed(keys, true).turn_left == keys.turn_right,
        cursed(keys, true).turn_right == keys.turn_left,
        cursed(keys, false) == keys,
{
}

} // verus!
