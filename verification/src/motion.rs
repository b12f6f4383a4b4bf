//! Locomotion: turns held-key input and the frame's physics contacts into the
//! player's velocity and facing.
//!
//! The physics engine reports, for each touching pair of bodies, a contact
//! manifold with a unit surface normal. The locomotion and animation rules
//! only ever test the normal's vertical component against `1`, `-1` and `0`,
//! so the library keeps just that classification of each manifold.

use vstd::prelude::*;

verus! {

/// Horizontal speed given to the player while a run key is held.
pub const RUN_POWER: i32 = 100;

/// Vertical speed given to the player at the moment of a jump.
pub const JUMP_POWER: i32 = 250;

/// The class of a contact normal's vertical component.
#[derive(Clone, Copy, Debug, PartialEq, Eq, Structural)]
pub enum NormalVertical {
    /// The vertical component is exactly `1`.
    Up,
    /// The vertical component is exactly `-1`.
    Down,
    /// The vertical component is exactly `0`: a pure side contact.
    Level,
    /// The vertical component is strictly between `0` and `1` in magnitude.
    Tilted,
}

/// One contact manifold involving the player, as the physics engine reports
/// it for the current frame.
#[derive(Clone, Copy, Debug, PartialEq, Eq, Structural)]
pub struct Contact {
    /// Whether the other body carries the ground tag.
    pub ground: bool,
    /// Whether the engine listed the player as the first body of the pair.
    /// The reported normal is oriented relative to the first body.
    pub first_is_player: bool,
    /// The class of the normal's vertical component.
    pub vertical: NormalVertical,
}

/// The player's velocity vector.
#[derive(Clone, Copy, Debug, PartialEq, Eq, Structural)]
pub struct Velocity {
    pub x: i32,
    pub y: i32,
}

/// A resting contact: the normal's vertical component is `1` or `-1`,
/// support from below or above rather than a side collision.
pub open spec fn is_resting(v: NormalVertical) -> bool {
    v == NormalVertical::Up || v == NormalVertical::Down
}

/// Whether one contact lets the player jump off it: the other body is
/// ground-tagged and the contact is a resting one. The engine may orient the
/// normal either way depending on which body is first in the pair, so a
/// downward normal counts only when the player is the first body, while an
/// upward normal always counts.
pub open spec fn supports_jump(c: Contact) -> bool {
    c.ground && is_resting(c.vertical) && (c.vertical == NormalVertical::Up || c.first_is_player)
}

/// Whether any contact of the frame lets the player jump.
pub open spec fn some_jump_support(cs: Seq<Contact>) -> bool {
    exists|i: int| 0 <= i < cs.len() && supports_jump(#[trigger] cs[i])
}

/// Computes the player's velocity and facing for this frame.
///
/// Horizontal: a held right key sets `x` to `RUN_POWER` and faces the sprite
/// right; otherwise a held left key sets `-RUN_POWER` and faces it left;
/// neither sets `0` and leaves the facing as it was. Right takes priority
/// when both are held.
///
/// Vertical: `y` becomes `JUMP_POWER` exactly when the up key is held and
/// some contact of this frame supports a jump; otherwise `y` is left to the
/// physics simulation.
pub fn player_movement(
    left: bool,
    right: bool,
    up: bool,
    contacts: &Vec<Contact>,
    velocity: &mut Velocity,
    flip_x: &mut bool,
)
    ensures
        final(velocity).x as int == if right {
            RUN_POWER as int
        } else if left {
            -(RUN_POWER as int)
        } else {
            0
        },
        *final(flip_x) == if right {
            false
        } else if left {
            true
        } else {
            *old(flip_x)
        },
        final(velocity).y == if up && some_jump_support(contacts@) {
            JUMP_POWER
        } else {
            old(velocity).y
        },
{
    velocity.x = if right {
        *flip_x = false;
        RUN_POWER
    } else if left {
        *flip_x = true;
        -RUN_POWER
    } else {
        0
    };

    if up {
        let mut i: usize = 0;
        while i < contacts.len()
            invariant
                up,
                0 <= i <= contacts@.len(),
                forall|j: int| 0 <= j < i ==> !supports_jump(#[trigger] contacts@[j]),
                velocity.x == if right {
                    RUN_POWER as int
                } else if left {
                    -(RUN_POWER as int)
                } else {
                    0
                },
                *flip_x == if right {
                    false
                } else if left {
                    true
                } else {
                    *old(flip_x)
                },
                velocity.y == old(velocity).y,
            decreases contacts@.len() - i,
        {
            let c = contacts[i];
            if c.ground && ((c.first_is_player && c.vertical == NormalVertical::Down)
                || c.vertical == NormalVertical::Up) {
                proof {
                    assert(some_jump_support(contacts@)) by {
                        assert(supports_jump(contacts@[i as int]));
                    }
                }
                velocity.y = JUMP_POWER;
                return ;
            }
            i = i + 1;
        }
    }
}

/// A purely side contact never supports a jump, even with the up key held:
/// if every contact of the frame has a level normal, no jump support exists.
pub proof fn lemma_side_contacts_never_jump(cs: Seq<Contact>)
    requires
        forall|i: int| 0 <= i < cs.len() ==> (#[trigger] cs[i]).vertical == NormalVertical::Level,
    ensures
        !some_jump_support(cs),
{
}

/// A contact with a body that is not ground-tagged never supports a jump,
/// whatever its normal: if no contact of the frame is with ground, no jump
/// support exists.
pub proof fn lemma_nonground_contacts_never_jump(cs: Seq<Contact>)
    requires
        forall|i: int| 0 <= i < cs.len() ==> !(#[trigger] cs[i]).ground,
    ensures
        !some_jump_support(cs),
{
}

} // verus!
