//! The character animation state machine: maps the player's velocity and the
//! frame's physics-contact information to one of a small set of named
//! animations, and advances a frame index on a repeating timer.

use vstd::prelude::*;

use crate::motion::{Contact, NormalVertical, Velocity};

verus! {

/// The named animations of the player character.
#[derive(Clone, Copy, Debug, PartialEq, Eq, Structural)]
pub enum AnimationType {
    Idle,
    Run,
    Jump,
    Fall,
}

/// A collision event the physics engine queued this frame. Only stopped
/// contacts matter to the animation rules, and only whether the engine set
/// any flags on them: an event without flags is a true separation of the two
/// bodies, not a sub-contact flag change.
#[derive(Clone, Copy, Debug, PartialEq, Eq, Structural)]
pub enum ContactEvent {
    Started,
    Stopped { flags_empty: bool },
}

/// The frame-index sequences of the animations, a closed lookup table keyed
/// by [`AnimationType`]. An animation the table does not carry cannot be
/// switched to; one it carries must have at least one frame.
pub struct AnimationTable {
    pub idle: Option<Vec<usize>>,
    pub run: Option<Vec<usize>>,
    pub jump: Option<Vec<usize>>,
    pub fall: Option<Vec<usize>>,
}

impl AnimationTable {
    /// The frame-index sequence the table holds for `t`, if any.
    pub open spec fn spec_frames(&self, t: AnimationType) -> Option<Seq<usize>> {
        let entry = match t {
            AnimationType::Idle => &self.idle,
            AnimationType::Run => &self.run,
            AnimationType::Jump => &self.jump,
            AnimationType::Fall => &self.fall,
        };
        match entry {
            Option::Some(v) => Option::Some(v@),
            Option::None => Option::None,
        }
    }

    /// Every sequence the table holds is non-empty, so a frame index can
    /// always be reduced modulo its length.
    pub open spec fn wf(&self) -> bool {
        forall|t: AnimationType|
            (#[trigger] self.spec_frames(t)).is_some() ==> self.spec_frames(t).unwrap().len() > 0
    }

    /// Whether the table holds an entry for `t`.
    pub fn has(&self, t: AnimationType) -> (r: bool)
        ensures
            r == self.spec_frames(t).is_some(),
    {
        let entry = match t {
            AnimationType::Idle => &self.idle,
            AnimationType::Run => &self.run,
            AnimationType::Jump => &self.jump,
            AnimationType::Fall => &self.fall,
        };
        entry.is_some()
    }

    /// The entry for `t`, which must be present.
    pub fn frames(&self, t: AnimationType) -> (r: &Vec<usize>)
        requires
            self.spec_frames(t).is_some(),
        ensures
            r@ == self.spec_frames(t).unwrap(),
    {
        let entry = match t {
            AnimationType::Idle => &self.idle,
            AnimationType::Run => &self.run,
            AnimationType::Jump => &self.jump,
            AnimationType::Fall => &self.fall,
        };
        match entry {
            Option::Some(v) => v,
            Option::None => unreached(),
        }
    }
}

/// The animation state of the player: the lookup table, the animation that
/// is playing, the index into its frame sequence, and whether a switch has
/// primed the timer so that the next tick fires immediately.
pub struct AnimationInfo {
    pub table: AnimationTable,
    pub current: AnimationType,
    pub index: usize,
    pub timer_primed: bool,
}

impl AnimationInfo {
    /// The playing animation is in the table and the frame index is valid
    /// for its sequence.
    pub open spec fn wf(&self) -> bool {
        &&& self.table.wf()
        &&& self.table.spec_frames(self.current).is_some()
        &&& self.index < self.table.spec_frames(self.current).unwrap().len()
    }

    /// Starts with `animation_type` playing from its first frame and an
    /// unprimed timer.
    pub fn new(table: AnimationTable, animation_type: AnimationType) -> (r: Self)
        requires
            table.wf(),
            table.spec_frames(animation_type).is_some(),
        ensures
            r.wf(),
            r.table == table,
            r.current == animation_type,
            r.index == 0,
            !r.timer_primed,
    {
        AnimationInfo { table, current: animation_type, index: 0, timer_primed: false }
    }

    /// Switches to `animation_type`: a no-op when it is already playing or
    /// the table has no entry for it; otherwise the frame index resets to 0
    /// and the timer is primed, so the new animation shows a frame
    /// immediately instead of waiting out a full timer period.
    pub fn set_animation(&mut self, animation_type: AnimationType)
        requires
            old(self).wf(),
        ensures
            final(self).wf(),
            *final(self) == spec_set_animation(*old(self), animation_type),
    {
        if animation_type == self.current {
            return ;
        }
        if !self.table.has(animation_type) {
            return ;
        }
        self.current = animation_type;
        self.index = 0;
        self.timer_primed = true;
    }
}

/// What [`AnimationInfo::set_animation`] does.
pub open spec fn spec_set_animation(a: AnimationInfo, t: AnimationType) -> AnimationInfo {
    if a.current == t {
        a
    } else if a.table.spec_frames(t).is_none() {
        a
    } else {
        AnimationInfo { table: a.table, current: t, index: 0, timer_primed: true }
    }
}

/// Some contact of the frame has a non-zero vertical normal component: the
/// player rests against something horizontal (or a slope), rather than only
/// touching walls or nothing.
pub open spec fn has_vertical_support(cs: Seq<Contact>) -> bool {
    exists|i: int| 0 <= i < cs.len() && (#[trigger] cs[i]).vertical != NormalVertical::Level
}

/// Some queued event is a stopped contact with no flags: a true separation
/// of two bodies this frame.
pub open spec fn has_true_separation(events: Seq<ContactEvent>) -> bool {
    exists|i: int|
        0 <= i < events.len() && #[trigger] events[i] == (ContactEvent::Stopped {
            flags_empty: true,
        })
}

/// Whether any contact in `contacts` has a non-zero vertical normal
/// component.
fn vertical_support(contacts: &Vec<Contact>) -> (r: bool)
    ensures
        r == has_vertical_support(contacts@),
{
    let mut i: usize = 0;
    while i < contacts.len()
        invariant
            0 <= i <= contacts@.len(),
            forall|j: int| 0 <= j < i ==> (#[trigger] contacts@[j]).vertical == NormalVertical::Level,
        decreases contacts@.len() - i,
    {
        if contacts[i].vertical != NormalVertical::Level {
            proof {
                assert(has_vertical_support(contacts@)) by {
                    assert(contacts@[i as int].vertical != NormalVertical::Level);
                }
            }
            return true;
        }
        i = i + 1;
    }
    false
}

/// Whether any queued event is a stopped contact with no flags.
fn true_separation(events: &Vec<ContactEvent>) -> (r: bool)
    ensures
        r == has_true_separation(events@),
{
    let mut i: usize = 0;
    while i < events.len()
        invariant
            0 <= i <= events@.len(),
            forall|j: int|
                0 <= j < i ==> #[trigger] events@[j] != (ContactEvent::Stopped {
                    flags_empty: true,
                }),
        decreases events@.len() - i,
    {
        let fires = match events[i] {
            ContactEvent::Stopped { flags_empty } => flags_empty,
            ContactEvent::Started => false,
        };
        if fires {
            proof {
                assert(has_true_separation(events@)) by {
                    assert(events@[i as int] == (ContactEvent::Stopped { flags_empty: true }));
                }
            }
            return true;
        }
        i = i + 1;
    }
    false
}

/// What [`AnimationInfo::idle_animation_trigger`] does: switch to Idle only
/// if neither Idle nor Jump is playing, horizontal velocity is exactly zero,
/// and some contact has a non-zero vertical normal component.
pub open spec fn spec_idle_trigger(a: AnimationInfo, v: Velocity, cs: Seq<Contact>) -> AnimationInfo {
    if a.current == AnimationType::Idle || a.current == AnimationType::Jump {
        a
    } else if v.x != 0 {
        a
    } else if has_vertical_support(cs) {
        spec_set_animation(a, AnimationType::Idle)
    } else {
        a
    }
}

/// What [`AnimationInfo::run_animation_trigger`] does: switch to Run only if
/// Jump is not playing, horizontal velocity is non-zero, and some contact
/// has a non-zero vertical normal component.
pub open spec fn spec_run_trigger(a: AnimationInfo, v: Velocity, cs: Seq<Contact>) -> AnimationInfo {
    if a.current == AnimationType::Jump {
        a
    } else if v.x == 0 {
        a
    } else if has_vertical_support(cs) {
        spec_set_animation(a, AnimationType::Run)
    } else {
        a
    }
}

/// What [`AnimationInfo::jump_animation_trigger`] does: switch to Jump only
/// if it is not already playing, some stopped-contact event with empty flags
/// fired, and vertical velocity is positive.
pub open spec fn spec_jump_trigger(
    a: AnimationInfo,
    v: Velocity,
    events: Seq<ContactEvent>,
) -> AnimationInfo {
    if a.current == AnimationType::Jump {
        a
    } else if has_true_separation(events) && v.y > 0 {
        spec_set_animation(a, AnimationType::Jump)
    } else {
        a
    }
}

/// What [`AnimationInfo::fall_animation_trigger`] does: switch to Fall only
/// if it is not already playing, vertical velocity is at most zero, and no
/// contact has a non-zero vertical normal component.
pub open spec fn spec_fall_trigger(a: AnimationInfo, v: Velocity, cs: Seq<Contact>) -> AnimationInfo {
    if a.current == AnimationType::Fall {
        a
    } else if v.y > 0 {
        a
    } else if has_vertical_support(cs) {
        a
    } else {
        spec_set_animation(a, AnimationType::Fall)
    }
}

impl AnimationInfo {
    /// Considers switching to the Idle animation for this frame.
    pub fn idle_animation_trigger(&mut self, velocity: &Velocity, contacts: &Vec<Contact>)
        requires
            old(self).wf(),
        ensures
            final(self).wf(),
            *final(self) == spec_idle_trigger(*old(self), *velocity, contacts@),
    {
        if self.current == AnimationType::Idle || self.current == AnimationType::Jump {
            return ;
        }
        if velocity.x != 0 {
            return ;
        }
        if vertical_support(contacts) {
            self.set_animation(AnimationType::Idle);
        }
    }

    /// Considers switching to the Run animation for this frame.
    pub fn run_animation_trigger(&mut self, velocity: &Velocity, contacts: &Vec<Contact>)
        requires
            old(self).wf(),
        ensures
            final(self).wf(),
            *final(self) == spec_run_trigger(*old(self), *velocity, contacts@),
    {
        if self.current == AnimationType::Jump {
            return ;
        }
        if velocity.x == 0 {
            return ;
        }
        if vertical_support(contacts) {
            self.set_animation(AnimationType::Run);
        }
    }

    /// Considers switching to the Jump animation for this frame, from the
    /// collision events the engine queued.
    pub fn jump_animation_trigger(&mut self, velocity: &Velocity, events: &Vec<ContactEvent>)
        requires
            old(self).wf(),
        ensures
            final(self).wf(),
            *final(self) == spec_jump_trigger(*old(self), *velocity, events@),
    {
        if self.current == AnimationType::Jump {
            return ;
        }
        if velocity.y <= 0 {
            return ;
        }
        if true_separation(events) {
            self.set_animation(AnimationType::Jump);
        }
    }

    /// Considers switching to the Fall animation for this frame.
    pub fn fall_animation_trigger(&mut self, velocity: &Velocity, contacts: &Vec<Contact>)
        requires
            old(self).wf(),
        ensures
            final(self).wf(),
            *final(self) == spec_fall_trigger(*old(self), *velocity, contacts@),
    {
        if self.current == AnimationType::Fall {
            return ;
        }
        if velocity.y > 0 {
            return ;
        }
        if !vertical_support(contacts) {
            self.set_animation(AnimationType::Fall);
        }
    }

    /// Advances the playing animation by one frame when the repeating timer
    /// ticked over this frame (`ticked`), or immediately when a switch primed
    /// the timer. Returns the sprite-sheet cell to display, or `None` when
    /// the timer did not fire.
    pub fn animate_player(&mut self, ticked: bool) -> (cell: Option<usize>)
        requires
            old(self).wf(),
        ensures
            final(self).wf(),
            final(self).table == old(self).table,
            final(self).current == old(self).current,
            !final(self).timer_primed,
            old(self).timer_primed || ticked ==> {
                let frames = old(self).table.spec_frames(old(self).current).unwrap();
                &&& final(self).index as int == (old(self).index + 1) % (frames.len() as int)
                &&& cell == Option::Some(frames[final(self).index as int])
            },
            !(old(self).timer_primed || ticked) ==> *final(self) == *old(self) && cell
                == Option::<usize>::None,
    {
        if !(self.timer_primed || ticked) {
            return Option::None;
        }
        self.timer_primed = false;
        let frames = self.table.frames(self.current);
        let n = frames.len();
        self.index = (self.index + 1) % n;
        Option::Some(frames[self.index])
    }
}

/// Once the Jump animation is playing, neither the Idle trigger nor the Run
/// trigger overrides it, whatever the velocity and contacts of the frame:
/// both leave the animation state untouched.
pub proof fn lemma_jump_not_overridden(a: AnimationInfo, v: Velocity, cs: Seq<Contact>)
    requires
        a.current == AnimationType::Jump,
    ensures
        spec_idle_trigger(a, v, cs) == a,
        spec_run_trigger(a, v, cs) == a,
{
}

} // verus!
