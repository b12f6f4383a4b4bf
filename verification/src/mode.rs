//! The top-level finite state machine of the game: which mode the running
//! session is in, and which transitions between modes are legal.

use vstd::prelude::*;

verus! {

/// The global game mode. Exactly one value is active at any time; every
/// transition goes through [`GameModeController::request`].
#[derive(Clone, Copy, Debug, PartialEq, Eq, Structural)]
pub enum GameMode {
    /// A level is being spawned; gameplay is suspended.
    LevelLoading,
    /// The player walks around the map.
    Exploring,
    /// A puzzle panel is open and keyboard input goes to the riddle.
    Solving,
}

/// The legal transitions of the mode machine:
/// `LevelLoading -> Exploring` when the map loader signals that a level has
/// fully spawned; `Exploring -> Solving` when an unsolved door is opened;
/// `Solving -> Exploring` on a correct answer or an explicit cancel; and
/// `Exploring -> LevelLoading` when a solved door warps to its next level.
pub open spec fn legal_transition(from: GameMode, to: GameMode) -> bool {
    ||| (from == GameMode::LevelLoading && to == GameMode::Exploring)
    ||| (from == GameMode::Exploring && to == GameMode::Solving)
    ||| (from == GameMode::Solving && to == GameMode::Exploring)
    ||| (from == GameMode::Exploring && to == GameMode::LevelLoading)
}

/// Holds the single active [`GameMode`] value. The field is private so that
/// the only mutation is [`GameModeController::request`], which refuses
/// illegal transitions as a no-op rather than an error.
pub struct GameModeController {
    mode: GameMode,
}

impl View for GameModeController {
    type V = GameMode;

    closed spec fn view(&self) -> GameMode {
        self.mode
    }
}

impl GameModeController {
    /// A fresh session starts with a level load.
    pub fn new() -> (r: Self)
        ensures
            r@ == GameMode::LevelLoading,
    {
        GameModeController { mode: GameMode::LevelLoading }
    }

    /// The currently active mode.
    pub fn current(&self) -> (m: GameMode)
        ensures
            m == self@,
    {
        self.mode
    }

    /// Requests a transition to `target`. The mode changes exactly when the
    /// transition is legal from the current mode; otherwise nothing happens.
    pub fn request(&mut self, target: GameMode)
        ensures
            final(self)@ == if legal_transition(old(self)@, target) {
                target
            } else {
                old(self)@
            },
    {
        let accept = match (self.mode, target) {
            (GameMode::LevelLoading, GameMode::Exploring) => true,
            (GameMode::Exploring, GameMode::Solving) => true,
            (GameMode::Solving, GameMode::Exploring) => true,
            (GameMode::Exploring, GameMode::LevelLoading) => true,
            _ => false,
        };
        if accept {
            self.mode = target;
        }
    }
}

} // verus!
