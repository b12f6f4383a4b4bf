//! Interactive core of a 2D puzzle-platformer: a global game-mode state
//! machine, a door/riddle puzzle subsystem, and a character locomotion and
//! animation state machine driven by physics contact information.
//!
//! The engine around this library (rendering, physics simulation, asset
//! loading, the frame loop) is an external collaborator. Each frame it drains
//! its input and contact event queues, converts them to the plain values these
//! modules take, and applies the actions they return.

pub mod animation;
pub mod mode;
pub mod motion;
pub mod registry;
pub mod riddles;
