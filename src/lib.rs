//! A desktop companion driven by a randomised finite-state machine: a
//! countdown lock decides when the actor may change state, a selector picks
//! the next state, and an integer steering rule moves windows toward targets.

pub mod geometry;
pub mod bonnie;
pub mod random;
pub mod state;
pub mod movement;
pub mod behaviour;
pub mod media;
