//! Sequencer for motorized window dressings (roller and venetian blinds).
//!
//! The library turns discrete position and tilt commands into an ordered
//! queue of timed, fixed-pulse-width servo instructions, reconciles that
//! plan against end-of-travel feedback, and encodes the last known physical
//! state for persistence across restarts.

pub mod conf;
pub mod feedback;
pub mod persist;
pub mod sequencer;
pub mod state;
