//! Beat-driven pulse: a lock-free sample channel from an audio capture
//! callback to an analysis loop, which cuts the samples into overlapping
//! windows, hands them to an onset detector and keeps a decaying pulse.
//!
//! Samples and detector values are carried as IEEE-754 single-precision bit
//! patterns (`u32`); the detector itself and the conversion to and from
//! those bits live with the caller.
pub mod channel;
pub mod pulse;
pub mod settings;
pub mod stream;
pub mod analysis;
