//! The characters of a film: who speaks, how they look and sound.

pub mod avatar;
pub mod clusters;
pub mod notes;
pub mod ranking;
pub mod relabel;
