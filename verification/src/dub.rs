//! The spoken translation: which lines are spoken, by whom, with which attempts, and where they go.

pub mod ladder;
pub mod lines;
pub mod mixing;
pub mod samples;
pub mod similarity;
pub mod slots;
pub mod takes;
pub mod timeline;
pub mod track;
pub mod voices;
