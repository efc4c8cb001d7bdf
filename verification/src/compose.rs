//! Putting together what is drawn over the picture: the titles with their places, the areas to blur, the
//! look of the subtitles.

pub mod blocks;
pub mod blur;
pub mod reading;
pub mod style;
