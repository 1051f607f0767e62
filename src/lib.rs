//! Directional tile lighting: which tiles of a grid a facing observer sees,
//! how bright each one is driven, how that brightness is smoothed over ticks,
//! and how it is dithered into a few displayed bands.

pub mod config;
pub mod chunks;
pub mod cone;
pub mod facing;
pub mod food;
pub mod grid;
pub mod scan;
pub mod shade;
