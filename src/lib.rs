//! A diagonal colour sweep over a block of ASCII art.
//!
//! The library decides everything the animation shows: which colour each
//! character cell gets at a given sweep time, how the palettes rotate after
//! each pass, which sweep times a pass visits, and when the animation stops.
//! Drawing to a terminal is left to the caller.

mod random;

pub mod animation;
pub mod cell;
pub mod image;
pub mod palette;
pub mod sweep;
pub mod text;
