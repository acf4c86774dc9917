//! Bitmap-font text layout and the input event model of a small 2D drawing library.
//!
//! Glyph atlases ("sheets") are resolved character by character, lines are measured and
//! wrapped, and laid-out text comes back as a list of glyph draw commands that a quad
//! renderer can issue one by one. All geometry is integer fixed point: lengths are in
//! whatever unit the caller picks, fractions are counted in units of [`font::FRAC_ONE`].

pub mod error;
pub mod input;
pub mod laws;
pub mod layout;
pub mod queue;
pub mod text;
pub mod font;
