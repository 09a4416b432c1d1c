//! Clipper-style primitives: solid blocks and hard shadows.

pub mod label;
pub mod button;
pub mod canvas;
pub mod icons;
pub mod icons20;
pub mod separator;
pub mod title;
pub mod window;
pub mod scrollbar;
pub mod shadow;
