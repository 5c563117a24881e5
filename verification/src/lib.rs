//! The verified core of Brush's animation, depth, feature-extraction and
//! command-line tools.
//!
//! - [`anim`]: keyframe animations, the panel that edits and plays them, and
//!   their export to a video.
//! - [`depth`]: per-view depth maps.
//! - [`dino`]: feature extraction for a dataset.
//! - [`cli`]: the command line.
//!
//! Floating-point numbers are carried by their bit patterns ([`bits`]); where a
//! computation rounds, the caller supplies the arithmetic, and what is decided
//! here is what is computed from what, and in which order.

pub mod anim;
pub mod bits;
pub mod cli;
pub mod depth;
pub mod dino;
pub mod names;
pub mod sort;
pub mod text;
