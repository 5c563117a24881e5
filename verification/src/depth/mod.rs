//! Per-view depth maps: decoding, masking and resizing.

pub mod bilinear;
pub mod directory;
pub mod load;
pub mod paths;
