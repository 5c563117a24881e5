//! Keyframe animations: the timeline, playback, and export to a video.

pub mod config;
pub mod export;
pub mod laws;
pub mod panel;
pub mod video;
