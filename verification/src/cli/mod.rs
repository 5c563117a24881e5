//! The command line: arguments, rendering jobs, and what is shown of a running
//! process.

pub mod args;
pub mod jobs;
pub mod ui;
