//! Verified core of an MP3-to-M4B audiobook conversion pipeline.
//!
//! The library plans chapters from probed track durations, renders the
//! chapter/metadata descriptor consumed by the external muxing tool, builds
//! the tool's argument vector, and decides success or failure from the tool's
//! exit status. All time arithmetic is carried out in integer milliseconds,
//! the granularity the descriptor grammar declares.

pub mod args;
pub mod chapters;
pub mod cover;
pub mod descriptor;
pub mod duration;
pub mod errors;
pub mod metadata;
pub mod pipeline;
pub mod runner;
pub mod text;

