//! Planning, bookkeeping and stitching for chunked transcription of long
//! recordings.
//!
//! A recording is cut into overlapping windows, every window is transcribed
//! on one worker of a fixed pool, and the per-window results are merged into
//! one transcript ordered by time. All times are whole milliseconds.

pub mod aggregate;
pub mod dispatch;
pub mod locate;
pub mod ordering;
pub mod planner;
pub mod pool;
pub mod protocol;
pub mod segment;
pub mod subtitle;
pub mod task;
pub mod text;
pub mod timecode;
