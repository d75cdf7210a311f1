//! Reduces a stream of activity-monitor events into time-bucketed activity
//! summaries: events are assembled into snapshots, snapshots are split into
//! calendar-aligned chunks, and each chunk is summarized into ranked
//! per-window tick counts with idle, busy and untracked accounting.

pub mod assembly;
pub mod chunking;
pub mod cli;
pub mod clock;
pub mod error;
pub mod record;
pub mod summary;
