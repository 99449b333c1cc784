//! Verified core of a global input-event tracker.
//!
//! A capture loop normalizes raw keyboard and pointer events into uniform
//! records, encodes each record as one row of an append-only six-column log,
//! and forwards a human-readable summary line towards an observer that renders
//! a rolling window of recent activity. Everything that decides or computes is
//! here and verified; the platform hook, the log file, and the window live in
//! the surrounding application.

pub mod decimal;
pub mod events;
pub mod record;
pub mod pipeline;
pub mod relay;
pub mod rowcodec;
pub mod sink;
mod strutil;
pub mod tracker;
pub mod view;

pub use decimal::u64_to_dec;
