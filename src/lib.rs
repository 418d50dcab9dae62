//! Wraps an iteration sequence and reports progress while it is consumed.
//!
//! The library decides what is shown and hands it out as bytes: `meter`
//! gives the text of one frame, `progress` the wrapper that passes the inner
//! sequence's items through and says which frames each pull emits.
pub mod meter;
pub mod progress;

pub use progress::{progress, Progress};
