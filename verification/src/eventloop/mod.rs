//! The event loop: processing flags and the per-event decisions.

pub mod event_manager;
pub mod flags;
