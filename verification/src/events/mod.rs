//! The event streams that connect ingestion, parsing and indexing.

pub mod event;
pub mod event_subscriber;
