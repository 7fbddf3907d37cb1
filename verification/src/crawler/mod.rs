//! The crawl queue and the rules by which work enters it.

pub mod crawler_interactor;
pub mod priority_queue;
