//! Crawled files: their names, page types and freshness.

pub mod file_interactor;
pub mod file_metadata;
pub mod file_name;
