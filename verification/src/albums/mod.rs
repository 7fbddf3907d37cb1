//! Albums: the search query language, the read model and the
//! consolidation of duplicates.

pub mod album_event_subscribers;
pub mod album_interactor;
pub mod album_read_model;
pub mod album_repository;
pub mod album_search_index;
pub mod duplicates;
pub mod rating_order;
