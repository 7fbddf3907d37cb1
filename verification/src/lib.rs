//! Verified core of a music-metadata crawler: the bounded priority crawl
//! queue, the event fabric's ordering rules, the album read model with
//! duplicate consolidation, and top-K recommendation selection.

pub mod albums;
pub mod crawler;
pub mod events;
pub mod files;
pub mod helpers;
pub mod parser;
pub mod recommendations;
