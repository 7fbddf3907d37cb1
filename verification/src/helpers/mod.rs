//! Building blocks shared by the other modules.

pub mod bounded_min_heap;
pub mod redisearch;
pub mod text;
