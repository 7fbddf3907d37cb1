//! Recommendations: what is assessed, and how the best are selected.

pub mod quantile_rank_interactor;
pub mod types;
