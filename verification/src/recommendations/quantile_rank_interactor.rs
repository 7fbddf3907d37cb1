//! Recommending by quantile rank: which albums can be assessed, with what
//! weights, and which of the assessed are recommended.

use crate::albums::album_read_model::AlbumReadModel;
use crate::helpers::bounded_min_heap::{is_top_k, select_top, sorted_desc};
use crate::recommendations::types::{AlbumRecommendation, AlbumRecommendationSettings};
use vstd::prelude::*;

verus! {

/// Why an album is not assessed.
#[derive(Clone, Copy, Debug, PartialEq, Eq, Structural)]
pub enum RecommendationError {
    /// The album has fewer descriptors than an assessment needs.
    NotEnoughDescriptors,
}

/// The weights with which the parts of an assessment count. The novelty
/// score is the bit pattern of a 64-bit float; by default that of 0.2.
#[derive(Clone, Copy, Debug, PartialEq, Eq, Structural)]
pub struct QuantileRankAlbumAssessmentSettings {
    pub primary_genre_weight: u32,
    pub secondary_genre_weight: u32,
    pub descriptor_weight: u32,
    pub rating_weight: u32,
    pub rating_count_weight: u32,
    pub novelty_score: u64,
    pub descriptor_count_weight: u32,
    pub credit_tag_weight: u32,
}

impl Default for QuantileRankAlbumAssessmentSettings {
    fn default() -> (settings: Self)
        ensures
            settings == (QuantileRankAlbumAssessmentSettings {
                primary_genre_weight: 4,
                secondary_genre_weight: 2,
                descriptor_weight: 7,
                rating_weight: 2,
                rating_count_weight: 1,
                novelty_score: 0x3FC9_9999_9999_999A,
                descriptor_count_weight: 2,
                credit_tag_weight: 1,
            }),
    {
        QuantileRankAlbumAssessmentSettings {
            primary_genre_weight: 4,
            secondary_genre_weight: 2,
            descriptor_weight: 7,
            rating_weight: 2,
            rating_count_weight: 1,
            novelty_score: 0x3FC9_9999_9999_999A,
            descriptor_count_weight: 2,
            credit_tag_weight: 1,
        }
    }
}

/// The fewest descriptors with which an album can be assessed.
pub const MIN_DESCRIPTORS: usize = 5;

/// An album that can be assessed: one with five descriptors or more.
#[derive(Debug)]
pub struct QuantileRankAssessableAlbum(AlbumReadModel);

impl QuantileRankAssessableAlbum {
    /// The album.
    pub closed spec fn album(&self) -> AlbumReadModel {
        self.0
    }

    /// Admits an album to assessment if it has five descriptors or more.
    pub fn try_from(album_read_model: AlbumReadModel) -> (assessable: Result<
        Self,
        RecommendationError,
    >)
        ensures
            match assessable {
                Ok(a) => album_read_model@.descriptors.len() >= 5 && a.album() == album_read_model,
                Err(e) => album_read_model@.descriptors.len() < 5 && e
                    == RecommendationError::NotEnoughDescriptors,
            },
    {
        if album_read_model.descriptors.len() < MIN_DESCRIPTORS {
            return Err(RecommendationError::NotEnoughDescriptors);
        }
        Ok(QuantileRankAssessableAlbum(album_read_model))
    }

    /// The album, by reference.
    pub fn get(&self) -> (album: &AlbumReadModel)
        ensures
            *album == self.album(),
    {
        &self.0
    }

    /// The album, handed back.
    pub fn into_inner(self) -> (album: AlbumReadModel)
        ensures
            album == self.album(),
    {
        self.0
    }
}

/// Selects recommendations among assessed albums.
#[derive(Clone, Copy, Debug)]
pub struct QuantileRankInteractor {}

impl QuantileRankInteractor {
    /// A selector.
    pub fn new() -> (interactor: Self) {
        QuantileRankInteractor {  }
    }

    /// The recommendations: of the assessed albums the `count` that score
    /// highest, the highest first.
    pub fn recommend_albums(
        &self,
        assessed: Vec<AlbumRecommendation>,
        recommendation_settings: AlbumRecommendationSettings,
    ) -> (recommendations: Vec<AlbumRecommendation>)
        ensures
            is_top_k(
                recommendations@.to_multiset(),
                assessed@.to_multiset(),
                recommendation_settings.count as nat,
            ),
            sorted_desc(recommendations@),
    {
        select_top(assessed, recommendation_settings.count as usize)
    }
}

} // verus!
