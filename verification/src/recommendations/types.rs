//! What a recommendation is made of.

use crate::albums::album_read_model::AlbumReadModel;
use crate::albums::album_search_index::{AlbumSearchQuery, AlbumSearchQueryView};
use crate::crawler::priority_queue::Metadata;
use crate::files::file_name::FileName;
use crate::helpers::bounded_min_heap::Scored;
use vstd::prelude::*;

verus! {

/// How many albums to recommend.
#[derive(Clone, Copy, Debug)]
pub struct AlbumRecommendationSettings {
    pub count: u32,
}

impl AlbumRecommendationSettings {
    /// The query for the candidates: every album that is no duplicate and
    /// not among those the listener already has.
    pub fn to_search_query(&self, profile_albums: &Vec<FileName>) -> (query: AlbumSearchQuery)
        ensures
            query@ == (AlbumSearchQueryView {
                exclude_file_names: profile_albums.deep_view(),
                ..AlbumSearchQuery::new_spec()
            }),
    {
        let mut query = AlbumSearchQuery::new();
        let mut excluded: Vec<FileName> = Vec::new();
        let mut i: usize = 0;
        while i < profile_albums.len()
            invariant
                i <= profile_albums.len(),
                excluded.len() == i,
                forall|j: int| 0 <= j < i ==> excluded@[j]@ == profile_albums@[j]@,
            decreases profile_albums.len() - i,
        {
            excluded.push(profile_albums[i].clone());
            i += 1;
        }
        assert(excluded.deep_view() =~= profile_albums.deep_view());
        query.exclude_file_names = excluded;
        query
    }
}

/// How well an album suits a listener. The score is the bit pattern of a
/// 32-bit float that is not negative; among such floats the bit patterns
/// are in the order of the numbers they stand for.
#[derive(Debug)]
pub struct AlbumAssessment {
    pub score: u32,
    pub metadata: Option<Metadata>,
}

/// An album with its assessment. Recommendations are ordered by their
/// scores alone.
#[derive(Debug)]
pub struct AlbumRecommendation {
    pub album: AlbumReadModel,
    pub assessment: AlbumAssessment,
}

impl Scored for AlbumRecommendation {
    open spec fn score_spec(&self) -> nat {
        self.assessment.score as nat
    }

    fn score(&self) -> (s: u64) {
        self.assessment.score as u64
    }
}

} // verus!
