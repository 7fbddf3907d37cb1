use lute_core::albums::album_read_model::AlbumReadModel;
use lute_core::files::file_name::FileName;
use lute_core::helpers::bounded_min_heap::{select_top, BoundedMinHeap};
use lute_core::recommendations::quantile_rank_interactor::{
    QuantileRankAlbumAssessmentSettings, QuantileRankAssessableAlbum, QuantileRankInteractor,
    RecommendationError,
};
use lute_core::recommendations::types::{
    AlbumAssessment, AlbumRecommendation, AlbumRecommendationSettings,
};

fn album(file_name: &str, descriptors: usize) -> AlbumReadModel {
    AlbumReadModel {
        name: file_name.to_string(),
        file_name: FileName::new(file_name.to_string()),
        rating: 0,
        rating_count: 0,
        artists: vec![],
        primary_genres: vec![],
        secondary_genres: vec![],
        descriptors: (0..descriptors).map(|i| format!("d{}", i)).collect(),
        tracks: vec![],
        release_date: None,
        languages: vec![],
        credits: vec![],
        duplicate_of: None,
        duplicates: vec![],
        cover_image_url: None,
    }
}

fn recommendation(file_name: &str, score: f32) -> AlbumRecommendation {
    AlbumRecommendation {
        album: album(file_name, 5),
        assessment: AlbumAssessment { score: score.to_bits(), metadata: None },
    }
}

#[test]
fn the_five_best_of_a_thousand_are_recommended_best_first() {
    let mut assessed = Vec::new();
    // fed in an order that is neither rising nor falling
    for i in 0..1000u32 {
        let rank = (i * 7919) % 1000 + 1;
        assessed.push(recommendation(&format!("album/{}", rank), rank as f32 / 1000.0));
    }
    let top = QuantileRankInteractor::new().recommend_albums(assessed, AlbumRecommendationSettings { count: 5 });
    let names: Vec<String> = top.iter().map(|r| r.album.file_name.to_string()).collect();
    assert_eq!(names, vec!["album/1000", "album/999", "album/998", "album/997", "album/996"]);
    let scores: Vec<f32> = top.iter().map(|r| f32::from_bits(r.assessment.score)).collect();
    assert_eq!(scores, vec![1.0, 0.999, 0.998, 0.997, 0.996]);
}

#[test]
fn fewer_candidates_than_asked_for_are_all_recommended() {
    let assessed = vec![recommendation("a", 0.1), recommendation("b", 0.9), recommendation("c", 0.5)];
    let top = QuantileRankInteractor::new().recommend_albums(assessed, AlbumRecommendationSettings { count: 10 });
    let names: Vec<String> = top.iter().map(|r| r.album.file_name.to_string()).collect();
    assert_eq!(names, vec!["b", "c", "a"]);
    let none = QuantileRankInteractor::new().recommend_albums(vec![recommendation("a", 0.1)], AlbumRecommendationSettings { count: 0 });
    assert!(none.is_empty());
    assert!(QuantileRankInteractor::new().recommend_albums(vec![], AlbumRecommendationSettings { count: 3 }).is_empty());
}

#[test]
fn selection_keeps_the_top_of_any_numbers() {
    assert_eq!(select_top(vec![3u64, 9, 1, 9, 4, 7], 3), vec![9, 9, 7]);
    assert_eq!(select_top(vec![1u64, 2, 3], 0), Vec::<u64>::new());
    assert_eq!(select_top(Vec::<u64>::new(), 2), Vec::<u64>::new());
    assert_eq!(select_top(vec![5u32, 5, 5], 2), vec![5, 5]);
    let mut heap: BoundedMinHeap<u64> = BoundedMinHeap::new(2);
    for x in [10u64, 20, 30, 5] {
        heap.push(x);
    }
    assert_eq!(heap.pop(), Some(20));
    assert_eq!(heap.pop(), Some(30));
}

#[test]
fn an_album_needs_five_descriptors_to_be_assessed() {
    assert_eq!(
        QuantileRankAssessableAlbum::try_from(album("a", 4)).err(),
        Some(RecommendationError::NotEnoughDescriptors)
    );
    assert_eq!(
        QuantileRankAssessableAlbum::try_from(album("a", 0)).err(),
        Some(RecommendationError::NotEnoughDescriptors)
    );
    let assessable = QuantileRankAssessableAlbum::try_from(album("a", 5)).unwrap();
    assert_eq!(assessable.get().descriptors.len(), 5);
    assert_eq!(assessable.into_inner().file_name.to_string(), "a");
    assert!(QuantileRankAssessableAlbum::try_from(album("b", 12)).is_ok());
}

#[test]
fn the_default_weights_are_the_documented_ones() {
    let settings = QuantileRankAlbumAssessmentSettings::default();
    assert_eq!(settings.primary_genre_weight, 4);
    assert_eq!(settings.secondary_genre_weight, 2);
    assert_eq!(settings.descriptor_weight, 7);
    assert_eq!(settings.rating_weight, 2);
    assert_eq!(settings.rating_count_weight, 1);
    assert_eq!(settings.descriptor_count_weight, 2);
    assert_eq!(settings.credit_tag_weight, 1);
    assert_eq!(f64::from_bits(settings.novelty_score), 0.2);
}

#[test]
fn candidates_are_the_albums_the_listener_does_not_have() {
    let settings = AlbumRecommendationSettings { count: 5 };
    let query = settings.to_search_query(&vec![FileName::new("release/album/a".to_string()), FileName::new("b".to_string())]);
    assert_eq!(query.to_ft_search_query(), "@is_duplicate:[0, 0] -@file_name:{release\\/album\\/a|b}");
    assert_eq!(settings.to_search_query(&vec![]).to_ft_search_query(), "@is_duplicate:[0, 0]");
}

#[test]
fn heaps_fed_alike_end_alike() {
    let scores = [0.5f32, 0.5, 0.9, 0.5, 0.1, 0.9, 0.5, 0.5, 0.7, 0.5];
    let feed = || -> Vec<AlbumRecommendation> {
        scores.iter().enumerate().map(|(i, score)| recommendation(&format!("album/{}", i), *score)).collect()
    };
    let mut first: BoundedMinHeap<AlbumRecommendation> = BoundedMinHeap::new(4);
    let mut second: BoundedMinHeap<AlbumRecommendation> = BoundedMinHeap::new(4);
    for item in feed() {
        first.push(item);
    }
    for item in feed() {
        second.push(item);
    }
    let mut fed = Vec::new();
    while let (Some(a), Some(b)) = (first.pop(), second.pop()) {
        assert_eq!(a.album.file_name.to_string(), b.album.file_name.to_string());
        assert_eq!(a.assessment.score, b.assessment.score);
        fed.push(a.album.file_name.to_string());
    }
    assert_eq!(fed.len(), 4);
    assert!(first.pop().is_none() && second.pop().is_none());
    let names = |top: Vec<AlbumRecommendation>| -> Vec<String> {
        top.iter().map(|r| r.album.file_name.to_string()).collect()
    };
    let once = names(select_top(feed(), 4));
    assert_eq!(once, names(select_top(feed(), 4)));
    let mut drained = fed.clone();
    drained.reverse();
    assert_eq!(once, drained);
    assert_eq!(&once[..2], ["album/5", "album/2"].map(String::from).as_slice());
}
