use lute_core::albums::album_interactor::AlbumInteractor;
use lute_core::albums::album_read_model::{
    credit_tags, AlbumReadModel, AlbumReadModelArtist, AlbumReadModelCredit, RedisAlbumReadModel,
    ReleaseDate,
};
use lute_core::albums::album_repository::{
    AlbumEmbedding, AlbumError, AlbumRepository, ItemAndCount,
};
use lute_core::albums::duplicates::{
    follower_file_names, group_places, is_in_group, plan_duplicates, same_file_names,
    shares_artist_with, sort_file_names,
};
use lute_core::files::file_name::FileName;

fn file(name: &str) -> FileName {
    FileName::new(name.to_string())
}

fn album(file_name: &str, name: &str, artist: &str, rating_count: u32) -> AlbumReadModel {
    AlbumReadModel {
        name: name.to_string(),
        file_name: file(file_name),
        rating: 3.5f32.to_bits(),
        rating_count,
        artists: vec![AlbumReadModelArtist { name: artist.to_string(), file_name: file(artist) }],
        primary_genres: vec!["rock".to_string()],
        secondary_genres: vec![],
        descriptors: vec!["cold".to_string(), "dense".to_string()],
        tracks: vec![],
        release_date: Some(ReleaseDate { year: 2000, month: 10, day: 2 }),
        languages: vec!["en".to_string()],
        credits: vec![],
        duplicate_of: None,
        duplicates: vec![],
        cover_image_url: None,
    }
}

fn text_of(names: &[FileName]) -> Vec<String> {
    names.iter().map(|n| n.to_string()).collect()
}

fn duplicates_of(interactor: &AlbumInteractor, name: &str) -> Vec<String> {
    text_of(&interactor.repository().find(&file(name)).unwrap().duplicates)
}

fn original_of(interactor: &AlbumInteractor, name: &str) -> Option<String> {
    interactor.repository().find(&file(name)).unwrap().duplicate_of.as_ref().map(|n| n.to_string())
}

#[test]
fn derived_counts_follow_their_sources() {
    let mut a = album("release/album/kid-a", "Kid A", "artist/v", 100);
    a.duplicate_of = Some(file("release/album/kid-a-2"));
    a.credits = vec![
        AlbumReadModelCredit {
            artist: AlbumReadModelArtist { name: "Nigel".to_string(), file_name: file("artist/nigel") },
            roles: vec!["Producer".to_string(), "Mixing Engineer".to_string()],
        },
        AlbumReadModelCredit {
            artist: AlbumReadModelArtist { name: "Stanley".to_string(), file_name: file("artist/stanley") },
            roles: vec!["Cover Art".to_string()],
        },
    ];
    let document = RedisAlbumReadModel::from_album(a);
    assert_eq!(
        document.credit_tags,
        vec!["artist/nigel:producer", "artist/nigel:mixing_engineer", "artist/stanley:cover_art"]
    );
    assert_eq!(document.artist_count, 1);
    assert_eq!(document.primary_genre_count, 1);
    assert_eq!(document.secondary_genre_count, 0);
    assert_eq!(document.descriptor_count, 2);
    assert_eq!(document.language_count, 1);
    assert_eq!(document.credit_tag_count, 3);
    assert_eq!(document.release_year, Some(2000));
    assert_eq!(document.is_duplicate, 1);
    assert_eq!(document.name_tag, "Kid A");
    let back = document.into_album();
    assert_eq!(back.name, "Kid A");
    assert_eq!(back.rating_count, 100);
}

#[test]
fn an_album_without_original_and_date_is_no_duplicate_and_has_no_year() {
    let mut a = album("f", "N", "artist/v", 1);
    a.release_date = None;
    let document = RedisAlbumReadModel::from_album(a);
    assert_eq!(document.is_duplicate, 0);
    assert_eq!(document.release_year, None);
    assert_eq!(document.credit_tag_count, 0);
    let mut early = album("g", "N", "artist/v", 1);
    early.release_date = Some(ReleaseDate { year: -1, month: 1, day: 1 });
    assert_eq!(RedisAlbumReadModel::from_album(early).release_year, Some(4294967295));
}

#[test]
fn an_album_put_is_found_as_it_was_put() {
    let mut store = AlbumRepository::new();
    let mut a = album("release/album/kid-a", "Kid A", "artist/v", 100);
    a.cover_image_url = Some("http://img".to_string());
    a.duplicates = vec![file("x")];
    store.put(a);
    store.put(album("release/album/other", "Other", "artist/w", 5));
    let found = store.find(&file("release/album/kid-a")).unwrap();
    assert_eq!(found.name, "Kid A");
    assert_eq!(found.file_name.to_string(), "release/album/kid-a");
    assert_eq!(found.rating, 3.5f32.to_bits());
    assert_eq!(found.rating_count, 100);
    assert_eq!(found.artists.len(), 1);
    assert_eq!(found.artists[0].name, "artist/v");
    assert_eq!(found.primary_genres, vec!["rock".to_string()]);
    assert_eq!(found.descriptors.len(), 2);
    assert_eq!(found.release_date, Some(ReleaseDate { year: 2000, month: 10, day: 2 }));
    assert_eq!(found.languages, vec!["en".to_string()]);
    assert_eq!(found.cover_image_url, Some("http://img".to_string()));
    assert_eq!(text_of(&found.duplicates), vec!["x".to_string()]);
    assert!(found.duplicate_of.is_none());
    assert!(store.find(&file("release/album/none")).is_none());
    assert!(store.contains(&file("release/album/other")));
    assert!(!store.contains(&file("release/album/none")));
    assert_eq!(store.get(&file("release/album/none")).err(), Some(AlbumError::NotFound));
    assert_eq!(store.key(&file("a/b")), "album:a/b");
}

#[test]
fn putting_again_overwrites_and_keeps_embeddings() {
    let mut store = AlbumRepository::new();
    store.put(album("a", "First", "artist/v", 1));
    let embedding = AlbumEmbedding { file_name: file("a"), key: "k".to_string(), embedding: vec![7; 1536] };
    assert_eq!(store.put_embedding(embedding), Ok(()));
    store.put(album("a", "Second", "artist/v", 2));
    assert_eq!(store.albums().len(), 1);
    assert_eq!(store.find(&file("a")).unwrap().name, "Second");
    assert_eq!(store.get_embeddings(&file("a")).len(), 1);
    assert_eq!(store.find_embedding(&file("a"), "k").unwrap().embedding[0], 7);
    let again = AlbumEmbedding { file_name: file("a"), key: "k".to_string(), embedding: vec![9; 1536] };
    store.put_embedding(again).unwrap();
    assert_eq!(store.get_embeddings(&file("a")).len(), 1);
    assert_eq!(store.find_embedding(&file("a"), "k").unwrap().embedding[0], 9);
    assert!(store.find_embedding(&file("a"), "other").is_none());
    store.delete_embedding(&file("a"), "k");
    assert!(store.find_embedding(&file("a"), "k").is_none());
}

#[test]
fn an_embedding_of_another_size_is_refused() {
    let mut store = AlbumRepository::new();
    let short = AlbumEmbedding { file_name: file("a"), key: "k".to_string(), embedding: vec![0; 3] };
    assert_eq!(store.put_embedding(short), Err(AlbumError::InvalidEmbeddingSize));
    assert_eq!(store.get_embeddings(&file("a")).len(), 0);
}

#[test]
fn deleting_an_album_takes_its_embeddings_along() {
    let mut store = AlbumRepository::new();
    store.put(album("a", "A", "artist/v", 1));
    store.put(album("b", "B", "artist/v", 1));
    for (name, key) in [("a", "k1"), ("b", "k1"), ("a", "k2")] {
        store
            .put_embedding(AlbumEmbedding { file_name: file(name), key: key.to_string(), embedding: vec![1; 1536] })
            .unwrap();
    }
    store.delete(&file("a"));
    assert!(store.find(&file("a")).is_none());
    assert_eq!(store.get_embeddings(&file("a")).len(), 0);
    assert_eq!(store.get_embeddings(&file("b")).len(), 1);
    store.delete(&file("none"));
    assert_eq!(store.albums().len(), 1);
}

#[test]
fn many_albums_are_fetched_in_the_order_asked_for() {
    let mut store = AlbumRepository::new();
    store.put(album("a", "A", "artist/v", 1));
    store.put(album("b", "B", "artist/v", 1));
    let found = store.get_many(&vec![file("b"), file("none"), file("a"), file("b")]);
    let names: Vec<String> = found.iter().map(|a| a.name.clone()).collect();
    assert_eq!(names, vec!["B", "A", "B"]);
}

#[test]
fn three_albums_of_one_name_become_one_group() {
    let mut interactor = AlbumInteractor::new(AlbumRepository::new());
    interactor.put(album("release/album/kid-a-50", "Kid A", "artist/v", 50));
    assert!(duplicates_of(&interactor, "release/album/kid-a-50").is_empty());
    interactor.put(album("release/album/kid-a-100", "Kid A", "artist/v", 100));
    interactor.put(album("release/album/kid-a-10", "Kid A", "artist/v", 10));
    assert_eq!(
        duplicates_of(&interactor, "release/album/kid-a-100"),
        vec!["release/album/kid-a-10", "release/album/kid-a-50"]
    );
    assert_eq!(original_of(&interactor, "release/album/kid-a-100"), None);
    assert_eq!(
        original_of(&interactor, "release/album/kid-a-50"),
        Some("release/album/kid-a-100".to_string())
    );
    assert_eq!(
        original_of(&interactor, "release/album/kid-a-10"),
        Some("release/album/kid-a-100".to_string())
    );
    assert_eq!(interactor.delete(&file("release/album/kid-a-100")), Ok(()));
    assert!(interactor.repository().find(&file("release/album/kid-a-100")).is_none());
    assert_eq!(duplicates_of(&interactor, "release/album/kid-a-50"), vec!["release/album/kid-a-10"]);
    assert_eq!(original_of(&interactor, "release/album/kid-a-50"), None);
    assert_eq!(
        original_of(&interactor, "release/album/kid-a-10"),
        Some("release/album/kid-a-50".to_string())
    );
    assert!(duplicates_of(&interactor, "release/album/kid-a-10").is_empty());
}

#[test]
fn names_are_matched_without_regard_to_ascii_case_and_only_among_shared_artists() {
    let mut interactor = AlbumInteractor::new(AlbumRepository::new());
    interactor.put(album("a", "KID a", "artist/v", 5));
    interactor.put(album("b", "kid A", "artist/v", 9));
    interactor.put(album("c", "Kid A", "artist/other", 99));
    interactor.put(album("d", "Kid B", "artist/v", 99));
    assert_eq!(duplicates_of(&interactor, "b"), vec!["a"]);
    assert_eq!(original_of(&interactor, "a"), Some("b".to_string()));
    assert_eq!(original_of(&interactor, "c"), None);
    assert!(duplicates_of(&interactor, "c").is_empty());
    assert_eq!(original_of(&interactor, "d"), None);
}

#[test]
fn of_equally_rated_albums_the_first_is_the_original() {
    let mut interactor = AlbumInteractor::new(AlbumRepository::new());
    interactor.put(album("z", "Same", "artist/v", 7));
    interactor.put(album("a", "Same", "artist/v", 7));
    assert_eq!(duplicates_of(&interactor, "z"), vec!["a"]);
    assert_eq!(original_of(&interactor, "a"), Some("z".to_string()));
}

#[test]
fn reconciling_twice_changes_nothing() {
    let mut interactor = AlbumInteractor::new(AlbumRepository::new());
    interactor.put(album("a", "Kid A", "artist/v", 1));
    interactor.put(album("b", "Kid A", "artist/v", 3));
    interactor.put(album("c", "Kid A", "artist/v", 2));
    let before: Vec<(String, Option<String>, Vec<String>)> = interactor
        .repository()
        .albums()
        .iter()
        .map(|a| (a.file_name.to_string(), a.duplicate_of.as_ref().map(|n| n.to_string()), text_of(&a.duplicates)))
        .collect();
    interactor.process_duplicates(0);
    interactor.process_duplicates(2);
    let after: Vec<(String, Option<String>, Vec<String>)> = interactor
        .repository()
        .albums()
        .iter()
        .map(|a| (a.file_name.to_string(), a.duplicate_of.as_ref().map(|n| n.to_string()), text_of(&a.duplicates)))
        .collect();
    assert_eq!(before, after);
    assert_eq!(after[1], ("b".to_string(), None, vec!["a".to_string(), "c".to_string()]));
    assert!(plan_duplicates(&interactor.repository().albums()[0], interactor.repository().albums())
        .map(|p| !p.update_original && p.retarget.is_empty())
        .unwrap());
}

#[test]
fn deleting_an_unknown_album_is_refused() {
    let mut interactor = AlbumInteractor::new(AlbumRepository::new());
    interactor.put(album("a", "A", "artist/v", 1));
    assert_eq!(interactor.delete(&file("b")), Err(AlbumError::NotFound));
    assert_eq!(interactor.repository().albums().len(), 1);
}

#[test]
fn deleting_a_duplicate_heals_the_group_through_the_original() {
    let mut interactor = AlbumInteractor::new(AlbumRepository::new());
    interactor.put(album("a", "X", "artist/v", 10));
    interactor.put(album("b", "X", "artist/v", 5));
    interactor.put(album("c", "X", "artist/v", 1));
    assert_eq!(duplicates_of(&interactor, "a"), vec!["b", "c"]);
    interactor.delete(&file("b")).unwrap();
    assert_eq!(duplicates_of(&interactor, "a"), vec!["c"]);
    assert_eq!(original_of(&interactor, "c"), Some("a".to_string()));
}

#[test]
fn a_plan_ranks_the_group_by_rating_count() {
    let albums = vec![
        album("e", "Other", "artist/v", 500),
        album("d", "X", "artist/v", 3),
        album("c", "X", "artist/v", 8),
        album("b", "x", "artist/v", 8),
        album("a", "X", "artist/v", 5),
    ];
    let plan = plan_duplicates(&albums[1], &albums).unwrap();
    assert_eq!(plan.original, 2);
    assert_eq!(text_of(&plan.duplicates), vec!["a", "b", "d"]);
    assert!(plan.update_original);
    assert_eq!(plan.retarget, vec![3, 4, 1]);
    assert_eq!(group_places(&albums[1], &albums), vec![1, 2, 3, 4]);
    assert_eq!(text_of(&follower_file_names(&albums[1], &albums, 2)), vec!["d", "b", "a"]);
}

#[test]
fn a_plan_asks_only_for_what_is_not_yet_written() {
    let mut albums = vec![album("a", "X", "artist/v", 9), album("b", "X", "artist/v", 1), album("c", "X", "artist/v", 2)];
    albums[0].duplicates = vec![file("b"), file("c")];
    albums[1].duplicate_of = Some(file("a"));
    albums[2].duplicate_of = Some(file("other"));
    let plan = plan_duplicates(&albums[2], &albums).unwrap();
    assert_eq!(plan.original, 0);
    assert!(!plan.update_original);
    assert_eq!(plan.retarget, vec![2]);
}

#[test]
fn a_group_of_one_needs_no_plan() {
    let albums = vec![album("a", "X", "artist/v", 9), album("b", "Y", "artist/v", 1)];
    assert!(plan_duplicates(&albums[0], &albums).is_none());
    let mut lone = album("c", "X", "artist/v", 1);
    lone.artists.clear();
    assert!(plan_duplicates(&lone, &albums).is_none());
    assert!(plan_duplicates(&albums[0], &vec![]).is_none());
}

#[test]
fn group_membership_needs_a_shared_artist_and_the_name() {
    let a = album("a", "Kid A", "artist/v", 1);
    let b = album("b", "kid a", "artist/v", 1);
    let c = album("c", "Kid A", "artist/w", 1);
    let d = album("d", "Kid Á", "artist/v", 1);
    assert!(shares_artist_with(&a, &b));
    assert!(!shares_artist_with(&a, &c));
    assert!(is_in_group(&b, &a));
    assert!(!is_in_group(&c, &a));
    assert!(!is_in_group(&d, &a));
}

#[test]
fn file_names_are_sorted_in_dictionary_order() {
    let sorted = sort_file_names(vec![file("b"), file("B"), file("ab"), file("a"), file(""), file("é"), file("a")]);
    assert_eq!(text_of(&sorted), vec!["", "B", "a", "a", "ab", "b", "é"]);
    assert!(same_file_names(&sorted, &sorted));
    assert!(!same_file_names(&sorted, &vec![file("")]));
    assert!(!same_file_names(&vec![file("a")], &vec![file("b")]));
}

#[test]
fn aggregation_rows_are_read_by_position() {
    let row = vec![("name".to_string(), "rock".to_string()), ("count".to_string(), "42".to_string())];
    let read = ItemAndCount::try_from(&row).unwrap();
    assert_eq!(read.name, "rock");
    assert_eq!(read.count, 42);
    assert_eq!(ItemAndCount::try_from(&vec![]).err(), Some(AlbumError::MissingName));
    assert_eq!(ItemAndCount::try_from(&row[..1].to_vec()).err(), Some(AlbumError::MissingCount));
    for bad in ["", "x", "-1", "-0", "4294967296", "1.0", " 1"] {
        let row = vec![("name".to_string(), "rock".to_string()), ("count".to_string(), bad.to_string())];
        assert_eq!(ItemAndCount::try_from(&row).err(), Some(AlbumError::InvalidCount), "{}", bad);
    }
    let most = vec![("n".to_string(), "x".to_string()), ("c".to_string(), "+4294967295".to_string())];
    assert_eq!(ItemAndCount::try_from(&most).unwrap().count, 4294967295);
}

#[test]
fn embeddings_of_many_files_are_fetched_by_key() {
    let mut store = AlbumRepository::new();
    for (name, key, mark) in [("a", "k1", 1u32), ("b", "k1", 2), ("a", "k2", 3), ("c", "k2", 4)] {
        store
            .put_embedding(AlbumEmbedding { file_name: file(name), key: key.to_string(), embedding: vec![mark; 1536] })
            .unwrap();
    }
    let found = store.find_many_embeddings(&vec![file("b"), file("c"), file("a"), file("none")], "k1");
    let marks: Vec<u32> = found.iter().map(|e| e.embedding[0]).collect();
    assert_eq!(marks, vec![2, 1]);
    assert!(store.find_many_embeddings(&vec![], "k1").is_empty());
}

#[test]
fn reconciling_clears_linkage_that_no_longer_holds() {
    let mut stale_original = album("a", "X", "artist/v", 9);
    stale_original.duplicate_of = Some(file("gone"));
    let mut stale_duplicate = album("b", "X", "artist/v", 1);
    stale_duplicate.duplicate_of = Some(file("a"));
    stale_duplicate.duplicates = vec![file("c")];
    let albums = vec![stale_original, stale_duplicate, album("c", "X", "artist/v", 2)];
    let plan = plan_duplicates(&albums[0], &albums).unwrap();
    assert_eq!(plan.original, 0);
    assert!(plan.update_original);
    assert_eq!(plan.retarget, vec![2, 1]);
    let mut store = AlbumRepository::new();
    for a in albums {
        store.put(a);
    }
    let mut interactor = AlbumInteractor::new(store);
    interactor.process_duplicates(1);
    assert_eq!(original_of(&interactor, "a"), None);
    assert_eq!(duplicates_of(&interactor, "a"), vec!["b", "c"]);
    for name in ["b", "c"] {
        assert_eq!(original_of(&interactor, name), Some("a".to_string()));
        assert!(duplicates_of(&interactor, name).is_empty());
    }
}

#[test]
fn credit_tags_name_artist_and_role() {
    let mut a = album("f", "N", "artist/v", 1);
    assert!(credit_tags(&a).is_empty());
    a.credits = vec![
        AlbumReadModelCredit {
            artist: AlbumReadModelArtist { name: "A".to_string(), file_name: file("artist/a") },
            roles: vec![],
        },
        AlbumReadModelCredit {
            artist: AlbumReadModelArtist { name: "B".to_string(), file_name: file("artist/b") },
            roles: vec!["Lead  Vocals".to_string(), "".to_string(), "ÉCRIT par Z".to_string()],
        },
    ];
    assert_eq!(credit_tags(&a), vec!["artist/b:lead__vocals", "artist/b:", "artist/b:Écrit_par_z"]);
}
