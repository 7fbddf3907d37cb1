use lute_core::albums::album_search_index::{
    album_index_schema, get_min_num_query, get_num_range_query, get_tag_query, index_name,
    index_prefix, redis_key, AlbumEmbeddingSimilarirtySearchQuery, AlbumSearchQuery,
    IndexFieldType, SearchPagination,
};
use lute_core::files::file_name::FileName;
use lute_core::helpers::redisearch::{escape_search_query_text, escape_tag_value};

fn texts(items: &[&str]) -> Vec<String> {
    items.iter().map(|s| s.to_string()).collect()
}

fn names(items: &[&str]) -> Vec<FileName> {
    items.iter().map(|s| FileName::new(s.to_string())).collect()
}

#[test]
fn a_tag_clause_lists_escaped_values() {
    assert_eq!(get_tag_query("@primary_genre", &texts(&[])), "");
    assert_eq!(get_tag_query("@primary_genre", &texts(&["rock"])), "@primary_genre:{rock} ");
    assert_eq!(
        get_tag_query("-@descriptor", &texts(&["hip hop", "r&b", "lo-fi"])),
        "-@descriptor:{hip\\ hop|r\\&b|lo\\-fi} "
    );
}

#[test]
fn number_clauses_are_written_in_decimal() {
    assert_eq!(get_min_num_query("@descriptor_count", None), "");
    assert_eq!(get_min_num_query("@descriptor_count", Some(5)), "@descriptor_count:[5, +inf] ");
    assert_eq!(get_min_num_query("@n", Some(0)), "@n:[0, +inf] ");
    assert_eq!(get_num_range_query("@release_year", None, None), "");
    assert_eq!(
        get_num_range_query("@release_year", Some(1990), Some(1999)),
        "@release_year:[1990, 1999] "
    );
    assert_eq!(get_num_range_query("@release_year", Some(1990), None), "@release_year:[1990, +inf] ");
    assert_eq!(get_num_range_query("@release_year", None, Some(2000)), "@release_year:[-inf, 2000] ");
    assert_eq!(
        get_num_range_query("@x", Some(4294967295), Some(10)),
        "@x:[4294967295, 10] "
    );
}

#[test]
fn punctuation_is_escaped_and_spaces_only_in_tags() {
    assert_eq!(escape_tag_value("release/album/kid-a"), "release\\/album\\/kid\\-a");
    assert_eq!(escape_tag_value("a b"), "a\\ b");
    assert_eq!(escape_tag_value("plain_09"), "plain_09");
    assert_eq!(escape_tag_value(""), "");
    assert_eq!(escape_tag_value("\\"), "\\\\");
    assert_eq!(escape_tag_value("né"), "né");
    assert_eq!(escape_search_query_text("kid a (live)"), "kid a \\(live\\)");
    assert_eq!(escape_search_query_text("a|b"), "a\\|b");
}

#[test]
fn an_open_query_leaves_only_duplicates_out() {
    let query = AlbumSearchQuery::new();
    assert_eq!(query.to_ft_search_query(), "@is_duplicate:[0, 0]");
}

#[test]
fn a_query_that_takes_duplicates_and_restricts_nothing_is_empty() {
    let mut query = AlbumSearchQuery::new();
    query.include_duplicates = Some(true);
    assert_eq!(query.to_ft_search_query(), "");
    query.include_duplicates = Some(false);
    assert_eq!(query.to_ft_search_query(), "@is_duplicate:[0, 0]");
}

#[test]
fn a_full_query_writes_every_clause_in_order() {
    let query = AlbumSearchQuery {
        text: Some("kid a".to_string()),
        exact_name: Some("Kid A".to_string()),
        include_file_names: names(&["release/album/a"]),
        exclude_file_names: names(&["release/album/b", "release/album/c"]),
        include_artists: texts(&["artist/radiohead"]),
        exclude_artists: texts(&["artist/x"]),
        include_primary_genres: texts(&["rock"]),
        exclude_primary_genres: texts(&["pop"]),
        include_secondary_genres: texts(&["idm"]),
        exclude_secondary_genres: texts(&["ska"]),
        include_languages: texts(&["en"]),
        exclude_languages: texts(&["fr"]),
        include_descriptors: texts(&["cold"]),
        min_primary_genre_count: Some(1),
        min_secondary_genre_count: Some(2),
        min_descriptor_count: Some(5),
        min_release_year: Some(1990),
        max_release_year: None,
        include_duplicates: None,
    };
    assert_eq!(
        query.to_ft_search_query(),
        "(kid a) @name_tag:{Kid\\ A} @is_duplicate:[0, 0] @primary_genre_count:[1, +inf] \
         @secondary_genre_count:[2, +inf] @descriptor_count:[5, +inf] \
         @release_year:[1990, +inf] @file_name:{release\\/album\\/a} \
         @artist_file_name:{artist\\/radiohead} @primary_genre:{rock} \
         @secondary_genre:{idm} @language:{en} @descriptor:{cold} \
         -@artist_file_name:{artist\\/x} \
         -@file_name:{release\\/album\\/b|release\\/album\\/c} -@primary_genre:{pop} \
         -@secondary_genre:{ska} -@language:{fr}"
    );
}

#[test]
fn a_nearest_neighbour_query_wraps_the_filters() {
    let mut filters = AlbumSearchQuery::new();
    filters.include_duplicates = Some(true);
    filters.min_descriptor_count = Some(5);
    let query = AlbumEmbeddingSimilarirtySearchQuery {
        embedding: vec![0; 1536],
        embedding_key: "openai-default".to_string(),
        filters,
        limit: 10,
    };
    assert_eq!(
        query.to_ft_search_query(),
        "(@embedding_key:{openai\\-default}  @descriptor_count:[5, +inf])=>[KNN 10 @embedding $BLOB as distance]"
    );
}

#[test]
fn pagination_defaults_to_the_first_hundred_thousand() {
    assert_eq!(SearchPagination::effective_limit(None), 100000);
    assert_eq!(SearchPagination::effective_offset(None), 0);
    let open = SearchPagination { offset: None, limit: None };
    assert_eq!(SearchPagination::effective_limit(Some(&open)), 100000);
    assert_eq!(SearchPagination::effective_offset(Some(&open)), 0);
    let page = SearchPagination { offset: Some(20), limit: Some(10) };
    assert_eq!(SearchPagination::effective_limit(Some(&page)), 10);
    assert_eq!(SearchPagination::effective_offset(Some(&page)), 20);
}

#[test]
fn album_documents_are_keyed_by_file_name() {
    assert_eq!(redis_key(&FileName::new("release/album/kid-a".to_string())), "album:release/album/kid-a");
}

#[test]
fn the_index_declares_every_attribute_that_queries_name() {
    assert_eq!(index_name(), "album_idx");
    assert_eq!(index_prefix(), "album:");
    let declared: Vec<(String, String, IndexFieldType)> = album_index_schema()
        .into_iter()
        .map(|field| (field.identifier, field.attribute, field.field_type))
        .collect();
    let expected = [
        ("$.name", "name", IndexFieldType::Text),
        ("$.file_name", "file_name", IndexFieldType::Tag),
        ("$.artists[*].name", "artist_name", IndexFieldType::Text),
        ("$.artists[*].file_name", "artist_file_name", IndexFieldType::Tag),
        ("$.rating", "rating", IndexFieldType::Numeric),
        ("$.rating_count", "rating_count", IndexFieldType::Numeric),
        ("$.primary_genres.*", "primary_genre", IndexFieldType::Tag),
        ("$.primary_genre_count", "primary_genre_count", IndexFieldType::Numeric),
        ("$.secondary_genres.*", "secondary_genre", IndexFieldType::Tag),
        ("$.secondary_genre_count", "secondary_genre_count", IndexFieldType::Numeric),
        ("$.descriptors.*", "descriptor", IndexFieldType::Tag),
        ("$.descriptor_count", "descriptor_count", IndexFieldType::Numeric),
        ("$.release_year", "release_year", IndexFieldType::Numeric),
        ("$.languages.*", "language", IndexFieldType::Tag),
        ("$.language_count", "language_count", IndexFieldType::Numeric),
        ("$.embeddings..key", "embedding_key", IndexFieldType::Tag),
        ("$.embeddings..embedding", "embedding", IndexFieldType::Vector),
        ("$.is_duplicate", "is_duplicate", IndexFieldType::Numeric),
        ("$.name_tag", "name_tag", IndexFieldType::Tag),
    ];
    assert_eq!(declared.len(), expected.len());
    for (got, want) in declared.iter().zip(expected.iter()) {
        assert_eq!((got.0.as_str(), got.1.as_str(), got.2), *want);
    }
    let query = AlbumSearchQuery {
        text: None,
        exact_name: Some("x".to_string()),
        include_file_names: names(&["a"]),
        exclude_file_names: vec![],
        include_artists: texts(&["a"]),
        exclude_artists: vec![],
        include_primary_genres: texts(&["a"]),
        exclude_primary_genres: vec![],
        include_secondary_genres: texts(&["a"]),
        exclude_secondary_genres: vec![],
        include_languages: texts(&["a"]),
        exclude_languages: vec![],
        include_descriptors: texts(&["a"]),
        min_primary_genre_count: Some(1),
        min_secondary_genre_count: Some(1),
        min_descriptor_count: Some(1),
        min_release_year: Some(1),
        max_release_year: None,
        include_duplicates: None,
    }
    .to_ft_search_query();
    for clause in query.split(' ').filter(|part| part.starts_with('@')) {
        let attribute = clause[1..].split(':').next().unwrap();
        assert!(declared.iter().any(|field| field.1 == attribute), "{}", attribute);
    }
}
