use lute_core::albums::album_event_subscribers::{
    build_album_event_subscribers, crawl_artist_albums, crawl_chart_albums,
    delete_album_read_models, delete_album_read_models_group, get_crawl_priority, ordering_group,
    subscriber_action, update_album_read_models, update_album_read_models_group,
    SubscriberAction,
};
use lute_core::albums::album_read_model::{AlbumReadModel, ReleaseDate};
use lute_core::crawler::priority_queue::Priority;
use lute_core::events::event::{Event, EventPayload, Stream};
use lute_core::events::event_subscriber::{advance_cursor, plan_batch};
use lute_core::files::file_name::{FileName, PageType};
use lute_core::parser::parsed_file_data::{
    ParsedAlbum, ParsedAlbumReference, ParsedArtist, ParsedArtistReference, ParsedCredit,
    ParsedFileData, ParsedTrack,
};

fn file(name: &str) -> FileName {
    FileName::new(name.to_string())
}

fn parsed_album() -> ParsedAlbum {
    ParsedAlbum {
        name: "Kid A".to_string(),
        rating: 4.2f32.to_bits(),
        rating_count: 1000,
        artists: vec![ParsedArtistReference { name: "Radiohead".to_string(), file_name: file("artist/radiohead") }],
        primary_genres: vec!["art rock".to_string()],
        secondary_genres: vec!["idm".to_string(), "ambient".to_string()],
        descriptors: vec!["cold".to_string()],
        tracks: vec![ParsedTrack {
            name: "Everything in Its Right Place".to_string(),
            duration_seconds: Some(251),
            rating: Some(4.5f32.to_bits()),
            position: Some("1".to_string()),
        }],
        release_date: Some(ReleaseDate { year: 2000, month: 10, day: 2 }),
        languages: vec!["en".to_string()],
        credits: vec![ParsedCredit {
            artist: ParsedArtistReference { name: "Nigel".to_string(), file_name: file("artist/nigel") },
            roles: vec!["producer".to_string(), "engineer".to_string()],
        }],
        cover_image_url: Some("http://cover".to_string()),
    }
}

fn listed(names: &[&str]) -> Vec<ParsedAlbumReference> {
    names.iter().map(|n| ParsedAlbumReference { name: n.to_string(), file_name: file(n) }).collect()
}

#[test]
fn streams_have_tags_and_keys() {
    assert_eq!(Stream::File.tag(), "file");
    assert_eq!(Stream::Parser.tag(), "parser");
    assert_eq!(Stream::Lookup.tag(), "lookup");
    assert_eq!(Stream::File.redis_key(), "event:stream:file");
    assert_eq!(Stream::Parser.redis_key(), "event:stream:parser");
    assert_eq!(
        Stream::Lookup.redis_cursor_key("update_album_read_models"),
        "event:stream:lookup:cursor:update_album_read_models"
    );
    assert_eq!(Stream::File.redis_cursor_key(""), "event:stream:file:cursor:");
}

#[test]
fn events_of_one_group_share_a_lane_in_order() {
    let keys = vec![
        Some("a".to_string()),
        None,
        Some("b".to_string()),
        Some("a".to_string()),
        None,
        Some("b".to_string()),
        Some("a".to_string()),
    ];
    assert_eq!(plan_batch(&keys), vec![vec![0, 3, 6], vec![1], vec![2, 5], vec![4]]);
    assert_eq!(plan_batch(&vec![]), Vec::<Vec<usize>>::new());
    assert_eq!(plan_batch(&vec![None, None]), vec![vec![0], vec![1]]);
    assert_eq!(plan_batch(&vec![Some(String::new()), Some(String::new())]), vec![vec![0, 1]]);
}

#[test]
fn the_cursor_stops_before_the_first_failure() {
    assert_eq!(advance_cursor(7, &vec![8, 9, 10], &vec![true, true, true]), 10);
    assert_eq!(advance_cursor(7, &vec![8, 9, 10], &vec![true, false, true]), 8);
    assert_eq!(advance_cursor(7, &vec![8, 9, 10], &vec![false, true, true]), 7);
    assert_eq!(advance_cursor(7, &vec![], &vec![]), 7);
}

#[test]
fn follow_up_crawls_of_similar_albums_are_low_priority() {
    assert_eq!(get_crawl_priority(None), Priority::Standard);
    assert_eq!(get_crawl_priority(Some("crawl_chart_albums:x".to_string())), Priority::Standard);
    assert_eq!(get_crawl_priority(Some("crawl_similar_albums:x".to_string())), Priority::Low);
    assert_eq!(get_crawl_priority(Some("crawl_similar_albums:".to_string())), Priority::Low);
    assert_eq!(get_crawl_priority(Some("crawl_similar_albums".to_string())), Priority::Standard);
    assert_eq!(get_crawl_priority(Some(" crawl_similar_albums:x".to_string())), Priority::Standard);
    assert_eq!(get_crawl_priority(Some(String::new())), Priority::Standard);
}

#[test]
fn a_parsed_album_becomes_a_read_model() {
    let album = AlbumReadModel::from_parsed_album(&file("release/album/kid-a"), parsed_album());
    assert_eq!(album.name, "Kid A");
    assert_eq!(album.file_name.to_string(), "release/album/kid-a");
    assert_eq!(album.rating, 4.2f32.to_bits());
    assert_eq!(album.rating_count, 1000);
    assert_eq!(album.artists.len(), 1);
    assert_eq!(album.artists[0].name, "Radiohead");
    assert_eq!(album.artists[0].file_name.to_string(), "artist/radiohead");
    assert_eq!(album.primary_genres, vec!["art rock"]);
    assert_eq!(album.secondary_genres, vec!["idm", "ambient"]);
    assert_eq!(album.descriptors, vec!["cold"]);
    assert_eq!(album.tracks.len(), 1);
    assert_eq!(album.tracks[0].name, "Everything in Its Right Place");
    assert_eq!(album.tracks[0].duration_seconds, Some(251));
    assert_eq!(album.tracks[0].rating, Some(4.5f32.to_bits()));
    assert_eq!(album.tracks[0].position, Some("1".to_string()));
    assert_eq!(album.release_date, Some(ReleaseDate { year: 2000, month: 10, day: 2 }));
    assert_eq!(album.languages, vec!["en"]);
    assert_eq!(album.credits.len(), 1);
    assert_eq!(album.credits[0].artist.name, "Nigel");
    assert_eq!(album.credits[0].roles, vec!["producer", "engineer"]);
    assert!(album.duplicate_of.is_none());
    assert!(album.duplicates.is_empty());
    assert_eq!(album.cover_image_url, Some("http://cover".to_string()));
}

#[test]
fn only_parsed_albums_update_the_read_model() {
    let parsed = Event::FileParsed {
        file_id: 1,
        file_name: file("release/album/kid-a"),
        data: ParsedFileData::Album(parsed_album()),
    };
    assert_eq!(update_album_read_models_group(&parsed), Some("Kid A".to_string()));
    let album = update_album_read_models(parsed).unwrap();
    assert_eq!(album.file_name.to_string(), "release/album/kid-a");
    let chart = Event::FileParsed { file_id: 1, file_name: file("charts/x"), data: ParsedFileData::Chart(listed(&["a"])) };
    assert_eq!(update_album_read_models_group(&chart), None);
    assert!(update_album_read_models(chart).is_none());
    assert!(update_album_read_models(Event::FileSaved { file_id: 1, file_name: file("x") }).is_none());
}

#[test]
fn only_deleted_files_delete_read_models() {
    let deleted = Event::FileDeleted { file_id: 9, file_name: file("release/album/kid-a") };
    assert_eq!(
        delete_album_read_models(&deleted, PageType::Album).unwrap().to_string(),
        "release/album/kid-a"
    );
    for other in [PageType::Artist, PageType::Chart, PageType::AlbumSearchResult] {
        assert!(delete_album_read_models(&deleted, other).is_none());
    }
    assert_eq!(
        delete_album_read_models_group(&deleted, PageType::Album),
        Some("release/album/kid-a".to_string())
    );
    assert_eq!(delete_album_read_models_group(&deleted, PageType::Artist), None);
    let saved = Event::FileSaved { file_id: 9, file_name: file("release/album/kid-a") };
    assert!(delete_album_read_models(&saved, PageType::Album).is_none());
    assert_eq!(delete_album_read_models_group(&saved, PageType::Album), None);
    let failed = Event::FileParseFailed { file_id: 9, file_name: file("x"), error: "bad".to_string() };
    assert!(delete_album_read_models(&failed, PageType::Album).is_none());
}

#[test]
fn a_chart_sends_the_crawler_after_its_albums() {
    let payload = EventPayload {
        event: Event::FileParsed {
            file_id: 3,
            file_name: file("charts/top/2000"),
            data: ParsedFileData::Chart(listed(&["release/album/a", "release/album/b"])),
        },
        correlation_id: Some("crawl_similar_albums:seed".to_string()),
        metadata: None,
    };
    let requests = crawl_chart_albums(&payload);
    assert_eq!(requests.len(), 2);
    assert_eq!(requests[0].file_name.to_string(), "release/album/a");
    assert_eq!(requests[1].file_name.to_string(), "release/album/b");
    for request in requests.iter() {
        assert_eq!(request.priority, Some(Priority::Low));
        assert_eq!(request.correlation_id, Some("crawl_chart_albums:charts/top/2000".to_string()));
        assert_eq!(request.deduplication_key, None);
        assert!(request.metadata.is_none());
    }
    assert!(crawl_artist_albums(&payload).is_empty());
}

#[test]
fn an_artist_page_sends_the_crawler_after_its_albums() {
    let payload = EventPayload {
        event: Event::FileParsed {
            file_id: 3,
            file_name: file("artist/radiohead"),
            data: ParsedFileData::Artist(ParsedArtist { name: "Radiohead".to_string(), albums: listed(&["release/album/kid-a"]) }),
        },
        correlation_id: None,
        metadata: None,
    };
    let requests = crawl_artist_albums(&payload);
    assert_eq!(requests.len(), 1);
    assert_eq!(requests[0].file_name.to_string(), "release/album/kid-a");
    assert_eq!(requests[0].priority, Some(Priority::Standard));
    assert_eq!(requests[0].correlation_id, Some("crawl_artist_albums:artist/radiohead".to_string()));
    assert!(crawl_chart_albums(&payload).is_empty());
    let saved = EventPayload { event: Event::FileSaved { file_id: 1, file_name: file("x") }, correlation_id: None, metadata: None };
    assert!(crawl_artist_albums(&saved).is_empty());
}

#[test]
fn four_subscribers_are_declared() {
    let subscribers = build_album_event_subscribers();
    let declared: Vec<(String, Stream, usize, bool)> =
        subscribers.iter().map(|s| (s.id.clone(), s.stream, s.batch_size, s.ordered)).collect();
    assert_eq!(
        declared,
        vec![
            ("update_album_read_models".to_string(), Stream::Parser, 250, true),
            ("delete_album_read_models".to_string(), Stream::File, 250, true),
            ("crawl_chart_albums".to_string(), Stream::Parser, 250, false),
            ("crawl_artist_albums".to_string(), Stream::Parser, 250, false),
        ]
    );
}

#[test]
fn each_subscriber_orders_by_its_own_group() {
    let parsed = Event::FileParsed {
        file_id: 1,
        file_name: file("release/album/kid-a"),
        data: ParsedFileData::Album(parsed_album()),
    };
    let deleted = Event::FileDeleted { file_id: 2, file_name: file("release/album/kid-a") };
    assert_eq!(ordering_group("update_album_read_models", &parsed, PageType::Album), Some("Kid A".to_string()));
    assert_eq!(ordering_group("update_album_read_models", &deleted, PageType::Album), None);
    assert_eq!(
        ordering_group("delete_album_read_models", &deleted, PageType::Album),
        Some("release/album/kid-a".to_string())
    );
    assert_eq!(ordering_group("delete_album_read_models", &deleted, PageType::Artist), None);
    assert_eq!(ordering_group("delete_album_read_models", &parsed, PageType::Album), None);
    for id in ["crawl_chart_albums", "crawl_artist_albums", "other", ""] {
        assert_eq!(ordering_group(id, &parsed, PageType::Album), None);
        assert_eq!(ordering_group(id, &deleted, PageType::Album), None);
    }
}

#[test]
fn each_subscriber_asks_for_its_own_action() {
    let parsed = || EventPayload {
        event: Event::FileParsed {
            file_id: 1,
            file_name: file("release/album/kid-a"),
            data: ParsedFileData::Album(parsed_album()),
        },
        correlation_id: None,
        metadata: None,
    };
    let deleted = || EventPayload {
        event: Event::FileDeleted { file_id: 2, file_name: file("artist/radiohead") },
        correlation_id: None,
        metadata: None,
    };
    let chart = || EventPayload {
        event: Event::FileParsed {
            file_id: 3,
            file_name: file("charts/x"),
            data: ParsedFileData::Chart(listed(&["a", "b"])),
        },
        correlation_id: None,
        metadata: None,
    };
    match subscriber_action("update_album_read_models", parsed(), PageType::Album) {
        SubscriberAction::Put(album) => assert_eq!(album.name, "Kid A"),
        other => panic!("{:?}", other),
    }
    assert!(matches!(
        subscriber_action("update_album_read_models", chart(), PageType::Chart),
        SubscriberAction::Nothing
    ));
    assert!(matches!(
        subscriber_action("delete_album_read_models", deleted(), PageType::Artist),
        SubscriberAction::Nothing
    ));
    match subscriber_action("delete_album_read_models", deleted(), PageType::Album) {
        SubscriberAction::Delete(name) => assert_eq!(name.to_string(), "artist/radiohead"),
        other => panic!("{:?}", other),
    }
    match subscriber_action("crawl_chart_albums", chart(), PageType::Chart) {
        SubscriberAction::Enqueue(requests) => assert_eq!(requests.len(), 2),
        other => panic!("{:?}", other),
    }
    match subscriber_action("crawl_artist_albums", chart(), PageType::Chart) {
        SubscriberAction::Enqueue(requests) => assert!(requests.is_empty()),
        other => panic!("{:?}", other),
    }
    assert!(matches!(subscriber_action("other", chart(), PageType::Chart), SubscriberAction::Unknown));
}
