use lute_core::crawler::crawler_interactor::enqueue_if_stale;
use lute_core::crawler::priority_queue::{PriorityQueue, QueueError, QueuePushParameters};
use lute_core::events::event::Event;
use lute_core::files::file_interactor::{FileError, FileInteractor};
use lute_core::files::file_metadata::{is_stale, TtlDays};
use lute_core::files::file_name::{FileName, PageType};

const DAY: i64 = 86400;

fn file(name: &str) -> FileName {
    FileName::new(name.to_string())
}

fn ttl() -> TtlDays {
    TtlDays { artist: 1, album: 7, chart: 2, search: 3 }
}

#[test]
fn a_file_is_stale_once_its_time_to_live_has_passed() {
    assert!(is_stale(None, 7, 0));
    assert!(!is_stale(Some(1000), 7, 1000));
    assert!(!is_stale(Some(1000), 7, 1000 + 7 * DAY));
    assert!(is_stale(Some(1000), 7, 1001 + 7 * DAY));
    assert!(is_stale(Some(1000), 0, 1001));
    assert!(!is_stale(Some(1000), 0, 1000));
    assert!(!is_stale(Some(i64::MAX), u32::MAX, i64::MAX));
    assert!(is_stale(Some(i64::MIN), 1, i64::MAX));
}

#[test]
fn each_page_type_has_its_own_time_to_live() {
    assert_eq!(ttl().for_page_type(PageType::Artist), 1);
    assert_eq!(ttl().for_page_type(PageType::Album), 7);
    assert_eq!(ttl().for_page_type(PageType::Chart), 2);
    assert_eq!(ttl().for_page_type(PageType::AlbumSearchResult), 3);
}

#[test]
fn staleness_gates_what_is_enqueued() {
    let t0: i64 = 1_700_000_000;
    let mut files = FileInteractor::new(ttl());
    let mut queue = PriorityQueue::new(10, 60);
    let name = file("release/album/kid-a");
    assert!(files.is_file_stale(&name, PageType::Album, t0));
    files.put_file(&name, "<html>".to_string(), None, 11, t0);
    assert!(!files.is_file_stale(&name, PageType::Album, t0));
    assert!(!files.is_file_stale(&name, PageType::Album, t0 + 7 * DAY));
    assert!(files.is_file_stale(&name, PageType::Album, t0 + 7 * DAY + 1));
    assert!(files.is_file_stale(&name, PageType::Artist, t0 + DAY + 1));
    assert_eq!(
        enqueue_if_stale(&mut queue, &files, QueuePushParameters::for_file(name.clone()), PageType::Album, t0 + DAY),
        Ok(())
    );
    assert_eq!(queue.get_size(), 0);
    assert_eq!(
        enqueue_if_stale(&mut queue, &files, QueuePushParameters::for_file(name.clone()), PageType::Album, t0 + 8 * DAY),
        Ok(())
    );
    assert_eq!(queue.get_size(), 1);
    assert_eq!(queue.peek().unwrap().file_name.to_string(), "release/album/kid-a");
    assert_eq!(queue.peek().unwrap().enqueue_time, t0 + 8 * DAY);
}

#[test]
fn a_stale_file_is_refused_by_a_full_queue() {
    let files = FileInteractor::new(ttl());
    let mut queue = PriorityQueue::new(1, 60);
    enqueue_if_stale(&mut queue, &files, QueuePushParameters::for_file(file("a")), PageType::Chart, 5).unwrap();
    assert_eq!(
        enqueue_if_stale(&mut queue, &files, QueuePushParameters::for_file(file("b")), PageType::Chart, 5),
        Err(QueueError::QueueFull)
    );
    assert_eq!(queue.get_size(), 1);
}

#[test]
fn saving_again_keeps_the_identifier_and_the_first_time() {
    let mut files = FileInteractor::new(ttl());
    let name = file("artist/radiohead");
    let (first, event) = files.put_file(&name, "one".to_string(), Some("crawl:1".to_string()), 42, 100);
    assert_eq!((first.id, first.first_saved_at, first.last_saved_at), (42, 100, 100));
    assert_eq!(first.name.to_string(), "artist/radiohead");
    assert_eq!(event.correlation_id, Some("crawl:1".to_string()));
    assert!(event.metadata.is_none());
    assert!(matches!(event.event, Event::FileSaved { file_id: 42, ref file_name } if file_name.to_string() == "artist/radiohead"));
    let (second, event) = files.put_file(&name, "two".to_string(), None, 43, 200);
    assert_eq!((second.id, second.first_saved_at, second.last_saved_at), (42, 100, 200));
    assert_eq!(event.correlation_id, None);
    assert!(matches!(event.event, Event::FileSaved { file_id: 42, .. }));
    assert_eq!(files.get_file_content(&name), Ok("two".to_string()));
    let record = files.get_file_metadata(&name).unwrap();
    assert_eq!((record.id, record.first_saved_at, record.last_saved_at), (42, 100, 200));
    assert_eq!(files.list_files().len(), 1);
}

#[test]
fn metadata_alone_can_be_saved() {
    let mut files = FileInteractor::new(ttl());
    let name = file("charts/x");
    let (record, _) = files.put_file_metadata(&name, None, 5, 10);
    assert_eq!(record.id, 5);
    assert_eq!(files.get_file_content(&name), Err(FileError::NotFound));
    assert!(files.list_files().is_empty());
    assert!(!files.is_file_stale(&name, PageType::Chart, 10));
}

#[test]
fn deleting_a_file_tells_its_identifier() {
    let mut files = FileInteractor::new(ttl());
    files.put_file(&file("a"), "A".to_string(), None, 1, 10);
    files.put_file(&file("b"), "B".to_string(), None, 2, 10);
    let event = files.delete_file(&file("a")).unwrap();
    assert!(matches!(event.event, Event::FileDeleted { file_id: 1, ref file_name } if file_name.to_string() == "a"));
    assert_eq!(event.correlation_id, None);
    assert_eq!(files.get_file_metadata(&file("a")).err(), Some(FileError::NotFound));
    assert_eq!(files.get_file_content(&file("a")), Err(FileError::NotFound));
    assert_eq!(files.get_file_content(&file("b")), Ok("B".to_string()));
    let names: Vec<String> = files.list_files().iter().map(|n| n.to_string()).collect();
    assert_eq!(names, vec!["b"]);
    assert!(files.is_file_stale(&file("a"), PageType::Album, 10));
}

#[test]
fn deleting_an_unknown_file_is_refused() {
    let mut files = FileInteractor::new(ttl());
    files.put_file(&file("a"), "A".to_string(), None, 1, 10);
    assert_eq!(files.delete_file(&file("b")).err(), Some(FileError::NotFound));
    assert_eq!(files.list_files().len(), 1);
}

#[test]
fn file_names_compare_by_their_characters() {
    assert!(file("a/B").same_as(&file("a/B")));
    assert!(!file("a/B").same_as(&file("a/b")));
    assert_eq!(file("x").as_str(), "x");
    assert_eq!(file("x").clone().to_string(), "x");
}
