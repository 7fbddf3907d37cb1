use lute_core::crawler::priority_queue::{
    decide_push, item_from_parts, item_key_of_lease, scan_step, ItemKey, Priority, PriorityQueue,
    PushDecision, QueueError, QueueItemSetRecord, QueuePushParameters, ScanStep,
};
use lute_core::files::file_name::FileName;

fn params(file: &str, priority: Option<Priority>) -> QueuePushParameters {
    QueuePushParameters {
        file_name: FileName::new(file.to_string()),
        priority,
        deduplication_key: None,
        correlation_id: None,
        metadata: None,
    }
}

#[test]
fn pushing_the_same_file_twice_keeps_one_item() {
    let mut queue = PriorityQueue::new(10, 60);
    assert_eq!(queue.push(params("album/x", None), 100), Ok(()));
    assert_eq!(queue.push(params("album/x", None), 101), Ok(()));
    assert_eq!(queue.get_size(), 1);
    let item = queue.peek().unwrap();
    assert_eq!(item.file_name.to_string(), "album/x");
    assert_eq!(item.deduplication_key, "album/x");
    assert_eq!(item.enqueue_time, 100);
    assert_eq!(item.priority, Priority::Standard);
}

#[test]
fn items_leave_by_priority() {
    let mut queue = PriorityQueue::new(10, 60);
    queue.push(params("a", Some(Priority::High)), 1).unwrap();
    queue.push(params("b", Some(Priority::Low)), 2).unwrap();
    queue.push(params("c", Some(Priority::Standard)), 3).unwrap();
    queue.push(params("d", Some(Priority::Express)), 4).unwrap();
    for expected in ["d", "a", "c", "b"] {
        let item = queue.peek().unwrap();
        assert_eq!(item.file_name.to_string(), expected);
        queue.delete_item(item.item_key);
    }
    assert!(queue.peek().is_none());
    assert_eq!(queue.get_size(), 0);
}

#[test]
fn items_of_one_class_leave_in_the_order_they_came() {
    let mut queue = PriorityQueue::new(10, 60);
    queue.push(params("first", None), 5).unwrap();
    queue.push(params("second", None), 5).unwrap();
    queue.push(params("third", Some(Priority::Express)), 5).unwrap();
    assert_eq!(queue.at(0).unwrap().file_name.to_string(), "third");
    assert_eq!(queue.at(1).unwrap().file_name.to_string(), "first");
    assert_eq!(queue.at(2).unwrap().file_name.to_string(), "second");
    assert!(queue.at(3).is_none());
    assert_eq!(queue.at(-1).unwrap().file_name.to_string(), "second");
    assert!(queue.at(-4).is_none());
}

#[test]
fn a_claim_holds_until_its_lease_runs_out() {
    let mut queue = PriorityQueue::new(10, 30);
    queue.push(params("album/x", None), 1000).unwrap();
    let first = queue.claim_item(1000).unwrap().unwrap();
    assert_eq!(first.file_name.to_string(), "album/x");
    assert!(queue.claim_item(1001).unwrap().is_none());
    assert!(queue.is_claimed(&first.item_key, 1029));
    assert!(queue.claim_item(1029).unwrap().is_none());
    assert!(!queue.is_claimed(&first.item_key, 1030));
    let again = queue.claim_item(1030).unwrap().unwrap();
    assert_eq!(again.file_name.to_string(), "album/x");
    assert!(again.item_key.same_as(&first.item_key));
}

#[test]
fn a_full_queue_refuses_and_stays_as_it_was() {
    let mut queue = PriorityQueue::new(2, 60);
    queue.push(params("a", None), 1).unwrap();
    queue.push(params("b", None), 2).unwrap();
    assert_eq!(queue.push(params("c", None), 3), Err(QueueError::QueueFull));
    assert_eq!(queue.get_size(), 2);
    assert!(!queue.contains("c"));
    // a key that is already kept is skipped, full or not
    assert_eq!(queue.push(params("a", Some(Priority::Express)), 4), Ok(()));
    assert_eq!(queue.peek().unwrap().file_name.to_string(), "a");
    assert_eq!(queue.peek().unwrap().priority, Priority::Standard);
}

#[test]
fn a_queue_of_no_capacity_takes_nothing() {
    let mut queue = PriorityQueue::new(0, 60);
    assert_eq!(queue.push(params("a", None), 1), Err(QueueError::QueueFull));
    assert_eq!(queue.get_size(), 0);
}

#[test]
fn deleting_removes_member_record_and_lease() {
    let mut queue = PriorityQueue::new(5, 60);
    queue.push(params("a", None), 1).unwrap();
    queue.push(params("b", None), 2).unwrap();
    let a = queue.claim_item(3).unwrap().unwrap();
    assert_eq!(queue.get_claimed_item_count(3), 1);
    queue.delete_item(a.item_key.clone());
    assert_eq!(queue.get_size(), 1);
    assert!(!queue.contains("a"));
    assert!(!queue.is_claimed(&a.item_key, 3));
    assert_eq!(queue.get_claimed_item_count(3), 0);
    assert!(queue.get_item(&a.item_key).is_none());
    assert_eq!(queue.peek().unwrap().file_name.to_string(), "b");
}

#[test]
fn claimed_items_show_the_time_their_lease_has_left() {
    let mut queue = PriorityQueue::new(5, 60);
    queue.push(params("a", None), 1).unwrap();
    queue.push(params("b", None), 1).unwrap();
    queue.claim_item(10).unwrap().unwrap();
    queue.claim_item(20).unwrap().unwrap();
    let claimed = queue.get_claimed_items(30);
    assert_eq!(claimed.len(), 2);
    assert_eq!(claimed[0].item.file_name.to_string(), "a");
    assert_eq!(claimed[0].claim_ttl_seconds, 40);
    assert_eq!(claimed[1].item.file_name.to_string(), "b");
    assert_eq!(claimed[1].claim_ttl_seconds, 50);
    assert_eq!(queue.get_claimed_items(75).len(), 1);
    assert_eq!(queue.get_claimed_items(80).len(), 0);
    assert!(queue.get_next_unclaimed_item(30).is_none());
    assert_eq!(queue.get_next_unclaimed_item(70).unwrap().file_name.to_string(), "a");
}

#[test]
fn emptying_drops_everything() {
    let mut queue = PriorityQueue::new(5, 60);
    queue.push(params("a", None), 1).unwrap();
    queue.claim_item(1).unwrap().unwrap();
    queue.empty();
    assert_eq!(queue.get_size(), 0);
    assert!(!queue.contains("a"));
    assert_eq!(queue.get_claimed_item_count(1), 0);
    assert_eq!(queue.push(params("a", None), 2), Ok(()));
    assert_eq!(queue.claim_item(2).unwrap().unwrap().file_name.to_string(), "a");
}

#[test]
fn an_explicit_deduplication_key_stands_for_the_file_name() {
    let mut queue = PriorityQueue::new(5, 60);
    let mut first = params("album/x", None);
    first.deduplication_key = Some("key".to_string());
    first.correlation_id = Some("crawl:1".to_string());
    first.metadata = Some(vec![("a".to_string(), "b".to_string())]);
    queue.push(first, 7).unwrap();
    let mut second = params("album/y", None);
    second.deduplication_key = Some("key".to_string());
    queue.push(second, 8).unwrap();
    assert_eq!(queue.get_size(), 1);
    let item = queue.peek().unwrap();
    assert_eq!(item.file_name.to_string(), "album/x");
    assert_eq!(item.deduplication_key, "key");
    assert_eq!(item.correlation_id, Some("crawl:1".to_string()));
    assert_eq!(item.metadata, Some(vec![("a".to_string(), "b".to_string())]));
}

#[test]
fn the_queue_clock_does_not_run_backwards() {
    let mut queue = PriorityQueue::new(5, 10);
    queue.push(params("a", None), 100).unwrap();
    queue.push(params("b", None), 50).unwrap();
    assert_eq!(queue.at(1).unwrap().enqueue_time, 100);
    queue.claim_item(90).unwrap().unwrap();
    assert_eq!(queue.get_claimed_items(95)[0].claim_ttl_seconds, 10);
    assert_eq!(queue.get_claimed_items(105)[0].claim_ttl_seconds, 5);
}

#[test]
fn priorities_have_scores_and_names() {
    assert_eq!(Priority::try_from(0), Ok(Priority::Express));
    assert_eq!(Priority::try_from(1), Ok(Priority::High));
    assert_eq!(Priority::try_from(2), Ok(Priority::Standard));
    assert_eq!(Priority::try_from(3), Ok(Priority::Low));
    assert_eq!(Priority::try_from(4), Err(QueueError::InvalidPriority));
    assert_eq!(Priority::Express.score(), 0);
    assert_eq!(Priority::Low.score(), 3);
    assert_eq!(Priority::Express.to_string(), "express");
    assert_eq!(Priority::High.to_string(), "high");
    assert_eq!(Priority::Standard.to_string(), "standard");
    assert_eq!(Priority::Low.to_string(), "low");
}

#[test]
fn item_keys_are_written_and_read_back() {
    let key = ItemKey { enqueue_time: 1700000000, deduplication_key: "album/x".to_string() };
    assert_eq!(key.to_string(), "1700000000:DELIMETER:album/x");
    let back = ItemKey::from_str("1700000000:DELIMETER:album/x").unwrap();
    assert!(back.same_as(&key));
    let early = ItemKey { enqueue_time: -5, deduplication_key: String::new() };
    assert_eq!(early.to_string(), "-5:DELIMETER:");
    assert!(ItemKey::from_str("-5:DELIMETER:").unwrap().same_as(&early));
    assert!(ItemKey::from_str("+12:DELIMETER:k").unwrap().same_as(&ItemKey {
        enqueue_time: 12,
        deduplication_key: "k".to_string(),
    }));
}

#[test]
fn malformed_item_keys_are_refused() {
    for text in [
        "",
        "album/x",
        "12:DELIMETER",
        ":DELIMETER:x",
        "x:DELIMETER:y",
        "1.5:DELIMETER:a",
        "99999999999999999999:DELIMETER:a",
        "9223372036854775807:DELIMETER:a",
        "-:DELIMETER:a",
    ] {
        assert_eq!(ItemKey::from_str(text).err(), Some(QueueError::InvalidItemKey), "{}", text);
    }
    // the text is split at the first delimiter only; the rest is the key
    let twice = ItemKey::from_str("1700000000:DELIMETER:a:DELIMETER:b").unwrap();
    assert_eq!(twice.enqueue_time, 1700000000);
    assert_eq!(twice.deduplication_key, "a:DELIMETER:b");
    let key = ItemKey::from_str("1:DELIMETER:DELIMETER:b").unwrap();
    assert_eq!(key.deduplication_key, "DELIMETER:b");
    assert!(ItemKey::from_str(&twice.to_string()).unwrap().same_as(&twice));
}

#[test]
fn store_keys_are_named_after_the_queue() {
    let queue = PriorityQueue::new(1, 1);
    assert_eq!(queue.redis_key(), "crawler:queue");
    assert_eq!(queue.item_set_key(), "crawler:queue:items");
    assert_eq!(queue.claimed_item_key_str("x"), "crawler:queue:claimed:x");
    let key = ItemKey { enqueue_time: 3, deduplication_key: "k".to_string() };
    assert_eq!(queue.claimed_item_key(&key), "crawler:queue:claimed:3:DELIMETER:k");
}

#[test]
fn a_push_is_decided_by_key_and_room() {
    assert_eq!(decide_push(true, 0, 10), PushDecision::Skip);
    assert_eq!(decide_push(true, 10, 10), PushDecision::Skip);
    assert_eq!(decide_push(false, 10, 10), PushDecision::Refuse);
    assert_eq!(decide_push(false, 11, 10), PushDecision::Refuse);
    assert_eq!(decide_push(false, 0, 0), PushDecision::Refuse);
    assert_eq!(decide_push(false, 9, 10), PushDecision::Enter);
}

#[test]
fn a_scan_takes_the_first_item_under_no_lease() {
    let mut queue = PriorityQueue::new(5, 60);
    queue.push(params("a", None), 1).unwrap();
    assert!(matches!(scan_step(None, false), ScanStep::Stop));
    assert!(matches!(scan_step(None, true), ScanStep::Stop));
    assert!(matches!(scan_step(queue.peek(), true), ScanStep::Next));
    match scan_step(queue.peek(), false) {
        ScanStep::Take(item) => assert_eq!(item.file_name.to_string(), "a"),
        _ => panic!("the item is free to take"),
    }
}

#[test]
fn an_item_is_put_together_from_what_the_store_holds() {
    let key = ItemKey { enqueue_time: 12, deduplication_key: "k".to_string() };
    let record = QueueItemSetRecord {
        file_name: FileName::new("album/x".to_string()),
        correlation_id: Some("c".to_string()),
        metadata: None,
    };
    let item = item_from_parts(&key, &record, Some(3)).unwrap();
    assert_eq!(item.priority, Priority::Low);
    assert_eq!(item.enqueue_time, 12);
    assert_eq!(item.deduplication_key, "k");
    assert!(item.item_key.same_as(&key));
    assert_eq!(item.file_name.to_string(), "album/x");
    assert_eq!(item.correlation_id, Some("c".to_string()));
    assert_eq!(item_from_parts(&key, &record, None).unwrap().priority, Priority::Standard);
    assert_eq!(item_from_parts(&key, &record, Some(0)).unwrap().priority, Priority::Express);
    assert_eq!(item_from_parts(&key, &record, Some(4)).err(), Some(QueueError::InvalidPriority));
}

#[test]
fn a_lease_key_names_its_item() {
    let key = item_key_of_lease("crawler:queue:claimed:17:DELIMETER:album/x").unwrap();
    assert_eq!(key.enqueue_time, 17);
    assert_eq!(key.deduplication_key, "album/x");
    for bad in ["", "17:DELIMETER:album/x", "crawler:queue:claimed:", "crawler:queue:claimed:x",
        "crawler:queue:items", "xcrawler:queue:claimed:17:DELIMETER:a"]
    {
        assert_eq!(item_key_of_lease(bad).err(), Some(QueueError::InvalidItemKey), "{}", bad);
    }
    let queue = PriorityQueue::new(1, 1);
    let written = ItemKey { enqueue_time: -3, deduplication_key: "a:b".to_string() };
    assert!(item_key_of_lease(&queue.claimed_item_key(&written)).unwrap().same_as(&written));
}

#[test]
fn a_key_that_is_no_member_takes_only_the_record_along() {
    let mut queue = PriorityQueue::new(5, 60);
    queue.push(params("a", None), 10).unwrap();
    queue.delete_item(ItemKey { enqueue_time: 11, deduplication_key: "a".to_string() });
    assert_eq!(queue.get_size(), 1);
    assert!(!queue.contains("a"));
    assert!(queue.peek().is_none());
    assert!(queue.claim_item(12).unwrap().is_none());
    // the same key may now enter again beside the member left behind
    queue.push(params("a", Some(Priority::Express)), 13).unwrap();
    assert_eq!(queue.get_size(), 2);
    assert_eq!(queue.at(0).unwrap().enqueue_time, 13);
    assert_eq!(queue.at(1).unwrap().enqueue_time, 10);
}

#[test]
fn a_lease_of_no_seconds_cannot_be_taken() {
    let mut queue = PriorityQueue::new(5, 0);
    assert_eq!(queue.claim_item(1).map(|item| item.is_none()), Ok(true));
    queue.push(params("a", None), 1).unwrap();
    assert_eq!(queue.claim_item(1).err(), Some(QueueError::InvalidLeaseTime));
    assert_eq!(queue.claim_item(2).err(), Some(QueueError::InvalidLeaseTime));
    assert_eq!(queue.get_claimed_item_count(2), 0);
    assert_eq!(queue.get_size(), 1);
    assert_eq!(queue.peek().unwrap().file_name.to_string(), "a");
}

#[test]
fn a_claimed_item_is_under_a_lease_right_away_and_stays_queued() {
    let mut queue = PriorityQueue::new(5, 1);
    queue.push(params("a", None), 7).unwrap();
    let item = queue.claim_item(7).unwrap().unwrap();
    assert!(queue.is_claimed(&item.item_key, 7));
    assert_eq!(queue.get_claimed_items(7)[0].claim_ttl_seconds, 1);
    assert_eq!(queue.get_size(), 1);
    assert!(queue.contains("a"));
    assert!(!queue.is_claimed(&item.item_key, 8));
}

#[test]
fn the_time_of_an_item_key_must_lie_within_the_calendar() {
    for text in ["-8334601228800:DELIMETER:a", "8210266876799:DELIMETER:a", "0:DELIMETER:a"] {
        assert!(ItemKey::from_str(text).is_ok(), "{}", text);
        assert!(ItemKey::split(text).is_ok(), "{}", text);
    }
    for text in ["-8334601228801:DELIMETER:a", "8210266876800:DELIMETER:a"] {
        assert_eq!(ItemKey::from_str(text).err(), Some(QueueError::InvalidItemKey), "{}", text);
        assert!(ItemKey::split(text).is_ok(), "{}", text);
    }
    let split = ItemKey::split("9223372036854775807:DELIMETER:k").unwrap();
    assert_eq!(split.enqueue_time, i64::MAX);
    assert_eq!(split.deduplication_key, "k");
    assert_eq!(ItemKey::split("x:DELIMETER:k").err(), Some(QueueError::InvalidItemKey));
    assert_eq!(ItemKey::split("12").err(), Some(QueueError::InvalidItemKey));
}
