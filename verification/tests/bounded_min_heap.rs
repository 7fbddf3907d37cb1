use lute_core::helpers::bounded_min_heap::BoundedMinHeap;

#[test]
fn the_heap_keeps_the_highest_items() {
    let mut heap: BoundedMinHeap<u64> = BoundedMinHeap::new(3);
    for x in [5u64, 1, 9, 3, 7, 2, 8] {
        heap.push(x);
    }
    assert_eq!(heap.len(), 3);
    assert_eq!(heap.peek(), Some(&7));
    assert_eq!(heap.drain_sorted_desc(), vec![9, 8, 7]);
    assert_eq!(heap.len(), 0);
}

#[test]
fn popping_yields_the_lowest_first() {
    let mut heap: BoundedMinHeap<u32> = BoundedMinHeap::new(10);
    for x in [4u32, 2, 6, 2, 1] {
        heap.push(x);
    }
    let mut seen = Vec::new();
    while let Some(x) = heap.pop() {
        seen.push(x);
    }
    assert_eq!(seen, vec![1, 2, 2, 4, 6]);
    assert_eq!(heap.pop(), None);
    assert_eq!(heap.peek(), None);
}

#[test]
fn an_item_not_above_the_minimum_is_discarded_when_full() {
    let mut heap: BoundedMinHeap<u64> = BoundedMinHeap::new(2);
    heap.push(5);
    heap.push(6);
    heap.push(5);
    heap.push(4);
    assert_eq!(heap.drain_sorted_desc(), vec![6, 5]);
}

#[test]
fn a_heap_of_no_capacity_holds_nothing() {
    let mut heap: BoundedMinHeap<u64> = BoundedMinHeap::new(0);
    heap.push(1);
    assert_eq!(heap.len(), 0);
    assert_eq!(heap.peek(), None);
    assert!(heap.drain().is_empty());
}

#[test]
fn draining_hands_out_everything() {
    let mut heap: BoundedMinHeap<u64> = BoundedMinHeap::new(4);
    for x in [3u64, 1, 2] {
        heap.push(x);
    }
    let mut all = heap.drain();
    all.sort();
    assert_eq!(all, vec![1, 2, 3]);
    assert_eq!(heap.len(), 0);
}
