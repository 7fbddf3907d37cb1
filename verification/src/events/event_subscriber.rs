//! How a subscriber works through a batch of events. Events that share an
//! ordering group are handled one after another in the order they came;
//! events of different groups, and events without a group, may be handled
//! side by side. The cursor moves past what was handled, and stops before
//! the first event whose handling failed.

use crate::events::event::Stream;
use crate::helpers::text::same_text;
use vstd::prelude::*;

verus! {

/// What a subscriber declares of itself: its name, the stream it reads,
/// how many events it takes at once, and whether it puts its events into
/// ordering groups.
#[derive(Debug)]
pub struct EventSubscriber {
    pub id: String,
    pub stream: Stream,
    pub batch_size: usize,
    pub ordered: bool,
}

/// The first place at or after `from` of an event of the given group.
pub open spec fn first_of_group(keys: Seq<Option<Seq<char>>>, key: Seq<char>, from: int) -> int
    decreases keys.len() - from,
{
    if from < 0 || from >= keys.len() {
        from
    } else if keys[from] == Some(key) {
        from
    } else {
        first_of_group(keys, key, from + 1)
    }
}

/// The event at the head of the lane in which the event at `i` is
/// handled: the first event of its group, or itself if it has no group.
pub open spec fn lane_head(keys: Seq<Option<Seq<char>>>, i: int) -> int {
    match keys[i] {
        Some(key) => first_of_group(keys, key, 0),
        None => i,
    }
}

/// The heads of the lanes among the first `n` events, in order.
pub open spec fn lane_heads(keys: Seq<Option<Seq<char>>>, n: int) -> Seq<int>
    decreases n,
{
    if n <= 0 || n > keys.len() {
        Seq::empty()
    } else if lane_head(keys, n - 1) == n - 1 {
        lane_heads(keys, n - 1).push(n - 1)
    } else {
        lane_heads(keys, n - 1)
    }
}

/// The events among the first `n` that are handled in the lane of `head`,
/// in order.
pub open spec fn lane_members(keys: Seq<Option<Seq<char>>>, head: int, n: int) -> Seq<int>
    decreases n,
{
    if n <= 0 || n > keys.len() {
        Seq::empty()
    } else if lane_head(keys, n - 1) == head {
        lane_members(keys, head, n - 1).push(n - 1)
    } else {
        lane_members(keys, head, n - 1)
    }
}

/// The lanes of a batch: one for each head, in the order of the heads,
/// each with its events in the order they came.
pub open spec fn lanes_of(keys: Seq<Option<Seq<char>>>) -> Seq<Seq<int>> {
    lane_heads(keys, keys.len() as int).map_values(
        |head: int| lane_members(keys, head, keys.len() as int),
    )
}

/// The first event of a group stands at or before every event of the
/// group, and is of the group itself.
pub proof fn lemma_first_of_group(keys: Seq<Option<Seq<char>>>, key: Seq<char>, from: int, i: int)
    requires
        0 <= from <= i < keys.len(),
        keys[i] == Some(key),
    ensures
        from <= first_of_group(keys, key, from) <= i,
        keys[first_of_group(keys, key, from)] == Some(key),
    decreases keys.len() - from,
{
    if keys[from] != Some(key) {
        lemma_first_of_group(keys, key, from + 1, i);
    }
}

/// A lane holds its events in rising order, and holds every event that
/// belongs to it.
pub proof fn lemma_lane_members(keys: Seq<Option<Seq<char>>>, head: int, n: int)
    requires
        0 <= n <= keys.len(),
    ensures
        forall|p: int|
            0 <= p < lane_members(keys, head, n).len() ==> 0 <= (#[trigger] lane_members(
                keys,
                head,
                n,
            )[p]) < n && lane_head(keys, lane_members(keys, head, n)[p]) == head,
        forall|p: int, q: int|
            0 <= p < q < lane_members(keys, head, n).len() ==> lane_members(keys, head, n)[p]
                < lane_members(keys, head, n)[q],
        forall|i: int|
            0 <= i < n && lane_head(keys, i) == head ==> lane_members(keys, head, n).contains(i),
    decreases n,
{
    if n > 0 {
        lemma_lane_members(keys, head, n - 1);
        let before = lane_members(keys, head, n - 1);
        let all = lane_members(keys, head, n);
        assert forall|i: int| 0 <= i < n && lane_head(keys, i) == head implies all.contains(i) by {
            if i < n - 1 {
                assert(before.contains(i));
                let p = choose|p: int| 0 <= p < before.len() && before[p] == i;
                assert(all[p] == i);
            } else {
                assert(all[all.len() - 1] == i);
            }
        }
    }
}

/// Two events of one ordering group are handled in one lane, the earlier
/// before the later.
pub proof fn lemma_same_group_in_order(keys: Seq<Option<Seq<char>>>, i: int, j: int)
    requires
        0 <= i < j < keys.len(),
        keys[i] is Some,
        keys[i] == keys[j],
    ensures
        lane_head(keys, i) == lane_head(keys, j),
        exists|p: int, q: int|
            0 <= p < q < lane_members(keys, lane_head(keys, i), keys.len() as int).len()
                && lane_members(keys, lane_head(keys, i), keys.len() as int)[p] == i
                && lane_members(keys, lane_head(keys, i), keys.len() as int)[q] == j,
{
    let n = keys.len() as int;
    let head = lane_head(keys, i);
    let lane = lane_members(keys, head, n);
    lemma_lane_members(keys, head, n);
    assert(keys[j] == Some(keys[i]->0));
    assert(lane_head(keys, j) == head);
    assert(lane.contains(i));
    assert(lane.contains(j));
    let p = choose|p: int| 0 <= p < lane.len() && lane[p] == i;
    let q = choose|q: int| 0 <= q < lane.len() && lane[q] == j;
    if p > q {
        assert(lane[q] < lane[p]);
    }
    assert(0 <= p < q < lane.len() && lane[p] == i && lane[q] == j);
}

fn head_of(group_keys: &Vec<Option<String>>, i: usize) -> (head: usize)
    requires
        i < group_keys.len(),
    ensures
        head == lane_head(group_keys.deep_view(), i as int),
        head <= i,
{
    let ghost keys = group_keys.deep_view();
    match &group_keys[i] {
        None => i,
        Some(key) => {
            let mut at: usize = 0;
            proof {
                lemma_first_of_group(keys, key@, 0, i as int);
            }
            while at < i
                invariant
                    at <= i < group_keys.len(),
                    keys == group_keys.deep_view(),
                    keys[i as int] == Some(key@),
                    first_of_group(keys, key@, 0) == first_of_group(keys, key@, at as int),
                decreases i - at,
            {
                let same = match &group_keys[at] {
                    Some(other) => same_text(other.as_str(), key.as_str()),
                    None => false,
                };
                if same {
                    return at;
                }
                at += 1;
            }
            at
        },
    }
}

/// Parts a batch into lanes, given the ordering group of each of its
/// events. The lanes may be worked side by side; the events of a lane are
/// handled one after another in the order given.
pub fn plan_batch(group_keys: &Vec<Option<String>>) -> (lanes: Vec<Vec<usize>>)
    ensures
        lanes@.len() == lanes_of(group_keys.deep_view()).len(),
        forall|l: int|
            0 <= l < lanes@.len() ==> (#[trigger] lanes@[l])@.map_values(|i: usize| i as int)
                == lanes_of(group_keys.deep_view())[l],
{
    let ghost keys = group_keys.deep_view();
    let n = group_keys.len();
    let mut lanes: Vec<Vec<usize>> = Vec::new();
    let mut i: usize = 0;
    while i < n
        invariant
            i <= n,
            n == group_keys.len(),
            keys == group_keys.deep_view(),
            lanes@.len() == lane_heads(keys, i as int).len(),
            forall|l: int|
                0 <= l < lanes@.len() ==> (#[trigger] lanes@[l])@.map_values(|x: usize| x as int)
                    == lane_members(keys, lane_heads(keys, i as int)[l], n as int),
        decreases n - i,
    {
        if head_of(group_keys, i) == i {
            let mut lane: Vec<usize> = Vec::new();
            let mut j: usize = 0;
            assert(lane@.map_values(|x: usize| x as int) =~= lane_members(keys, i as int, 0));
            while j < n
                invariant
                    j <= n,
                    i < n,
                    n == group_keys.len(),
                    keys == group_keys.deep_view(),
                    lane@.map_values(|x: usize| x as int) == lane_members(
                        keys,
                        i as int,
                        j as int,
                    ),
                decreases n - j,
            {
                let ghost before = lane@.map_values(|x: usize| x as int);
                if head_of(group_keys, j) == i {
                    lane.push(j);
                    assert(lane@.map_values(|x: usize| x as int) =~= before.push(j as int));
                }
                j += 1;
            }
            let ghost old_lanes = lanes@;
            lanes.push(lane);
            assert forall|l: int| 0 <= l < lanes@.len() implies (#[trigger] lanes@[l])@.map_values(
                |x: usize| x as int,
            ) == lane_members(keys, lane_heads(keys, i + 1)[l], n as int) by {
                if l < old_lanes.len() {
                    assert(lanes@[l] == old_lanes[l]);
                }
            }
        }
        i += 1;
    }
    assert(keys.len() == n);
    lanes
}

/// Where the cursor stands after a batch: past the last of the events
/// handled before the first failure. It stays where it was if the batch is
/// empty or its first event failed.
pub open spec fn cursor_after(cursor: u64, event_ids: Seq<u64>, succeeded: Seq<bool>, n: int) -> u64
    decreases n,
{
    if n <= 0 || n > event_ids.len() || n > succeeded.len() {
        cursor
    } else if forall|k: int| 0 <= k < n ==> succeeded[k] {
        event_ids[n - 1]
    } else {
        cursor_after(cursor, event_ids, succeeded, n - 1)
    }
}

/// Moves a subscriber's cursor after a batch, given the identifier of
/// each event of the batch and whether its handling succeeded.
pub fn advance_cursor(cursor: u64, event_ids: &Vec<u64>, succeeded: &Vec<bool>) -> (next: u64)
    requires
        event_ids.len() == succeeded.len(),
    ensures
        next == cursor_after(cursor, event_ids@, succeeded@, event_ids.len() as int),
{
    let mut next = cursor;
    let mut i: usize = 0;
    let mut all_good = true;
    while i < event_ids.len()
        invariant
            i <= event_ids.len(),
            event_ids.len() == succeeded.len(),
            all_good == (forall|k: int| 0 <= k < i ==> succeeded@[k]),
            next == cursor_after(cursor, event_ids@, succeeded@, i as int),
        decreases event_ids.len() - i,
    {
        if all_good && succeeded[i] {
            next = event_ids[i];
        } else {
            proof {
                if all_good {
                    assert(!succeeded@[i as int]);
                }
            }
            all_good = false;
        }
        i += 1;
    }
    next
}

} // verus!
