//! A binary min-heap with a fixed capacity. Once full, it keeps an incoming
//! item only if it scores above the current minimum, which it then evicts,
//! so after any sequence of pushes it holds the highest-scoring items seen.

use vstd::multiset::Multiset;
use vstd::prelude::*;
use vstd::seq_lib::*;

verus! {

/// Items that a heap can order: each has an integer score.
pub trait Scored {
    spec fn score_spec(&self) -> nat;

    fn score(&self) -> (s: u64)
        ensures
            s == self.score_spec(),
    ;
}

impl Scored for u64 {
    open spec fn score_spec(&self) -> nat {
        *self as nat
    }

    fn score(&self) -> (s: u64) {
        *self
    }
}

impl Scored for u32 {
    open spec fn score_spec(&self) -> nat {
        *self as nat
    }

    fn score(&self) -> (s: u64) {
        *self as u64
    }
}

/// Exchanges two elements. Wraps the slice method `swap`, which exchanges
/// the elements at the two positions and leaves all others in place.
#[verifier::external_body]
fn swap_items<T>(v: &mut Vec<T>, i: usize, j: usize)
    requires
        i < old(v).len(),
        j < old(v).len(),
    ensures
        final(v)@ == old(v)@.update(i as int, old(v)@[j as int]).update(j as int, old(v)@[i as int]),
{
    v.swap(i, j);
}

/// Every element is at least as large as its parent.
pub open spec fn is_min_heap<T: Scored>(s: Seq<T>) -> bool {
    forall|i: int| 0 < i < s.len() ==> (#[trigger] s[(i - 1) / 2]).score_spec() <= s[i].score_spec()
}

/// The heap order holds except between `pos` and its parent.
spec fn heap_but_above<T: Scored>(s: Seq<T>, pos: int) -> bool {
    &&& forall|i: int|
        0 < i < s.len() && i != pos ==> (#[trigger] s[(i - 1) / 2]).score_spec()
            <= s[i].score_spec()
    &&& pos > 0 ==> forall|i: int|
        0 < i < s.len() && (i - 1) / 2 == pos ==> s[(pos - 1) / 2].score_spec()
            <= (#[trigger] s[i]).score_spec()
}

/// The heap order holds except between `pos` and its children.
spec fn heap_but_below<T: Scored>(s: Seq<T>, pos: int) -> bool {
    &&& forall|i: int|
        0 < i < s.len() && (i - 1) / 2 != pos ==> (#[trigger] s[(i - 1) / 2]).score_spec()
            <= s[i].score_spec()
    &&& pos > 0 ==> forall|i: int|
        0 < i < s.len() && (i - 1) / 2 == pos ==> s[(pos - 1) / 2].score_spec()
            <= (#[trigger] s[i]).score_spec()
}

/// Every item of `lows` scores at most as much as every item of `highs`.
pub open spec fn all_at_most<T: Scored>(lows: Multiset<T>, highs: Multiset<T>) -> bool {
    forall|a: T, b: T|
        lows.contains(a) && highs.contains(b) ==> a.score_spec() <= b.score_spec()
}

/// `kept` is a selection of the `k` highest-scoring items of `fed`: it is
/// part of `fed`, as large as `k` allows, and nothing left out scores
/// above anything kept.
pub open spec fn is_top_k<T: Scored>(kept: Multiset<T>, fed: Multiset<T>, k: nat) -> bool {
    &&& kept.subset_of(fed)
    &&& kept.len() == if fed.len() < k {
        fed.len()
    } else {
        k
    }
    &&& all_at_most(fed.sub(kept), kept)
}

/// What a heap holds after a push: the item is added while there is room;
/// a full heap trades its minimum `root` for an item that scores higher
/// and otherwise stays as it is.
pub open spec fn push_outcome<T: Scored>(
    before: Multiset<T>,
    root: T,
    capacity: nat,
    item: T,
) -> Multiset<T> {
    if before.len() < capacity {
        before.insert(item)
    } else if capacity > 0 && item.score_spec() > root.score_spec() {
        before.remove(root).insert(item)
    } else {
        before
    }
}

/// `s` is ordered from the highest score to the lowest.
pub open spec fn sorted_desc<T: Scored>(s: Seq<T>) -> bool {
    forall|i: int, j: int| 0 <= i <= j < s.len() ==> s[i].score_spec() >= s[j].score_spec()
}

proof fn lemma_swap_keeps_items<T>(s: Seq<T>, i: int, j: int)
    requires
        0 <= i < s.len(),
        0 <= j < s.len(),
    ensures
        s.update(i, s[j]).update(j, s[i]).to_multiset() == s.to_multiset(),
{
    broadcast use {
        vstd::multiset::group_multiset_axioms,
        vstd::multiset::group_multiset_properties,
        to_multiset_update,
        to_multiset_contains,
    };

    let s1 = s.update(i, s[j]);
    assert(s1.to_multiset() == s.to_multiset().insert(s[j]).remove(s[i]));
    assert(s1.update(j, s[i]).to_multiset() == s1.to_multiset().insert(s[i]).remove(s1[j]));
    assert(s.contains(s[i]));
    assert(s.contains(s[j]));
    assert(s1.update(j, s[i]).to_multiset() =~= s.to_multiset());
}

proof fn lemma_root_is_least<T: Scored>(s: Seq<T>, i: int)
    requires
        is_min_heap(s),
        0 <= i < s.len(),
    ensures
        s[0].score_spec() <= s[i].score_spec(),
    decreases i,
{
    if i > 0 {
        lemma_root_is_least(s, (i - 1) / 2);
        assert(s[(i - 1) / 2].score_spec() <= s[i].score_spec());
    }
}

/// A heap that holds `k` of the best items it was fed still does so after
/// one more push: if `kept` is a top-`k` selection of `fed` and `root` is a
/// lowest-scoring item of `kept`, then what a push of `item` leaves is a
/// top-`k` selection of `fed` with `item` added.
pub proof fn lemma_push_keeps_top_k<T: Scored>(
    kept: Multiset<T>,
    root: T,
    fed: Multiset<T>,
    k: nat,
    item: T,
)
    requires
        is_top_k(kept, fed, k),
        kept.len() > 0 ==> kept.contains(root) && forall|x: T|
            kept.contains(x) ==> root.score_spec() <= x.score_spec(),
    ensures
        is_top_k(push_outcome(kept, root, k, item), fed.insert(item), k),
{
    broadcast use
        vstd::multiset::group_multiset_axioms,
        vstd::multiset::group_multiset_properties,
    ;

    let after = push_outcome(kept, root, k, item);
    let fed2 = fed.insert(item);
    vstd::multiset::axiom_len_sub(fed, kept);
    if kept.len() < k {
        assert(fed.sub(kept).len() == 0);
        assert(fed.sub(kept) =~= Multiset::<T>::empty()) by {
            assert forall|v: T| fed.sub(kept).count(v) == 0 by {
                vstd::multiset::axiom_count_le_len(fed.sub(kept), v);
            }
        }
        assert(fed2.sub(after) =~= Multiset::<T>::empty()) by {
            assert forall|v: T| fed2.sub(after).count(v) == 0 by {
                assert(fed.sub(kept).count(v) == 0);
            }
        }
        assert(after.subset_of(fed2));
    } else if k > 0 && item.score_spec() > root.score_spec() {
        assert(kept.len() > 0);
        assert(after.subset_of(fed2));
        assert(fed2.sub(after) =~= fed.sub(kept).insert(root));
        assert(all_at_most(fed2.sub(after), after)) by {
            assert forall|a: T, b: T| fed2.sub(after).contains(a) && after.contains(b) implies a.score_spec()
                <= b.score_spec() by {
                if fed.sub(kept).contains(a) {
                    assert(kept.contains(root));
                    if kept.contains(b) {
                    }
                } else {
                    assert(a == root);
                    if kept.contains(b) {
                    }
                }
            }
        }
    } else {
        assert(after.subset_of(fed2));
        assert(fed2.sub(after) =~= fed.sub(kept).insert(item));
        assert(all_at_most(fed2.sub(after), after)) by {
            assert forall|a: T, b: T| fed2.sub(after).contains(a) && after.contains(b) implies a.score_spec()
                <= b.score_spec() by {
                if fed.sub(kept).contains(a) {
                } else {
                    assert(a == item);
                    assert(kept.len() > 0) by {
                        vstd::multiset::axiom_count_le_len(kept, b);
                    }
                }
            }
        }
    }
}

/// The sequence with the elements at two places exchanged.
pub open spec fn swapped<T>(s: Seq<T>, i: int, j: int) -> Seq<T> {
    s.update(i, s[j]).update(j, s[i])
}

/// The arrangement after the element at `pos` has risen to its place: it
/// changes places with its parent as long as it scores less.
pub open spec fn sifted_up<T: Scored>(s: Seq<T>, pos: int) -> Seq<T>
    decreases pos,
{
    if 0 < pos < s.len() && s[pos].score_spec() < s[(pos - 1) / 2].score_spec() {
        sifted_up(swapped(s, pos, (pos - 1) / 2), (pos - 1) / 2)
    } else {
        s
    }
}

/// The lower-scoring child of the element at `pos`, the left one if both
/// score alike.
pub open spec fn lower_child<T: Scored>(s: Seq<T>, pos: int) -> int {
    if 2 * pos + 2 < s.len() && s[2 * pos + 2].score_spec() < s[2 * pos + 1].score_spec() {
        2 * pos + 2
    } else {
        2 * pos + 1
    }
}

/// The arrangement after the element at `pos` has sunk to its place: it
/// changes places with its lower-scoring child as long as that scores
/// less.
pub open spec fn sifted_down<T: Scored>(s: Seq<T>, pos: int) -> Seq<T>
    decreases s.len() - pos,
{
    if 0 <= pos && 2 * pos + 1 < s.len() && s[lower_child(s, pos)].score_spec()
        < s[pos].score_spec() {
        sifted_down(swapped(s, pos, lower_child(s, pos)), lower_child(s, pos))
    } else {
        s
    }
}

/// The arrangement of a heap after a push: while there is room the item
/// enters at the end and rises; once the heap is full, an item that scores
/// above the root takes the root's place and sinks, and any other item is
/// let go.
pub open spec fn pushed<T: Scored>(s: Seq<T>, capacity: nat, item: T) -> Seq<T> {
    if s.len() < capacity {
        sifted_up(s.push(item), s.len() as int)
    } else if capacity > 0 && item.score_spec() > s[0].score_spec() {
        sifted_down(s.update(0, item), 0)
    } else {
        s
    }
}

/// The arrangement of a heap after its root has been taken: the last
/// element takes the root's place and sinks.
pub open spec fn popped<T: Scored>(s: Seq<T>) -> Seq<T> {
    if s.len() <= 1 {
        Seq::empty()
    } else {
        sifted_down(s.update(0, s.last()).drop_last(), 0)
    }
}

/// The first `n` items that a heap of the given arrangement hands out, one
/// pop after another: lowest score first.
pub open spec fn pop_order<T: Scored>(s: Seq<T>, n: int) -> Seq<T>
    decreases n,
{
    if n <= 0 || s.len() == 0 {
        Seq::empty()
    } else {
        seq![s[0]] + pop_order(popped(s), n - 1)
    }
}

/// All items that a heap of the given arrangement holds, in the order in
/// which it drains them: highest score first.
pub open spec fn drain_order<T: Scored>(s: Seq<T>) -> Seq<T> {
    pop_order(s, s.len() as int).reverse()
}

/// The arrangement of a heap of the given capacity that was empty and has
/// been offered the items one after another.
pub open spec fn fed<T: Scored>(capacity: nat, items: Seq<T>) -> Seq<T>
    decreases items.len(),
{
    if items.len() == 0 {
        Seq::empty()
    } else {
        pushed(fed(capacity, items.drop_last()), capacity, items.last())
    }
}

fn sift_up<T: Scored>(v: &mut Vec<T>, start: usize)
    requires
        start < old(v).len(),
        heap_but_above(old(v)@, start as int),
    ensures
        is_min_heap(final(v)@),
        final(v)@.to_multiset() == old(v)@.to_multiset(),
        final(v).len() == old(v).len(),
        final(v)@ == sifted_up(old(v)@, start as int),
{
    let mut pos: usize = start;
    while pos > 0
        invariant_except_break
            heap_but_above(v@, pos as int),
            sifted_up(old(v)@, start as int) == sifted_up(v@, pos as int),
        invariant
            pos < v.len(),
            v.len() == old(v).len(),
            v@.to_multiset() == old(v)@.to_multiset(),
        ensures
            is_min_heap(v@),
            v@ == sifted_up(old(v)@, start as int),
        decreases pos,
    {
        let parent: usize = (pos - 1) / 2;
        if v[pos].score() < v[parent].score() {
            proof {
                lemma_swap_keeps_items(v@, pos as int, parent as int);
            }
            let ghost before = v@;
            swap_items(v, pos, parent);
            assert(heap_but_above(v@, parent as int)) by {
                assert forall|i: int| 0 < i < v@.len() && i != parent implies (#[trigger] v@[(i
                    - 1) / 2]).score_spec() <= v@[i].score_spec() by {
                    if i == pos {
                    } else if (i - 1) / 2 == pos {
                        assert(before[(pos - 1) / 2].score_spec() <= before[i].score_spec());
                    } else if (i - 1) / 2 == parent {
                        assert(before[(i - 1) / 2].score_spec() <= before[i].score_spec());
                    } else {
                        assert(before[(i - 1) / 2].score_spec() <= before[i].score_spec());
                    }
                }
                if parent > 0 {
                    assert forall|i: int|
                        0 < i < v@.len() && (i - 1) / 2 == parent implies v@[(parent - 1)
                            / 2].score_spec() <= (#[trigger] v@[i]).score_spec() by {
                        assert(before[(parent - 1) / 2].score_spec()
                            <= before[parent as int].score_spec());
                        if i != pos {
                            assert(before[(i - 1) / 2].score_spec() <= before[i].score_spec());
                        }
                    }
                }
            }
            pos = parent;
        } else {
            assert(is_min_heap(v@)) by {
                assert forall|i: int| 0 < i < v@.len() implies (#[trigger] v@[(i - 1)
                    / 2]).score_spec() <= v@[i].score_spec() by {
                    if i != pos {
                    }
                }
            }
            break;
        }
    }
}

fn sift_down<T: Scored>(v: &mut Vec<T>, start: usize)
    requires
        start < old(v).len(),
        heap_but_below(old(v)@, start as int),
    ensures
        is_min_heap(final(v)@),
        final(v)@.to_multiset() == old(v)@.to_multiset(),
        final(v).len() == old(v).len(),
        final(v)@ == sifted_down(old(v)@, start as int),
{
    let len: usize = v.len();
    let mut pos: usize = start;
    loop
        invariant_except_break
            heap_but_below(v@, pos as int),
            sifted_down(old(v)@, start as int) == sifted_down(v@, pos as int),
        invariant
            pos < v.len(),
            len == v.len(),
            v.len() == old(v).len(),
            v@.to_multiset() == old(v)@.to_multiset(),
        ensures
            is_min_heap(v@),
            v@ == sifted_down(old(v)@, start as int),
        decreases len - pos,
    {
        if len < 2 || pos > (len - 2) / 2 {
            assert(is_min_heap(v@)) by {
                assert forall|i: int| 0 < i < v@.len() implies (#[trigger] v@[(i - 1)
                    / 2]).score_spec() <= v@[i].score_spec() by {
                    assert((i - 1) / 2 != pos);
                }
            }
            break;
        }
        let left: usize = 2 * pos + 1;
        let right: usize = left + 1;
        let child: usize = if right < len && v[right].score() < v[left].score() {
            right
        } else {
            left
        };
        assert(child == lower_child(v@, pos as int));
        if v[child].score() < v[pos].score() {
            proof {
                lemma_swap_keeps_items(v@, pos as int, child as int);
            }
            let ghost before = v@;
            swap_items(v, pos, child);
            assert(heap_but_below(v@, child as int)) by {
                assert forall|i: int|
                    0 < i < v@.len() && (i - 1) / 2 != child implies (#[trigger] v@[(i - 1)
                        / 2]).score_spec() <= v@[i].score_spec() by {
                    if i == child {
                    } else if (i - 1) / 2 == pos {
                        assert(i == left || i == right);
                    } else if i == pos {
                        assert(before[(pos - 1) / 2].score_spec() <= before[child as int].score_spec());
                    } else {
                        assert(before[(i - 1) / 2].score_spec() <= before[i].score_spec());
                    }
                }
                assert forall|i: int|
                    0 < i < v@.len() && (i - 1) / 2 == child implies v@[(child - 1)
                        / 2].score_spec() <= (#[trigger] v@[i]).score_spec() by {
                    assert(before[(i - 1) / 2].score_spec() <= before[i].score_spec());
                }
            }
            pos = child;
        } else {
            assert(is_min_heap(v@)) by {
                assert forall|i: int| 0 < i < v@.len() implies (#[trigger] v@[(i - 1)
                    / 2]).score_spec() <= v@[i].score_spec() by {
                    if (i - 1) / 2 == pos {
                        assert(i == left || i == right);
                    }
                }
            }
            break;
        }
    }
}

/// A min-heap that never holds more than `capacity` items.
pub struct BoundedMinHeap<T: Scored> {
    heap: Vec<T>,
    capacity: usize,
}

impl<T: Scored> BoundedMinHeap<T> {
    /// The items held, in the arrangement in which the heap keeps them.
    pub closed spec fn arrangement(&self) -> Seq<T> {
        self.heap@
    }

    /// The items held, without regard to their arrangement.
    pub open spec fn items(&self) -> Multiset<T> {
        self.arrangement().to_multiset()
    }

    /// The largest number of items the heap will hold.
    pub closed spec fn capacity(&self) -> nat {
        self.capacity as nat
    }

    /// The item that `peek` shows and `pop` removes; a lowest-scoring one.
    /// Meaningful only while the heap is not empty.
    pub open spec fn root(&self) -> T {
        self.arrangement()[0]
    }

    /// The heap is ordered and within its capacity.
    pub closed spec fn wf(&self) -> bool {
        &&& is_min_heap(self.heap@)
        &&& self.heap@.len() <= self.capacity
    }

    /// A well-formed heap is within its capacity, and while it is not
    /// empty its root is one of its items and scores lowest among them.
    pub proof fn lemma_root_is_minimum(&self)
        requires
            self.wf(),
        ensures
            self.items().len() <= self.capacity(),
            self.items().len() > 0 ==> self.items().contains(self.root()),
            self.items().len() > 0 ==> forall|x: T|
                self.items().contains(x) ==> self.root().score_spec() <= x.score_spec(),
    {
        broadcast use to_multiset_len, to_multiset_contains;

        let s = self.heap@;
        if s.len() > 0 {
            assert(s.contains(s[0]));
            assert forall|x: T| self.items().contains(x) implies self.root().score_spec()
                <= x.score_spec() by {
                assert(s.contains(x));
                let i = choose|i: int| 0 <= i < s.len() && s[i] == x;
                lemma_root_is_least(s, i);
            }
        }
    }

    /// An empty heap that will hold up to `capacity` items.
    pub fn new(capacity: usize) -> (heap: Self)
        ensures
            heap.wf(),
            heap.capacity() == capacity,
            heap.arrangement() == Seq::<T>::empty(),
            heap.items() == Multiset::<T>::empty(),
    {
        let heap = Self { heap: Vec::new(), capacity };
        proof {
            assert(heap.heap@.to_multiset() =~= Multiset::<T>::empty()) by {
                broadcast use to_multiset_len, vstd::multiset::group_multiset_axioms;

                assert(heap.heap@.to_multiset().len() == 0);
            }
        }
        heap
    }

    /// The number of items held.
    pub fn len(&self) -> (n: usize)
        ensures
            n == self.items().len(),
    {
        proof {
            broadcast use to_multiset_len;

        }
        self.heap.len()
    }

    /// Offers an item to the heap. See [`push_outcome`] for what is kept.
    pub fn push(&mut self, item: T)
        requires
            old(self).wf(),
        ensures
            final(self).wf(),
            final(self).capacity() == old(self).capacity(),
            final(self).items() == push_outcome(
                old(self).items(),
                old(self).root(),
                old(self).capacity(),
                item,
            ),
            final(self).arrangement() == pushed(
                old(self).arrangement(),
                old(self).capacity(),
                item,
            ),
    {
        proof {
            broadcast use to_multiset_len;

        }
        let ghost before = self.heap@;
        if self.heap.len() < self.capacity {
            self.heap.push(item);
            proof {
                to_multiset_build(before, item);
                assert(heap_but_above(self.heap@, before.len() as int)) by {
                    assert forall|i: int|
                        0 < i < self.heap@.len() && i != before.len() implies (
                    #[trigger] self.heap@[(i - 1) / 2]).score_spec()
                        <= self.heap@[i].score_spec() by {
                        assert(before[(i - 1) / 2].score_spec() <= before[i].score_spec());
                    }
                }
            }
            let last: usize = self.heap.len() - 1;
            sift_up(&mut self.heap, last);
        } else if self.capacity > 0 && item.score() > self.heap[0].score() {
            self.heap.push(item);
            let _evicted = self.heap.swap_remove(0);
            proof {
                assert(self.heap@ =~= before.update(0, item));
                to_multiset_update(before, 0, item);
                assert(self.heap@.to_multiset() =~= before.to_multiset().remove(before[0]).insert(
                    item,
                )) by {
                    broadcast use
                        vstd::multiset::group_multiset_axioms,
                        vstd::multiset::group_multiset_properties,
                        to_multiset_contains,
                    ;

                    assert(before.contains(before[0]));
                }
                assert(heap_but_below(self.heap@, 0)) by {
                    assert forall|i: int|
                        0 < i < self.heap@.len() && (i - 1) / 2 != 0 implies (
                    #[trigger] self.heap@[(i - 1) / 2]).score_spec()
                        <= self.heap@[i].score_spec() by {
                        assert(before[(i - 1) / 2].score_spec() <= before[i].score_spec());
                    }
                }
            }
            sift_down(&mut self.heap, 0);
        }
    }

    /// Removes and returns the root; `None` if the heap is empty.
    pub fn pop(&mut self) -> (item: Option<T>)
        requires
            old(self).wf(),
        ensures
            final(self).wf(),
            final(self).capacity() == old(self).capacity(),
            old(self).items().len() == 0 ==> item is None && final(self).items() == old(
                self,
            ).items(),
            old(self).items().len() > 0 ==> item == Some(old(self).root()) && final(self).items()
                == old(self).items().remove(old(self).root()),
            final(self).arrangement() == popped(old(self).arrangement()),
    {
        proof {
            broadcast use to_multiset_len;

        }
        if self.heap.len() == 0 {
            return None;
        }
        let ghost before = self.heap@;
        let item = self.heap.swap_remove(0);
        proof {
            let last = before.len() - 1;
            assert(self.heap@ =~= before.update(0, before[last]).remove(last));
            to_multiset_update(before, 0, before[last]);
            to_multiset_remove(before.update(0, before[last]), last);
            assert(self.heap@.to_multiset() =~= before.to_multiset().remove(before[0])) by {
                broadcast use
                    vstd::multiset::group_multiset_axioms,
                    vstd::multiset::group_multiset_properties,
                    to_multiset_contains,
                ;

                assert(before.contains(before[0]));
                assert(before.contains(before[last]));
            }
        }
        if self.heap.len() > 0 {
            proof {
                assert(heap_but_below(self.heap@, 0)) by {
                    assert forall|i: int|
                        0 < i < self.heap@.len() && (i - 1) / 2 != 0 implies (
                    #[trigger] self.heap@[(i - 1) / 2]).score_spec()
                        <= self.heap@[i].score_spec() by {
                        assert(before[(i - 1) / 2].score_spec() <= before[i].score_spec());
                    }
                }
            }
            sift_down(&mut self.heap, 0);
        }
        Some(item)
    }

    /// Shows the root without removing it; `None` if the heap is empty.
    pub fn peek(&self) -> (item: Option<&T>)
        ensures
            self.items().len() == 0 ==> item is None,
            self.items().len() > 0 ==> item == Some(&self.root()),
    {
        proof {
            broadcast use to_multiset_len;

        }
        if self.heap.len() == 0 {
            None
        } else {
            Some(&self.heap[0])
        }
    }

    /// Empties the heap and returns what it held, in no particular order.
    pub fn drain(&mut self) -> (items: Vec<T>)
        requires
            old(self).wf(),
        ensures
            final(self).wf(),
            final(self).capacity() == old(self).capacity(),
            final(self).items() == Multiset::<T>::empty(),
            items@.to_multiset() == old(self).items(),
    {
        let mut items: Vec<T> = Vec::new();
        std::mem::swap(&mut items, &mut self.heap);
        proof {
            assert(self.heap@.to_multiset() =~= Multiset::<T>::empty()) by {
                broadcast use to_multiset_len, vstd::multiset::group_multiset_axioms;

                assert(self.heap@.to_multiset().len() == 0);
            }
        }
        items
    }
    /// Empties the heap and returns what it held, highest score first.
    pub fn drain_sorted_desc(&mut self) -> (items: Vec<T>)
        requires
            old(self).wf(),
        ensures
            final(self).wf(),
            final(self).capacity() == old(self).capacity(),
            final(self).items() == Multiset::<T>::empty(),
            items@.to_multiset() == old(self).items(),
            sorted_desc(items@),
            items@ == drain_order(old(self).arrangement()),
    {
        let ghost start = self.arrangement();
        let mut ascending: Vec<T> = Vec::new();
        assert(ascending@ + pop_order(start, start.len() as int) =~= pop_order(
            start,
            start.len() as int,
        ));
        proof {
            broadcast use to_multiset_len, vstd::multiset::group_multiset_axioms;

            assert(ascending@.to_multiset().len() == 0);
            assert(ascending@.to_multiset().add(self.items()) =~= self.items());
        }
        while self.len() > 0
            invariant
                self.wf(),
                self.capacity() == old(self).capacity(),
                ascending@.to_multiset().add(self.items()) == old(self).items(),
                ascending@ + pop_order(self.arrangement(), self.arrangement().len() as int)
                    == pop_order(start, start.len() as int),
                forall|i: int, j: int|
                    0 <= i <= j < ascending@.len() ==> ascending@[i].score_spec()
                        <= ascending@[j].score_spec(),
                forall|i: int, x: T|
                    0 <= i < ascending@.len() && self.items().contains(x)
                        ==> ascending@[i].score_spec() <= x.score_spec(),
            decreases self.items().len(),
        {
            proof {
                self.lemma_root_is_minimum();
            }
            let ghost held = self.items();
            let ghost least = self.root();
            let ghost sorted = ascending@;
            let ghost arranged = self.arrangement();
            proof {
                to_multiset_len(arranged);
            }
            let popped = self.pop();
            let item = popped.unwrap();
            ascending.push(item);
            proof {
                to_multiset_len(self.arrangement());
                assert(self.arrangement().len() == arranged.len() - 1);
                assert(ascending@ + pop_order(
                    self.arrangement(),
                    self.arrangement().len() as int,
                ) =~= sorted + pop_order(arranged, arranged.len() as int));
            }
            proof {
                broadcast use
                    vstd::multiset::group_multiset_axioms,
                    vstd::multiset::group_multiset_properties,
                ;

                to_multiset_build(sorted, item);
                assert(ascending@.to_multiset().add(self.items()) =~= sorted.to_multiset().add(
                    held,
                ));
                assert forall|i: int, x: T|
                    0 <= i < ascending@.len() && self.items().contains(x) implies ascending@[i].score_spec()
                        <= x.score_spec() by {
                    assert(held.contains(x));
                }
            }
        }
        proof {
            broadcast use vstd::multiset::group_multiset_axioms;

            assert(self.items() =~= Multiset::<T>::empty()) by {
                assert forall|v: T| self.items().count(v) == 0 by {
                    vstd::multiset::axiom_count_le_len(self.items(), v);
                }
            }
            assert(ascending@.to_multiset() =~= old(self).items());
            to_multiset_len(self.arrangement());
            assert(ascending@ =~= pop_order(start, start.len() as int));
        }
        let ghost all = ascending@;
        let mut items: Vec<T> = Vec::new();
        while ascending.len() > 0
            invariant
                ascending@.len() + items@.len() == all.len(),
                ascending@ == all.subrange(0, ascending@.len() as int),
                forall|k: int| 0 <= k < items@.len() ==> items@[k] == all[all.len() - 1 - k],
            decreases ascending@.len(),
        {
            let item = ascending.pop().unwrap();
            items.push(item);
        }
        proof {
            assert(items@ =~= all.reverse());
            all.lemma_reverse_to_multiset();
        }
        items
    }
}

/// The `k` highest-scoring of the items, highest first. What is selected
/// is what a heap of capacity `k` drains after it has been offered the
/// items in their order, so the choice among items that score alike
/// depends on the items and their order alone.
pub fn select_top<T: Scored>(items: Vec<T>, k: usize) -> (top: Vec<T>)
    ensures
        is_top_k(top@.to_multiset(), items@.to_multiset(), k as nat),
        sorted_desc(top@),
        top@ == drain_order(fed(k as nat, items@)),
{
    let mut heap: BoundedMinHeap<T> = BoundedMinHeap::new(k);
    let ghost all = items@;
    proof {
        broadcast use vstd::multiset::group_multiset_axioms, to_multiset_len;

        assert(all.take(0) =~= Seq::<T>::empty());
        assert(all.take(0).to_multiset().len() == 0);
        assert(all.take(0).to_multiset() =~= Multiset::<T>::empty());
        assert(Multiset::<T>::empty().sub(Multiset::<T>::empty()) =~= Multiset::<T>::empty());
        assert(is_top_k(heap.items(), all.take(0).to_multiset(), k as nat));
    }
    for item in it: items
        invariant
            all == it.seq(),
            heap.wf(),
            heap.capacity() == k,
            heap.arrangement() == fed(k as nat, all.take(it.index())),
            is_top_k(heap.items(), all.take(it.index()).to_multiset(), k as nat),
    {
        proof {
            heap.lemma_root_is_minimum();
            lemma_push_keeps_top_k(
                heap.items(),
                heap.root(),
                all.take(it.index()).to_multiset(),
                k as nat,
                item,
            );
            assert(all.take(it.index() + 1) =~= all.take(it.index()).push(item));
            assert(all.take(it.index() + 1).drop_last() =~= all.take(it.index()));
            to_multiset_build(all.take(it.index()), item);
        }
        heap.push(item);
    }
    assert(all.take(all.len() as int) =~= all);
    heap.drain_sorted_desc()
}

} // verus!
