//! The order in which the albums of a duplicate group are ranked: by the
//! number of their ratings, most first.

use std::cmp::Ordering;
use vstd::prelude::*;

verus! {

/// How two ranked entries compare: the one with more ratings comes first.
pub open spec fn rating_descending(a: (u32, usize), b: (u32, usize)) -> Ordering {
    if a.0 > b.0 {
        Ordering::Less
    } else if a.0 < b.0 {
        Ordering::Greater
    } else {
        Ordering::Equal
    }
}

/// Compares two ranked entries by their ratings, more ratings first.
pub fn by_rating_descending(a: &(u32, usize), b: &(u32, usize)) -> (order: Ordering)
    ensures
        order == rating_descending(*a, *b),
{
    if a.0 > b.0 {
        Ordering::Less
    } else if a.0 < b.0 {
        Ordering::Greater
    } else {
        Ordering::Equal
    }
}

/// Entries ranked by rating count, most first; each entry is a rating
/// count and a tag that tells the entries apart.
///
/// Wraps `Itertools::sorted_by`, which sorts by the given comparison with
/// a stable sort. So the result holds the entries it was given, no rating
/// count stands before a higher one, and entries of equal rating count
/// keep the order in which they came: where the tags of the input rise
/// strictly, the tags within each run of equal rating counts rise too.
#[verifier::external_body]
pub(crate) fn sorted_by_rating(entries: Vec<(u32, usize)>) -> (ranked: Vec<(u32, usize)>)
    ensures
        ranked@.to_multiset() == entries@.to_multiset(),
        forall|i: int, j: int| 0 <= i < j < ranked@.len() ==> ranked@[i].0 >= ranked@[j].0,
        (forall|i: int, j: int| 0 <= i < j < entries@.len() ==> entries@[i].1 < entries@[j].1)
            ==> (forall|i: int, j: int|
            0 <= i < j < ranked@.len() && ranked@[i].0 == ranked@[j].0 ==> ranked@[i].1
                < ranked@[j].1),
{
    iter_tools::Itertools::sorted_by(entries.into_iter(), |a, b| by_rating_descending(a, b)).collect()
}

} // verus!
