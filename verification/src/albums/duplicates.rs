//! Duplicate groups. Albums that share an artist and, up to the case of
//! ASCII letters, a name are one group. The album with the most ratings
//! is the group's original; the others are its duplicates. Reconciling a
//! group writes this down on its albums: the original lists the file
//! names of its duplicates in dictionary order, and each duplicate names
//! the original.

use crate::albums::album_read_model::{AlbumReadModel, AlbumReadModelView};
use crate::albums::rating_order::sorted_by_rating;
use crate::files::file_name::FileName;
use crate::helpers::text::{
    eq_ignore_ascii_case, eq_ignoring_ascii_case, lemma_lex_le_antisymmetric,
    lemma_lex_le_reflexive, lemma_lex_le_total, lemma_lex_le_transitive, lex_le, lex_order,
};
use vstd::prelude::*;
use vstd::relations::{sorted_by, total_ordering};
use vstd::seq_lib::{lemma_sorted_unique, to_multiset_build};

verus! {

/// Whether two albums name an artist in common.
pub open spec fn shares_artist(a: AlbumReadModelView, b: AlbumReadModelView) -> bool {
    exists|i: int, j: int|
        0 <= i < a.artists.len() && 0 <= j < b.artists.len() && (#[trigger] a.artists[i]).file_name
            == (#[trigger] b.artists[j]).file_name
}

/// Whether an album belongs to the duplicate group of `anchor`.
pub open spec fn in_group(album: AlbumReadModelView, anchor: AlbumReadModelView) -> bool {
    shares_artist(album, anchor) && eq_ignoring_ascii_case(album.name, anchor.name)
}

/// The places, among the first `n` albums, of the members of the group.
pub open spec fn group_of(albums: Seq<AlbumReadModelView>, anchor: AlbumReadModelView, n: int) -> Seq<
    int,
>
    decreases n,
{
    if n <= 0 || n > albums.len() {
        Seq::empty()
    } else if in_group(albums[n - 1], anchor) {
        group_of(albums, anchor, n - 1).push(n - 1)
    } else {
        group_of(albums, anchor, n - 1)
    }
}

/// The place, among the first `n` albums, of the group's original: the
/// first of the members with the most ratings; -1 without members.
pub open spec fn original_of(albums: Seq<AlbumReadModelView>, anchor: AlbumReadModelView, n: int) -> int
    decreases n,
{
    if n <= 0 || n > albums.len() {
        -1
    } else {
        let before = original_of(albums, anchor, n - 1);
        if in_group(albums[n - 1], anchor) && (before < 0 || albums[n - 1].rating_count
            > albums[before].rating_count) {
            n - 1
        } else {
            before
        }
    }
}

/// The album at `o` is a member and no member outranks it: none has more
/// ratings, and none with as many stands before it.
pub open spec fn leads(albums: Seq<AlbumReadModelView>, anchor: AlbumReadModelView, o: int) -> bool {
    &&& 0 <= o < albums.len()
    &&& in_group(albums[o], anchor)
    &&& forall|j: int|
        0 <= j < albums.len() && in_group(#[trigger] albums[j], anchor) ==> albums[j].rating_count
            < albums[o].rating_count || (albums[j].rating_count == albums[o].rating_count && o
            <= j)
}

/// The file names, among the first `n` albums, of the members other than
/// the one at `o`.
pub open spec fn follower_names(
    albums: Seq<AlbumReadModelView>,
    anchor: AlbumReadModelView,
    o: int,
    n: int,
) -> Seq<Seq<char>>
    decreases n,
{
    if n <= 0 || n > albums.len() {
        Seq::empty()
    } else if in_group(albums[n - 1], anchor) && n - 1 != o {
        follower_names(albums, anchor, o, n - 1).push(albums[n - 1].file_name)
    } else {
        follower_names(albums, anchor, o, n - 1)
    }
}

/// Dictionary order as a relation.
pub open spec fn lex_leq() -> spec_fn(Seq<char>, Seq<char>) -> bool {
    |a: Seq<char>, b: Seq<char>| lex_le(a, b)
}

/// The file names that the original lists: those of the other members in
/// dictionary order.
pub open spec fn duplicates_of(albums: Seq<AlbumReadModelView>, anchor: AlbumReadModelView, o: int) -> Seq<
    Seq<char>,
> {
    follower_names(albums, anchor, o, albums.len() as int).sort_by(lex_leq())
}

/// Whether an album is written down as a duplicate of the album named:
/// it names that album as its original and lists no duplicates itself.
pub open spec fn follows(album: AlbumReadModelView, original: Seq<char>) -> bool {
    album.duplicate_of == Some(original) && album.duplicates.len() == 0
}

/// Whether an album is written down as the original of the duplicates
/// named: it lists them and names no original itself.
pub open spec fn heads(album: AlbumReadModelView, duplicates: Seq<Seq<char>>) -> bool {
    album.duplicates == duplicates && album.duplicate_of is None
}

/// The albums with the group of `anchor` written down around the original
/// at `o`: the original lists the others and names no original; each of
/// the others names the original and lists nothing.
pub open spec fn reconciled(albums: Seq<AlbumReadModelView>, anchor: AlbumReadModelView, o: int) -> Seq<
    AlbumReadModelView,
> {
    Seq::new(
        albums.len(),
        |i: int|
            if i == o {
                AlbumReadModelView {
                    duplicates: duplicates_of(albums, anchor, o),
                    duplicate_of: None,
                    ..albums[i]
                }
            } else if in_group(albums[i], anchor) {
                AlbumReadModelView {
                    duplicate_of: Some(albums[o].file_name),
                    duplicates: Seq::empty(),
                    ..albums[i]
                }
            } else {
                albums[i]
            },
    )
}

/// The albums after the group of `anchor` has been reconciled. A group of
/// one album or none is left alone.
pub open spec fn after_reconciliation(
    albums: Seq<AlbumReadModelView>,
    anchor: AlbumReadModelView,
) -> Seq<AlbumReadModelView> {
    if group_of(albums, anchor, albums.len() as int).len() <= 1 {
        albums
    } else {
        reconciled(albums, anchor, original_of(albums, anchor, albums.len() as int))
    }
}

/// Dictionary order is a total order.
pub proof fn lemma_lex_leq_is_total_order()
    ensures
        total_ordering(lex_leq()),
{
    let leq = lex_leq();
    assert forall|x: Seq<char>| #[trigger] leq(x, x) by {
        lemma_lex_le_reflexive(x);
    }
    assert forall|x: Seq<char>, y: Seq<char>| #[trigger] leq(x, y) && #[trigger] leq(y, x) implies x
        == y by {
        lemma_lex_le_antisymmetric(x, y);
    }
    assert forall|x: Seq<char>, y: Seq<char>, z: Seq<char>| #[trigger]
        leq(x, y) && #[trigger] leq(y, z) implies leq(x, z) by {
        lemma_lex_le_transitive(x, y, z);
    }
    assert forall|x: Seq<char>, y: Seq<char>| #[trigger] leq(x, y) || #[trigger] leq(y, x) by {
        lemma_lex_le_total(x, y);
    }
}

/// The group's places are places of members, in rising order, and every
/// member's place is among them.
pub proof fn lemma_group_of(albums: Seq<AlbumReadModelView>, anchor: AlbumReadModelView, n: int)
    requires
        0 <= n <= albums.len(),
    ensures
        forall|k: int|
            0 <= k < group_of(albums, anchor, n).len() ==> 0 <= (#[trigger] group_of(
                albums,
                anchor,
                n,
            )[k]) < n && in_group(albums[group_of(albums, anchor, n)[k]], anchor),
        forall|k: int, l: int|
            0 <= k < l < group_of(albums, anchor, n).len() ==> group_of(albums, anchor, n)[k]
                < group_of(albums, anchor, n)[l],
        forall|i: int|
            0 <= i < n && in_group(#[trigger] albums[i], anchor) ==> group_of(
                albums,
                anchor,
                n,
            ).contains(i),
        group_of(albums, anchor, n).len() <= n,
    decreases n,
{
    if n > 0 {
        lemma_group_of(albums, anchor, n - 1);
        let before = group_of(albums, anchor, n - 1);
        let all = group_of(albums, anchor, n);
        if in_group(albums[n - 1], anchor) {
            assert(all == before.push(n - 1));
            assert(all[all.len() - 1] == n - 1);
            assert forall|i: int| 0 <= i < n && in_group(#[trigger] albums[i], anchor) implies all.contains(
                i,
            ) by {
                if i < n - 1 {
                    assert(before.contains(i));
                    let k = choose|k: int| 0 <= k < before.len() && before[k] == i;
                    assert(all[k] == i);
                }
            }
        }
    }
}

/// The original leads its group, wherever the group has a member.
pub proof fn lemma_original_leads(albums: Seq<AlbumReadModelView>, anchor: AlbumReadModelView, n: int)
    requires
        0 <= n <= albums.len(),
    ensures
        -1 <= original_of(albums, anchor, n) < n,
        original_of(albums, anchor, n) >= 0 ==> in_group(
            albums[original_of(albums, anchor, n)],
            anchor,
        ),
        forall|j: int|
            0 <= j < n && in_group(#[trigger] albums[j], anchor) ==> original_of(albums, anchor, n)
                >= 0 && (albums[j].rating_count < albums[original_of(
                albums,
                anchor,
                n,
            )].rating_count || (albums[j].rating_count == albums[original_of(
                albums,
                anchor,
                n,
            )].rating_count && original_of(albums, anchor, n) <= j)),
    decreases n,
{
    if n > 0 {
        lemma_original_leads(albums, anchor, n - 1);
    }
}

/// A group has one leader only.
pub proof fn lemma_leader_is_original(albums: Seq<AlbumReadModelView>, anchor: AlbumReadModelView, o: int)
    requires
        leads(albums, anchor, o),
    ensures
        original_of(albums, anchor, albums.len() as int) == o,
{
    lemma_original_leads(albums, anchor, albums.len() as int);
    let b = original_of(albums, anchor, albums.len() as int);
    assert(in_group(albums[o], anchor));
    assert(in_group(albums[b], anchor));
}

/// The names of the followers are the file names of the members other
/// than the original.
pub proof fn lemma_follower_names(
    albums: Seq<AlbumReadModelView>,
    anchor: AlbumReadModelView,
    o: int,
    n: int,
)
    requires
        0 <= n <= albums.len(),
    ensures
        forall|i: int|
            0 <= i < n && i != o && in_group(#[trigger] albums[i], anchor) ==> follower_names(
                albums,
                anchor,
                o,
                n,
            ).contains(albums[i].file_name),
    decreases n,
{
    if n > 0 {
        lemma_follower_names(albums, anchor, o, n - 1);
        let before = follower_names(albums, anchor, o, n - 1);
        let all = follower_names(albums, anchor, o, n);
        assert forall|i: int|
            0 <= i < n && i != o && in_group(#[trigger] albums[i], anchor) implies all.contains(
            albums[i].file_name,
        ) by {
            if i < n - 1 {
                assert(before.contains(albums[i].file_name));
                let k = choose|k: int| 0 <= k < before.len() && before[k] == albums[i].file_name;
                assert(all[k] == albums[i].file_name);
            } else {
                assert(all[all.len() - 1] == albums[i].file_name);
            }
        }
    }
}

/// Two lists of albums that agree, place by place, on who is in the group,
/// on rating counts and on file names have the same group, the same
/// original and the same followers.
proof fn lemma_same_group(
    a: Seq<AlbumReadModelView>,
    anchor_a: AlbumReadModelView,
    b: Seq<AlbumReadModelView>,
    anchor_b: AlbumReadModelView,
    o: int,
    n: int,
)
    requires
        a.len() == b.len(),
        0 <= n <= a.len(),
        forall|i: int|
            0 <= i < a.len() ==> in_group(#[trigger] a[i], anchor_a) == in_group(b[i], anchor_b)
                && a[i].rating_count == b[i].rating_count && a[i].file_name == b[i].file_name,
    ensures
        group_of(a, anchor_a, n) == group_of(b, anchor_b, n),
        original_of(a, anchor_a, n) == original_of(b, anchor_b, n),
        follower_names(a, anchor_a, o, n) == follower_names(b, anchor_b, o, n),
    decreases n,
{
    if n > 0 {
        lemma_same_group(a, anchor_a, b, anchor_b, o, n - 1);
        lemma_original_leads(a, anchor_a, n - 1);
        assert(in_group(a[n - 1], anchor_a) == in_group(b[n - 1], anchor_b));
        let before = original_of(a, anchor_a, n - 1);
        if before >= 0 {
            assert(a[before].rating_count == b[before].rating_count);
        }
    }
}

/// After a group has been reconciled, every duplicate names the original
/// and lists nothing, and the original lists every duplicate and names no
/// original: on no album of the group are both fields in use, and no album
/// of the group names an album that does not list it.
pub proof fn lemma_reconciled_links(albums: Seq<AlbumReadModelView>, anchor: AlbumReadModelView, i: int)
    requires
        group_of(albums, anchor, albums.len() as int).len() > 1,
        0 <= i < albums.len(),
        in_group(albums[i], anchor),
        i != original_of(albums, anchor, albums.len() as int),
    ensures
        ({
            let o = original_of(albums, anchor, albums.len() as int);
            let after = after_reconciliation(albums, anchor);
            &&& 0 <= o < albums.len()
            &&& after[i].duplicate_of == Some(after[o].file_name)
            &&& after[i].duplicates.len() == 0
            &&& after[o].duplicates.contains(after[i].file_name)
            &&& after[o].duplicate_of is None
        }),
{
    let n = albums.len() as int;
    let o = original_of(albums, anchor, n);
    lemma_original_leads(albums, anchor, n);
    lemma_follower_names(albums, anchor, o, n);
    let names = follower_names(albums, anchor, o, n);
    lemma_lex_leq_is_total_order();
    names.lemma_sort_by_ensures(lex_leq());
    assert(names.contains(albums[i].file_name));
    if !names.sort_by(lex_leq()).contains(albums[i].file_name) {
        broadcast use vstd::seq_lib::to_multiset_contains;

        assert(names.to_multiset().count(albums[i].file_name) > 0);
        assert(names.sort_by(lex_leq()).to_multiset().count(albums[i].file_name) > 0);
    }
}

/// Reconciling is idempotent: a second run on a reconciled group, from
/// any anchor with the name and the artists of the first, changes
/// nothing.
pub proof fn lemma_reconciliation_is_idempotent(
    albums: Seq<AlbumReadModelView>,
    anchor: AlbumReadModelView,
    again: AlbumReadModelView,
)
    requires
        again.name == anchor.name,
        again.artists == anchor.artists,
    ensures
        after_reconciliation(after_reconciliation(albums, anchor), again) == after_reconciliation(
            albums,
            anchor,
        ),
{
    let n = albums.len() as int;
    let once = after_reconciliation(albums, anchor);
    assert forall|a: AlbumReadModelView| in_group(a, again) == in_group(a, anchor) by {
        assert(shares_artist(a, again) == shares_artist(a, anchor));
    }
    assert forall|i: int| 0 <= i < albums.len() implies in_group(#[trigger] once[i], again)
        == in_group(albums[i], anchor) && once[i].rating_count == albums[i].rating_count
        && once[i].file_name == albums[i].file_name by {
        if group_of(albums, anchor, n).len() > 1 {
            assert(once == reconciled(albums, anchor, original_of(albums, anchor, n)));
        }
        assert(once[i].artists == albums[i].artists);
        assert(once[i].name == albums[i].name);
        assert(shares_artist(once[i], anchor) == shares_artist(albums[i], anchor));
    }
    let o = original_of(albums, anchor, n);
    lemma_same_group(once, again, albums, anchor, o, n);
    if group_of(albums, anchor, n).len() > 1 {
        lemma_original_leads(albums, anchor, n);
        lemma_group_of(albums, anchor, n);
        let g = group_of(albums, anchor, n);
        assert(in_group(albums[g[0]], anchor));
        assert(0 <= o < n);
        let twice = after_reconciliation(once, again);
        assert(twice == reconciled(once, again, o));
        assert(duplicates_of(once, again, o) == duplicates_of(albums, anchor, o));
        assert(twice =~= once);
    }
}


/// The albums as contracts see them.
pub open spec fn album_views(albums: Seq<AlbumReadModel>) -> Seq<AlbumReadModelView> {
    albums.map_values(|a: AlbumReadModel| a@)
}

/// Places as numbers.
pub open spec fn places(indices: Seq<usize>) -> Seq<int> {
    indices.map_values(|i: usize| i as int)
}

/// Whether two albums name an artist in common.
pub fn shares_artist_with(a: &AlbumReadModel, b: &AlbumReadModel) -> (shared: bool)
    ensures
        shared == shares_artist(a@, b@),
{
    let mut i: usize = 0;
    while i < a.artists.len()
        invariant
            i <= a.artists.len(),
            forall|x: int, y: int|
                0 <= x < i && 0 <= y < b@.artists.len() ==> (#[trigger] a@.artists[x]).file_name != (
                #[trigger] b@.artists[y]).file_name,
        decreases a.artists.len() - i,
    {
        let mut j: usize = 0;
        while j < b.artists.len()
            invariant
                i < a.artists.len(),
                j <= b.artists.len(),
                forall|y: int|
                    0 <= y < j ==> a@.artists[i as int].file_name != (
                    #[trigger] b@.artists[y]).file_name,
            decreases b.artists.len() - j,
        {
            if a.artists[i].file_name.same_as(&b.artists[j].file_name) {
                assert(a@.artists[i as int].file_name == b@.artists[j as int].file_name);
                return true;
            }
            j += 1;
        }
        i += 1;
    }
    false
}

/// Whether an album belongs to the duplicate group of `anchor`.
pub fn is_in_group(album: &AlbumReadModel, anchor: &AlbumReadModel) -> (member: bool)
    ensures
        member == in_group(album@, anchor@),
{
    shares_artist_with(album, anchor) && eq_ignore_ascii_case(
        album.name.as_str(),
        anchor.name.as_str(),
    )
}

/// Whether two lists hold the same file names in the same order.
pub fn same_file_names(a: &Vec<FileName>, b: &Vec<FileName>) -> (same: bool)
    ensures
        same == (a.deep_view() == b.deep_view()),
{
    if a.len() != b.len() {
        assert(a.deep_view().len() != b.deep_view().len());
        return false;
    }
    let mut i: usize = 0;
    while i < a.len()
        invariant
            i <= a.len(),
            a.len() == b.len(),
            forall|k: int| 0 <= k < i ==> a@[k]@ == b@[k]@,
        decreases a.len() - i,
    {
        if !a[i].same_as(&b[i]) {
            assert(a.deep_view()[i as int] != b.deep_view()[i as int]);
            return false;
        }
        i += 1;
    }
    assert(a.deep_view() =~= b.deep_view());
    true
}

/// The file names in dictionary order.
pub fn sort_file_names(names: Vec<FileName>) -> (sorted: Vec<FileName>)
    ensures
        sorted.deep_view() == names.deep_view().sort_by(lex_leq()),
{
    let ghost all = names.deep_view();
    let mut sorted: Vec<FileName> = Vec::new();
    let mut i: usize = 0;
    proof {
        lemma_lex_leq_is_total_order();
        assert(all.subrange(0, 0) =~= Seq::<Seq<char>>::empty());
        assert(sorted.deep_view() =~= Seq::<Seq<char>>::empty());
    }
    while i < names.len()
        invariant
            i <= names.len(),
            all == names.deep_view(),
            total_ordering(lex_leq()),
            sorted_by(sorted.deep_view(), lex_leq()),
            sorted.deep_view().to_multiset() == all.subrange(0, i as int).to_multiset(),
        decreases names.len() - i,
    {
        let name = names[i].clone();
        let ghost before = sorted.deep_view();
        let mut at: usize = 0;
        while at < sorted.len() && lex_order(sorted[at].as_str(), name.as_str())
            invariant
                at <= sorted.len(),
                before == sorted.deep_view(),
                forall|k: int| 0 <= k < at ==> lex_le(#[trigger] before[k], name@),
            decreases sorted.len() - at,
        {
            at += 1;
        }
        sorted.insert(at, name);
        proof {
            let after = sorted.deep_view();
            assert(after =~= before.insert(at as int, name@));
            vstd::seq_lib::to_multiset_insert(before, at as int, name@);
            let seen = all.subrange(0, i as int);
            let next = all.subrange(0, i + 1);
            assert(next =~= seen.push(name@));
            to_multiset_build(seen, name@);
            assert forall|x: int, y: int| 0 <= x < y < after.len() implies #[trigger] lex_leq()(
                after[x],
                after[y],
            ) by {
                if y < at {
                    assert(lex_leq()(before[x], before[y]));
                } else if y == at {
                    assert(lex_le(before[x], name@));
                } else if x == at {
                    lemma_lex_le_total(before[at as int], name@);
                    if y - 1 > at {
                        assert(lex_leq()(before[at as int], before[y - 1]));
                        lemma_lex_le_transitive(name@, before[at as int], before[y - 1]);
                    }
                } else if x < at {
                    assert(lex_leq()(before[x], before[y - 1]));
                } else {
                    assert(lex_leq()(before[x - 1], before[y - 1]));
                }
            }
        }
        i += 1;
    }
    proof {
        assert(all.subrange(0, names.len() as int) =~= all);
        all.lemma_sort_by_ensures(lex_leq());
        lemma_sorted_unique(sorted.deep_view(), all.sort_by(lex_leq()), lex_leq());
    }
    sorted
}

/// The places of the members of the group of `anchor`.
pub fn group_places(anchor: &AlbumReadModel, albums: &Vec<AlbumReadModel>) -> (group: Vec<usize>)
    ensures
        places(group@) == group_of(album_views(albums@), anchor@, albums.len() as int),
{
    let ghost views = album_views(albums@);
    let mut group: Vec<usize> = Vec::new();
    let mut i: usize = 0;
    assert(places(group@) =~= group_of(views, anchor@, 0));
    while i < albums.len()
        invariant
            i <= albums.len(),
            views == album_views(albums@),
            places(group@) == group_of(views, anchor@, i as int),
        decreases albums.len() - i,
    {
        let ghost before = places(group@);
        if is_in_group(&albums[i], anchor) {
            group.push(i);
            assert(places(group@) =~= before.push(i as int));
        }
        i += 1;
    }
    group
}

/// The file names of the members other than the one at `original`.
pub fn follower_file_names(
    anchor: &AlbumReadModel,
    albums: &Vec<AlbumReadModel>,
    original: usize,
) -> (names: Vec<FileName>)
    ensures
        names.deep_view() == follower_names(
            album_views(albums@),
            anchor@,
            original as int,
            albums.len() as int,
        ),
{
    let ghost views = album_views(albums@);
    let mut names: Vec<FileName> = Vec::new();
    let mut i: usize = 0;
    assert(names.deep_view() =~= follower_names(views, anchor@, original as int, 0));
    while i < albums.len()
        invariant
            i <= albums.len(),
            views == album_views(albums@),
            names.deep_view() == follower_names(views, anchor@, original as int, i as int),
        decreases albums.len() - i,
    {
        let ghost before = names.deep_view();
        if i != original && is_in_group(&albums[i], anchor) {
            names.push(albums[i].file_name.clone());
            assert(names.deep_view() =~= before.push(albums@[i as int]@.file_name));
        }
        i += 1;
    }
    names
}

/// Whether the album at `a` outranks the one at `b`: it has more ratings,
/// or as many and stands before it.
pub open spec fn outranks(albums: Seq<AlbumReadModelView>, a: int, b: int) -> bool {
    albums[a].rating_count > albums[b].rating_count || (albums[a].rating_count
        == albums[b].rating_count && a < b)
}

/// Whether the ranking holds the place.
pub open spec fn ranked_at(ranked: Seq<(u32, usize)>, place: usize) -> bool {
    exists|r: int| 0 <= r < ranked.len() && (#[trigger] ranked[r]).1 == place
}

/// Whether the ranking holds every place of the group.
pub open spec fn ranks_all(ranked: Seq<(u32, usize)>, group: Seq<usize>) -> bool {
    forall|k: int| 0 <= k < group.len() ==> #[trigger] ranked_at(ranked, group[k])
}

/// The members of a group ranked by rating count, most first and equal
/// counts in the order of their places, each with its place.
pub fn rank_group(albums: &Vec<AlbumReadModel>, group: &Vec<usize>) -> (ranked: Vec<(u32, usize)>)
    requires
        forall|k: int| 0 <= k < group@.len() ==> (#[trigger] group@[k]) < albums.len(),
        forall|k: int, l: int| 0 <= k < l < group@.len() ==> group@[k] < group@[l],
    ensures
        ranked@.len() == group@.len(),
        forall|k: int|
            0 <= k < ranked@.len() ==> group@.contains((#[trigger] ranked@[k]).1) && ranked@[k].0
                == albums@[ranked@[k].1 as int].rating_count,
        ranks_all(ranked@, group@),
        forall|k: int, l: int|
            0 <= k < l < ranked@.len() ==> ranked@[k].0 > ranked@[l].0 || (ranked@[k].0
                == ranked@[l].0 && ranked@[k].1 < ranked@[l].1),
{
    let mut entries: Vec<(u32, usize)> = Vec::new();
    let mut k: usize = 0;
    while k < group.len()
        invariant
            k <= group.len(),
            entries.len() == k,
            forall|m: int| 0 <= m < group@.len() ==> (#[trigger] group@[m]) < albums.len(),
            forall|m: int|
                0 <= m < k ==> (#[trigger] entries@[m]) == (
                    albums@[group@[m] as int].rating_count,
                    group@[m],
                ),
        decreases group.len() - k,
    {
        entries.push((albums[group[k]].rating_count, group[k]));
        k += 1;
    }
    let ghost given = entries@;
    let ranked = sorted_by_rating(entries);
    proof {
        vstd::seq_lib::to_multiset_len(ranked@);
        vstd::seq_lib::to_multiset_len(given);
        assert(ranked@.len() == given.len());
        assert forall|i: int, j: int| 0 <= i < j < given.len() implies given[i].1 < given[j].1 by {
            assert(group@[i] < group@[j]);
        }
        assert forall|r: int| 0 <= r < ranked@.len() implies group@.contains(
            (#[trigger] ranked@[r]).1,
        ) && ranked@[r].0 == albums@[ranked@[r].1 as int].rating_count by {
            assert(ranked@.contains(ranked@[r]));
            vstd::seq_lib::to_multiset_contains(ranked@, ranked@[r]);
            vstd::seq_lib::to_multiset_contains(given, ranked@[r]);
            assert(given.contains(ranked@[r]));
            let m = choose|m: int| 0 <= m < given.len() && given[m] == ranked@[r];
            assert(given[m] == (albums@[group@[m] as int].rating_count, group@[m]));
            assert(group@[m] == ranked@[r].1);
        }
        assert forall|m: int| 0 <= m < group@.len() implies #[trigger] ranked_at(
            ranked@,
            group@[m],
        ) by {
            assert(given.contains(given[m]));
            vstd::seq_lib::to_multiset_contains(given, given[m]);
            vstd::seq_lib::to_multiset_contains(ranked@, given[m]);
            assert(ranked@.contains(given[m]));
            let r = choose|r: int| 0 <= r < ranked@.len() && ranked@[r] == given[m];
            assert(ranked@[r].1 == group@[m]);
        }
    }
    ranked
}

/// What reconciling a group asks of the store, by place in the list of
/// albums that was planned over.
#[derive(Debug)]
pub struct DuplicatePlan {
    /// The place of the group's original.
    pub original: usize,
    /// The file names that the original is to list.
    pub duplicates: Vec<FileName>,
    /// Whether the original is to be written: it lists something else as
    /// yet, or names an original of its own. The write sets its list and
    /// clears the original it names.
    pub update_original: bool,
    /// The places of the other members that are to be written, ranked as
    /// the group is: those that do not name the original yet, or list
    /// duplicates of their own. The write sets the original they name and
    /// clears their list.
    pub retarget: Vec<usize>,
}

/// How a `DuplicatePlan` looks in contracts.
pub struct DuplicatePlanView {
    pub original: int,
    pub duplicates: Seq<Seq<char>>,
    pub update_original: bool,
    pub retarget: Seq<int>,
}

impl View for DuplicatePlan {
    type V = DuplicatePlanView;

    open spec fn view(&self) -> DuplicatePlanView {
        DuplicatePlanView {
            original: self.original as int,
            duplicates: self.duplicates.deep_view(),
            update_original: self.update_original,
            retarget: places(self.retarget@),
        }
    }
}

impl DuplicatePlanView {
    /// The plan is the one for the group of `anchor` among `albums`: it
    /// names the group's original and the list the original is to hold,
    /// says whether the original is yet to be written down as such, and
    /// names, in ranking order and once each, exactly the other members
    /// that are not yet written down as its duplicates.
    pub open spec fn fits(self, albums: Seq<AlbumReadModelView>, anchor: AlbumReadModelView) -> bool {
        let o = original_of(albums, anchor, albums.len() as int);
        &&& 0 <= o < albums.len()
        &&& self.original == o
        &&& self.duplicates == duplicates_of(albums, anchor, o)
        &&& self.update_original == !heads(albums[o], self.duplicates)
        &&& forall|k: int|
            0 <= k < self.retarget.len() ==> {
                let i = #[trigger] self.retarget[k];
                &&& 0 <= i < albums.len()
                &&& i != o
                &&& in_group(albums[i], anchor)
                &&& !follows(albums[i], albums[o].file_name)
            }
        &&& forall|i: int|
            0 <= i < albums.len() && i != o && in_group(#[trigger] albums[i], anchor)
                && !follows(albums[i], albums[o].file_name) ==> self.retarget.contains(i)
        &&& forall|k: int, l: int|
            0 <= k < l < self.retarget.len() ==> outranks(
                albums,
                self.retarget[k],
                self.retarget[l],
            )
    }
}

/// Plans the reconciliation of the duplicate group of `anchor` among
/// `albums`. There is nothing to do for a group of one album or none.
pub fn plan_duplicates(anchor: &AlbumReadModel, albums: &Vec<AlbumReadModel>) -> (plan: Option<
    DuplicatePlan,
>)
    ensures
        match plan {
            None => group_of(album_views(albums@), anchor@, albums.len() as int).len() <= 1,
            Some(p) => group_of(album_views(albums@), anchor@, albums.len() as int).len() > 1
                && p@.fits(album_views(albums@), anchor@),
        },
{
    let ghost views = album_views(albums@);
    let ghost n = albums.len() as int;
    let group = group_places(anchor, albums);
    if group.len() <= 1 {
        return None;
    }
    proof {
        lemma_group_of(views, anchor@, n);
        assert forall|k: int| 0 <= k < group@.len() implies (#[trigger] group@[k]) < albums.len() by {
            assert(places(group@)[k] == group@[k] as int);
        }
        assert forall|k: int, l: int| 0 <= k < l < group@.len() implies group@[k] < group@[l] by {
            assert(places(group@)[k] == group@[k] as int);
            assert(places(group@)[l] == group@[l] as int);
        }
    }
    let ranked = rank_group(albums, &group);
    let original: usize = ranked[0].1;
    proof {
        assert forall|r: int| 0 <= r < ranked@.len() implies (#[trigger] ranked@[r]).1
            < albums.len() && in_group(views[ranked@[r].1 as int], anchor@) by {
            assert(group@.contains(ranked@[r].1));
            let m = choose|m: int| 0 <= m < group@.len() && group@[m] == ranked@[r].1;
            assert(places(group@)[m] == group@[m] as int);
        }
        assert(leads(views, anchor@, original as int)) by {
            assert forall|j: int| 0 <= j < views.len() && in_group(#[trigger] views[j], anchor@) implies views[j].rating_count
                < views[original as int].rating_count || (views[j].rating_count
                == views[original as int].rating_count && original <= j) by {
                assert(places(group@).contains(j));
                let m = choose|m: int| 0 <= m < places(group@).len() && places(group@)[m] == j;
                assert(group@[m] == j);
                assert(ranked_at(ranked@, group@[m]));
                let r = choose|r: int|
                    0 <= r < ranked@.len() && (#[trigger] ranked@[r]).1 == group@[m];
                if r > 0 {
                    assert(ranked@[0].0 > ranked@[r].0 || (ranked@[0].0 == ranked@[r].0
                        && ranked@[0].1 < ranked@[r].1));
                }
            }
        }
        lemma_leader_is_original(views, anchor@, original as int);
    }
    let names = follower_file_names(anchor, albums, original);
    let duplicates = sort_file_names(names);
    let update_original = !same_file_names(&albums[original].duplicates, &duplicates)
        || albums[original].duplicate_of.is_some();
    let mut retarget: Vec<usize> = Vec::new();
    let mut r: usize = 1;
    let ghost mut from: Seq<int> = Seq::empty();
    while r < ranked.len()
        invariant
            1 <= r <= ranked.len(),
            views == album_views(albums@),
            original == ranked@[0].1,
            original < albums.len(),
            forall|k: int|
                0 <= k < ranked@.len() ==> (#[trigger] ranked@[k]).1 < albums.len() && in_group(
                    views[ranked@[k].1 as int],
                    anchor@,
                ) && ranked@[k].0 == albums@[ranked@[k].1 as int].rating_count,
            forall|k: int, l: int|
                0 <= k < l < ranked@.len() ==> ranked@[k].0 > ranked@[l].0 || (ranked@[k].0
                    == ranked@[l].0 && ranked@[k].1 < ranked@[l].1),
            from.len() == retarget@.len(),
            forall|k: int|
                0 <= k < from.len() ==> 1 <= (#[trigger] from[k]) < r && retarget@[k]
                    == ranked@[from[k]].1 && !follows(
                    views[retarget@[k] as int],
                    views[original as int].file_name,
                ),
            forall|k: int, l: int| 0 <= k < l < from.len() ==> from[k] < from[l],
            forall|k: int|
                1 <= k < r && !follows(
                    views[(#[trigger] ranked@[k]).1 as int],
                    views[original as int].file_name,
                ) ==> places(retarget@).contains(ranked@[k].1 as int),
        decreases ranked.len() - r,
    {
        let place: usize = ranked[r].1;
        let points_there = match &albums[place].duplicate_of {
            Some(target) => target.same_as(&albums[original].file_name)
                && albums[place].duplicates.len() == 0,
            None => false,
        };
        assert(points_there == follows(views[place as int], views[original as int].file_name)) by {
            assert(views[place as int].duplicates.len() == albums@[place as int].duplicates@.len());
        }
        let ghost before = places(retarget@);
        if !points_there {
            retarget.push(place);
            proof {
                from = from.push(r as int);
                assert(places(retarget@) =~= before.push(place as int));
                assert(places(retarget@)[before.len() as int] == place as int);
            }
        }
        proof {
            assert forall|k: int|
                1 <= k < r + 1 && !follows(
                    views[(#[trigger] ranked@[k]).1 as int],
                    views[original as int].file_name,
                ) implies places(retarget@).contains(ranked@[k].1 as int) by {
                if k < r {
                    assert(before.contains(ranked@[k].1 as int));
                    let m = choose|m: int| 0 <= m < before.len() && before[m] == ranked@[k].1 as int;
                    assert(places(retarget@)[m] == before[m]);
                }
            }
        }
        r += 1;
    }
    let plan = DuplicatePlan { original, duplicates, update_original, retarget };
    proof {
        let list = plan@.retarget;
        let o = original as int;
        assert forall|k: int| 0 <= k < list.len() implies {
            let i = #[trigger] list[k];
            &&& 0 <= i < views.len()
            &&& i != o
            &&& in_group(views[i], anchor@)
            &&& !follows(views[i], views[o].file_name)
        } by {
            assert(list[k] == plan.retarget@[k] as int);
            let f = from[k];
            assert(ranked@[0].0 > ranked@[f].0 || (ranked@[0].0 == ranked@[f].0 && ranked@[0].1
                < ranked@[f].1));
        }
        assert forall|i: int|
            0 <= i < views.len() && i != o && in_group(#[trigger] views[i], anchor@)
                && !follows(views[i], views[o].file_name) implies list.contains(i) by {
            assert(places(group@).contains(i));
            let m = choose|m: int| 0 <= m < places(group@).len() && places(group@)[m] == i;
            assert(group@[m] == i);
            assert(ranked_at(ranked@, group@[m]));
            let k = choose|k: int| 0 <= k < ranked@.len() && (#[trigger] ranked@[k]).1 == group@[m];
            assert(k != 0);
        }
        assert forall|k: int, l: int| 0 <= k < l < list.len() implies outranks(
            views,
            list[k],
            list[l],
        ) by {
            assert(list[k] == plan.retarget@[k] as int);
            assert(list[l] == plan.retarget@[l] as int);
            let a = from[k];
            let b = from[l];
            assert(ranked@[a].0 > ranked@[b].0 || (ranked@[a].0 == ranked@[b].0 && ranked@[a].1
                < ranked@[b].1));
        }
        assert(views[o].duplicates == albums@[o].duplicates.deep_view());
    }
    Some(plan)
}

} // verus!
