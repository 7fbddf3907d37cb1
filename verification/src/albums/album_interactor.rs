//! Putting and deleting albums with their duplicate groups kept in
//! order.

use crate::albums::album_read_model::{AlbumReadModel, AlbumReadModelView};
use crate::albums::album_repository::{
    album_position, lemma_album_position, lemma_put_then_find, upserted, AlbumError,
    AlbumRepository, AlbumRepositoryView,
};
use crate::albums::duplicates::{
    after_reconciliation, album_views, duplicates_of, follows, group_of, in_group,
    lemma_original_leads, original_of, places, plan_duplicates, reconciled, DuplicatePlan,
};
use crate::files::file_name::FileName;
use vstd::prelude::*;

verus! {

/// The album through which a group is reconciled once `album` is gone:
/// its original, or else the first of its duplicates.
pub open spec fn heir_of(album: AlbumReadModelView) -> Option<Seq<char>> {
    match album.duplicate_of {
        Some(original) => Some(original),
        None => if album.duplicates.len() > 0 {
            Some(album.duplicates[0])
        } else {
            None
        },
    }
}

/// Whether one of the first `k` places of the list is `i`.
pub open spec fn touched(list: Seq<int>, k: int, i: int) -> bool {
    exists|m: int| 0 <= m < k && #[trigger] list[m] == i
}

impl AlbumRepositoryView {
    /// The store after the group of `anchor` has been reconciled.
    pub open spec fn after_reconciliation(self, anchor: AlbumReadModelView) -> AlbumRepositoryView {
        AlbumRepositoryView { albums: after_reconciliation(self.albums, anchor), ..self }
    }

    /// The store after an album has been deleted through the interactor:
    /// the album and its embeddings are gone, and the group it belonged to
    /// has been reconciled through its heir, if the store holds the heir.
    pub open spec fn after_interactor_delete(self, file_name: Seq<char>) -> AlbumRepositoryView {
        let gone = self.after_delete(file_name);
        match self.find(file_name) {
            Some(album) => match heir_of(album) {
                Some(heir) => match gone.find(heir) {
                    Some(anchor) => gone.after_reconciliation(anchor),
                    None => gone,
                },
                None => gone,
            },
            None => self,
        }
    }
}

/// Puts and deletes albums, and reconciles the duplicate group of every
/// album it touches.
pub struct AlbumInteractor {
    repository: AlbumRepository,
}

impl View for AlbumInteractor {
    type V = AlbumRepositoryView;

    closed spec fn view(&self) -> AlbumRepositoryView {
        self.repository@
    }
}

impl AlbumInteractor {
    /// An interactor over the given store.
    pub fn new(repository: AlbumRepository) -> (interactor: Self)
        ensures
            interactor@ == repository@,
    {
        AlbumInteractor { repository }
    }

    /// The store.
    pub fn repository(&self) -> (repository: &AlbumRepository)
        ensures
            repository@ == self@,
    {
        &self.repository
    }

    fn apply(&mut self, plan: DuplicatePlan, Ghost(anchor): Ghost<AlbumReadModelView>)
        requires
            old(self)@.wf(),
            group_of(old(self)@.albums, anchor, old(self)@.albums.len() as int).len() > 1,
            plan@.fits(old(self)@.albums, anchor),
        ensures
            final(self)@.wf(),
            final(self)@ == old(self)@.after_reconciliation(anchor),
    {
        let ghost given = self@.albums;
        let ghost o = plan.original as int;
        let ghost list = plan@.retarget;
        let ghost dups = plan@.duplicates;
        let original_name = self.repository.albums()[plan.original].file_name.clone();
        assert(original_name@ == given[o].file_name);
        if plan.update_original {
            self.repository.set_linkage_at(plan.original, None, plan.duplicates);
        }
        let ghost first = self@.albums;
        assert(first =~= given.update(
            o,
            AlbumReadModelView { duplicates: dups, duplicate_of: None, ..given[o] },
        ));
        let retarget = plan.retarget;
        let mut k: usize = 0;
        while k < retarget.len()
            invariant
                k <= retarget.len(),
                self@.wf(),
                list == places(retarget@),
                self@.embeddings == old(self)@.embeddings,
                self@.albums.len() == first.len(),
                first.len() == given.len(),
                forall|m: int| 0 <= m < list.len() ==> 0 <= #[trigger] list[m] < given.len(),
                forall|i: int|
                    0 <= i < first.len() ==> #[trigger] self@.albums[i] == (if touched(
                        list,
                        k as int,
                        i,
                    ) {
                        AlbumReadModelView {
                            duplicate_of: Some(original_name@),
                            duplicates: Seq::empty(),
                            ..first[i]
                        }
                    } else {
                        first[i]
                    }),
            decreases retarget.len() - k,
        {
            let place = retarget[k];
            assert(list[k as int] == place as int);
            let ghost before = self@.albums;
            let none: Vec<FileName> = Vec::new();
            assert(none.deep_view() =~= Seq::<Seq<char>>::empty());
            self.repository.set_linkage_at(place, Some(original_name.clone()), none);
            proof {
                assert forall|i: int| 0 <= i < first.len() implies #[trigger] self@.albums[i] == (
                if touched(list, k + 1, i) {
                    AlbumReadModelView {
                            duplicate_of: Some(original_name@),
                            duplicates: Seq::empty(),
                            ..first[i]
                        }
                } else {
                    first[i]
                }) by {
                    if i == place {
                        assert(touched(list, k + 1, i));
                    } else {
                        assert(self@.albums[i] == before[i]);
                        if touched(list, k + 1, i) {
                            let m = choose|m: int| 0 <= m < k + 1 && #[trigger] list[m] == i;
                            assert(m < k);
                            assert(touched(list, k as int, i));
                        }
                    }
                }
            }
            k += 1;
        }
        proof {
            let want = reconciled(given, anchor, o);
            assert forall|i: int| 0 <= i < given.len() implies self@.albums[i] == want[i] by {
                if touched(list, list.len() as int, i) {
                    let m = choose|m: int| 0 <= m < list.len() && #[trigger] list[m] == i;
                    assert(i != o);
                    assert(in_group(given[i], anchor));
                } else if i != o && in_group(given[i], anchor) {
                    if follows(given[i], given[o].file_name) {
                        assert(given[i].duplicates =~= Seq::<Seq<char>>::empty());
                    }
                    if !follows(given[i], given[o].file_name) {
                        assert(list.contains(i));
                        let m = choose|m: int| 0 <= m < list.len() && list[m] == i;
                        assert(touched(list, list.len() as int, i));
                    }
                }
            }
            assert(self@.albums =~= want);
        }
    }

    /// Reconciles the duplicate group of the album at a place.
    pub fn process_duplicates(&mut self, anchor: usize)
        requires
            old(self)@.wf(),
            anchor < old(self)@.albums.len(),
        ensures
            final(self)@.wf(),
            final(self)@ == old(self)@.after_reconciliation(old(self)@.albums[anchor as int]),
    {
        let albums = self.repository.albums();
        let plan = plan_duplicates(&albums[anchor], albums);
        match plan {
            None => {},
            Some(plan) => {
                self.apply(plan, Ghost(self@.albums[anchor as int]));
            },
        }
    }

    /// Puts an album and reconciles its duplicate group.
    pub fn put(&mut self, album: AlbumReadModel)
        requires
            old(self)@.wf(),
        ensures
            final(self)@.wf(),
            final(self)@ == old(self)@.after_put(album@).after_reconciliation(album@),
    {
        let file_name = album.file_name.clone();
        proof {
            lemma_put_then_find(self@, album@);
        }
        self.repository.put(album);
        match self.repository.position(&file_name) {
            Some(place) => {
                self.process_duplicates(place);
            },
            None => {},
        }
    }

    /// Deletes the album with the file name, and reconciles what is left
    /// of its duplicate group through its original, or else through the
    /// first of its duplicates. `NotFound` if there is no such album.
    pub fn delete(&mut self, file_name: &FileName) -> (result: Result<(), AlbumError>)
        requires
            old(self)@.wf(),
        ensures
            final(self)@.wf(),
            final(self)@ == old(self)@.after_interactor_delete(file_name@),
            result == (if old(self)@.find(file_name@) is Some {
                Ok::<(), AlbumError>(())
            } else {
                Err::<(), AlbumError>(AlbumError::NotFound)
            }),
    {
        let place = match self.repository.position(file_name) {
            Some(place) => place,
            None => {
                return Err(AlbumError::NotFound);
            },
        };
        let album = &self.repository.albums()[place];
        let heir: Option<FileName> = match &album.duplicate_of {
            Some(original) => Some(original.clone()),
            None => if album.duplicates.len() > 0 {
                Some(album.duplicates[0].clone())
            } else {
                None
            },
        };
        assert(heir.deep_view() == heir_of(old(self)@.albums[place as int]));
        self.repository.delete(file_name);
        match heir {
            Some(heir) => {
                match self.repository.position(&heir) {
                    Some(anchor) => {
                        self.process_duplicates(anchor);
                    },
                    None => {},
                }
            },
            None => {},
        }
        Ok(())
    }
}

} // verus!
