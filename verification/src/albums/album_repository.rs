//! The album store: albums by file name, and the embeddings kept beside
//! them.

use crate::albums::album_read_model::{AlbumReadModel, AlbumReadModelView};
use crate::files::file_name::FileName;
use crate::helpers::text::{parse_i64, parse_i64_spec, same_text, to_chars};
use vstd::prelude::*;

verus! {

/// Why an album operation was refused.
#[derive(Clone, Copy, Debug, PartialEq, Eq, Structural)]
pub enum AlbumError {
    /// No album goes by the file name.
    NotFound,
    /// A row of an aggregation holds no name.
    MissingName,
    /// A row of an aggregation holds no count.
    MissingCount,
    /// The count of a row of an aggregation is no number of 32 bits.
    InvalidCount,
    /// An embedding has not the number of dimensions that the index takes.
    InvalidEmbeddingSize,
}

/// How often a genre is named as primary and as secondary genre.
#[derive(Debug)]
pub struct GenreAggregate {
    pub name: String,
    pub primary_genre_count: u32,
    pub secondary_genre_count: u32,
}

/// A value and how often it occurs.
#[derive(Debug)]
pub struct ItemAndCount {
    pub name: String,
    pub count: u32,
}

/// Reads an unsigned 32-bit decimal number: an optional `+`, then digits,
/// the whole below 2^32.
pub open spec fn parse_u32_spec(s: Seq<char>) -> Option<nat> {
    match parse_i64_spec(s) {
        Some(n) => if s[0] != '-' && n <= u32::MAX {
            Some(n as nat)
        } else {
            None
        },
        None => None,
    }
}

impl ItemAndCount {
    /// Reads a row of an aggregation: the value of its first field is the
    /// name, that of its second the count.
    pub fn try_from(values: &Vec<(String, String)>) -> (row: Result<ItemAndCount, AlbumError>)
        ensures
            match row {
                Ok(r) => values@.len() >= 2 && r.name@ == values@[0].1@ && parse_u32_spec(
                    values@[1].1@,
                ) == Some(r.count as nat),
                Err(AlbumError::MissingName) => values@.len() == 0,
                Err(AlbumError::MissingCount) => values@.len() == 1,
                Err(AlbumError::InvalidCount) => values@.len() >= 2 && parse_u32_spec(
                    values@[1].1@,
                ) is None,
                Err(_) => false,
            },
    {
        if values.len() == 0 {
            return Err(AlbumError::MissingName);
        }
        if values.len() == 1 {
            return Err(AlbumError::MissingCount);
        }
        let digits = to_chars(values[1].1.as_str());
        assert(digits@.subrange(0, digits@.len() as int) =~= digits@);
        match parse_i64(&digits, 0, digits.len()) {
            Some(n) => {
                if digits[0] != '-' && 0 <= n && n <= 0xffff_ffff {
                    Ok(ItemAndCount { name: values[0].1.clone(), count: n as u32 })
                } else {
                    Err(AlbumError::InvalidCount)
                }
            },
            None => Err(AlbumError::InvalidCount),
        }
    }
}

/// A vector that places an album in an embedding space. `key` names the
/// space; each component is the bit pattern of a 32-bit float.
#[derive(Debug)]
pub struct AlbumEmbedding {
    pub file_name: FileName,
    pub key: String,
    pub embedding: Vec<u32>,
}

/// How an `AlbumEmbedding` looks in contracts.
pub struct AlbumEmbeddingView {
    pub file_name: Seq<char>,
    pub key: Seq<char>,
    pub embedding: Seq<u32>,
}

impl View for AlbumEmbedding {
    type V = AlbumEmbeddingView;

    open spec fn view(&self) -> AlbumEmbeddingView {
        AlbumEmbeddingView {
            file_name: self.file_name@,
            key: self.key@,
            embedding: self.embedding@,
        }
    }
}

/// The number of dimensions of an embedding.
pub const EMBEDDING_DIMENSIONS: usize = 1536;

/// The place of the album with the given file name, or -1.
pub open spec fn album_position(albums: Seq<AlbumReadModelView>, file_name: Seq<char>) -> int {
    if exists|i: int| 0 <= i < albums.len() && albums[i].file_name == file_name {
        choose|i: int| 0 <= i < albums.len() && albums[i].file_name == file_name
    } else {
        -1
    }
}

/// The albums with `album` put in: in the place of the album of the same
/// file name, or at the end if there is none.
pub open spec fn upserted(albums: Seq<AlbumReadModelView>, album: AlbumReadModelView) -> Seq<
    AlbumReadModelView,
> {
    if album_position(albums, album.file_name) >= 0 {
        albums.update(album_position(albums, album.file_name), album)
    } else {
        albums.push(album)
    }
}

/// The first place at or after `from` of an embedding of the file under
/// the key, or -1.
pub open spec fn embedding_position(
    embeddings: Seq<AlbumEmbeddingView>,
    file_name: Seq<char>,
    key: Seq<char>,
    from: int,
) -> int
    decreases embeddings.len() - from,
{
    if from < 0 || from >= embeddings.len() {
        -1
    } else if embeddings[from].file_name == file_name && embeddings[from].key == key {
        from
    } else {
        embedding_position(embeddings, file_name, key, from + 1)
    }
}

/// The embeddings of a file among the first `n`, in the order kept.
pub open spec fn embeddings_of(embeddings: Seq<AlbumEmbeddingView>, file_name: Seq<char>, n: int) -> Seq<
    AlbumEmbeddingView,
>
    decreases n,
{
    if n <= 0 || n > embeddings.len() {
        Seq::empty()
    } else if embeddings[n - 1].file_name == file_name {
        embeddings_of(embeddings, file_name, n - 1).push(embeddings[n - 1])
    } else {
        embeddings_of(embeddings, file_name, n - 1)
    }
}

/// The embeddings among the first `n` but those of a file.
pub open spec fn embeddings_without(
    embeddings: Seq<AlbumEmbeddingView>,
    file_name: Seq<char>,
    n: int,
) -> Seq<AlbumEmbeddingView>
    decreases n,
{
    if n <= 0 || n > embeddings.len() {
        Seq::empty()
    } else if embeddings[n - 1].file_name != file_name {
        embeddings_without(embeddings, file_name, n - 1).push(embeddings[n - 1])
    } else {
        embeddings_without(embeddings, file_name, n - 1)
    }
}

/// The store as contracts see it.
pub struct AlbumRepositoryView {
    pub albums: Seq<AlbumReadModelView>,
    pub embeddings: Seq<AlbumEmbeddingView>,
}

impl AlbumRepositoryView {
    /// No file name goes with two albums.
    pub open spec fn wf(self) -> bool {
        forall|i: int, j: int|
            #![trigger self.albums[i], self.albums[j]]
            0 <= i < j < self.albums.len() ==> self.albums[i].file_name
                != self.albums[j].file_name
    }

    /// The embedding of the file under the key, if one is kept.
    pub open spec fn find_embedding(self, file_name: Seq<char>, key: Seq<char>) -> Option<
        AlbumEmbeddingView,
    > {
        if embedding_position(self.embeddings, file_name, key, 0) >= 0 {
            Some(self.embeddings[embedding_position(self.embeddings, file_name, key, 0)])
        } else {
            None
        }
    }

    /// The store after an embedding has been put: it takes the place of
    /// the embedding of the same file and key, or is added.
    pub open spec fn after_put_embedding(self, embedding: AlbumEmbeddingView) -> AlbumRepositoryView {
        let at = embedding_position(self.embeddings, embedding.file_name, embedding.key, 0);
        AlbumRepositoryView {
            embeddings: if at >= 0 {
                self.embeddings.update(at, embedding)
            } else {
                self.embeddings.push(embedding)
            },
            ..self
        }
    }

    /// The store after the embedding of the file under the key has been
    /// deleted.
    pub open spec fn after_delete_embedding(self, file_name: Seq<char>, key: Seq<char>) -> AlbumRepositoryView {
        let at = embedding_position(self.embeddings, file_name, key, 0);
        AlbumRepositoryView {
            embeddings: if at >= 0 {
                self.embeddings.remove(at)
            } else {
                self.embeddings
            },
            ..self
        }
    }

    /// The album with the file name, if the store holds one.
    pub open spec fn find(self, file_name: Seq<char>) -> Option<AlbumReadModelView> {
        if album_position(self.albums, file_name) >= 0 {
            Some(self.albums[album_position(self.albums, file_name)])
        } else {
            None
        }
    }

    /// The store after an album has been put.
    pub open spec fn after_put(self, album: AlbumReadModelView) -> AlbumRepositoryView {
        AlbumRepositoryView { albums: upserted(self.albums, album), ..self }
    }

    /// The store after the album with the file name has been deleted, and
    /// its embeddings with it.
    pub open spec fn after_delete(self, file_name: Seq<char>) -> AlbumRepositoryView {
        AlbumRepositoryView {
            albums: if album_position(self.albums, file_name) >= 0 {
                self.albums.remove(album_position(self.albums, file_name))
            } else {
                self.albums
            },
            embeddings: embeddings_without(
                self.embeddings,
                file_name,
                self.embeddings.len() as int,
            ),
        }
    }
}

/// In a well-formed store a file name has one place only.
pub proof fn lemma_album_position(store: AlbumRepositoryView, i: int)
    requires
        store.wf(),
        0 <= i < store.albums.len(),
    ensures
        album_position(store.albums, store.albums[i].file_name) == i,
{
    let j = album_position(store.albums, store.albums[i].file_name);
    if j < i {
        assert(store.albums[j].file_name != store.albums[i].file_name);
    }
    if i < j {
        assert(store.albums[i].file_name != store.albums[j].file_name);
    }
}

/// Putting an album keeps the store well-formed, and the album is then
/// found under its file name as it was put.
pub proof fn lemma_put_then_find(store: AlbumRepositoryView, album: AlbumReadModelView)
    requires
        store.wf(),
    ensures
        store.after_put(album).wf(),
        store.after_put(album).find(album.file_name) == Some(album),
        forall|other: Seq<char>|
            other != album.file_name ==> store.after_put(album).find(other) == store.find(other),
{
    let after = store.after_put(album);
    let at = album_position(store.albums, album.file_name);
    let place = if at >= 0 {
        at
    } else {
        store.albums.len() as int
    };
    assert(after.albums[place] == album);
    assert forall|i: int, j: int|
        #![trigger after.albums[i], after.albums[j]]
        0 <= i < j < after.albums.len() implies after.albums[i].file_name
        != after.albums[j].file_name by {
        if at >= 0 {
            lemma_album_position(store, at);
            if i != at && j != at {
                assert(after.albums[i] == store.albums[i]);
                assert(after.albums[j] == store.albums[j]);
            } else if i == at {
                assert(after.albums[j] == store.albums[j]);
                assert(store.albums[at].file_name != store.albums[j].file_name);
            } else {
                assert(after.albums[i] == store.albums[i]);
                assert(store.albums[i].file_name != store.albums[at].file_name);
            }
        } else {
            if j < store.albums.len() {
                assert(after.albums[i] == store.albums[i]);
                assert(after.albums[j] == store.albums[j]);
            } else {
                assert(after.albums[i] == store.albums[i]);
            }
        }
    }
    lemma_album_position(after, place);
    assert forall|other: Seq<char>| other != album.file_name implies after.find(other)
        == store.find(other) by {
        let p = album_position(store.albums, other);
        let q = album_position(after.albums, other);
        if p >= 0 {
            assert(after.albums[p] == store.albums[p]);
            lemma_album_position(after, p);
        }
        if q >= 0 {
            assert(q != place);
            assert(after.albums[q] == store.albums[q]);
            lemma_album_position(store, q);
        }
    }
}

spec fn album_views(albums: Seq<AlbumReadModel>) -> Seq<AlbumReadModelView> {
    albums.map_values(|a: AlbumReadModel| a@)
}

spec fn embedding_views(embeddings: Seq<AlbumEmbedding>) -> Seq<AlbumEmbeddingView> {
    embeddings.map_values(|e: AlbumEmbedding| e@)
}

/// The album store.
pub struct AlbumRepository {
    albums: Vec<AlbumReadModel>,
    embeddings: Vec<AlbumEmbedding>,
}

impl View for AlbumRepository {
    type V = AlbumRepositoryView;

    closed spec fn view(&self) -> AlbumRepositoryView {
        AlbumRepositoryView {
            albums: album_views(self.albums@),
            embeddings: embedding_views(self.embeddings@),
        }
    }
}

impl AlbumRepository {
    /// An empty store.
    pub fn new() -> (store: Self)
        ensures
            store@.wf(),
            store@.albums.len() == 0,
            store@.embeddings.len() == 0,
    {
        AlbumRepository { albums: Vec::new(), embeddings: Vec::new() }
    }

    /// The store key of an album's document.
    pub fn key(&self, file_name: &FileName) -> (key: String)
        ensures
            key@ == "album:"@ + file_name@,
    {
        crate::albums::album_search_index::redis_key(file_name)
    }

    /// The albums, in the order kept.
    pub fn albums(&self) -> (albums: &Vec<AlbumReadModel>)
        ensures
            albums@.map_values(|a: AlbumReadModel| a@) == self@.albums,
    {
        &self.albums
    }

    /// The place of the album with the file name.
    pub fn position(&self, file_name: &FileName) -> (place: Option<usize>)
        requires
            self@.wf(),
        ensures
            match place {
                Some(i) => i < self@.albums.len() && i == album_position(self@.albums, file_name@),
                None => album_position(self@.albums, file_name@) == -1,
            },
    {
        let mut i: usize = 0;
        while i < self.albums.len()
            invariant
                self@.wf(),
                i <= self.albums.len(),
                forall|j: int| 0 <= j < i ==> self@.albums[j].file_name != file_name@,
            decreases self.albums.len() - i,
        {
            if self.albums[i].file_name.same_as(file_name) {
                proof {
                    lemma_album_position(self@, i as int);
                }
                return Some(i);
            }
            i += 1;
        }
        None
    }

    /// Puts an album: it takes the place of the album of the same file
    /// name, or is added. Embeddings stay as they are.
    pub fn put(&mut self, album: AlbumReadModel)
        requires
            old(self)@.wf(),
        ensures
            final(self)@.wf(),
            final(self)@ == old(self)@.after_put(album@),
    {
        proof {
            lemma_put_then_find(self@, album@);
        }
        match self.position(&album.file_name) {
            Some(i) => {
                let _replaced = self.albums.remove(i);
                self.albums.insert(i, album);
                assert(self@.albums =~= old(self)@.albums.update(i as int, album@));
            },
            None => {
                self.albums.push(album);
                assert(self@.albums =~= old(self)@.albums.push(album@));
            },
        }
        assert(self@.embeddings == old(self)@.embeddings);
    }

    /// The album with the file name, if the store holds one.
    pub fn find(&self, file_name: &FileName) -> (album: Option<&AlbumReadModel>)
        requires
            self@.wf(),
        ensures
            match album {
                Some(a) => self@.find(file_name@) == Some(a@),
                None => self@.find(file_name@) is None,
            },
    {
        match self.position(file_name) {
            Some(i) => Some(&self.albums[i]),
            None => None,
        }
    }

    /// The album with the file name; `NotFound` if the store holds none.
    pub fn get(&self, file_name: &FileName) -> (album: Result<&AlbumReadModel, AlbumError>)
        requires
            self@.wf(),
        ensures
            match album {
                Ok(a) => self@.find(file_name@) == Some(a@),
                Err(e) => self@.find(file_name@) is None && e == AlbumError::NotFound,
            },
    {
        match self.find(file_name) {
            Some(album) => Ok(album),
            None => Err(AlbumError::NotFound),
        }
    }

    /// Whether the store holds an album with the file name.
    pub fn contains(&self, file_name: &FileName) -> (held: bool)
        requires
            self@.wf(),
        ensures
            held == self@.find(file_name@) is Some,
    {
        self.position(file_name).is_some()
    }

    /// The albums with the given file names that the store holds, in the
    /// order asked for.
    pub fn get_many(&self, file_names: &Vec<FileName>) -> (albums: Vec<&AlbumReadModel>)
        requires
            self@.wf(),
        ensures
            albums@.map_values(|a: &AlbumReadModel| a@) == found_among(
                self@,
                file_names.deep_view(),
                file_names.len() as int,
            ),
    {
        let mut albums: Vec<&AlbumReadModel> = Vec::new();
        let mut i: usize = 0;
        assert(albums@.map_values(|a: &AlbumReadModel| a@) =~= found_among(
            self@,
            file_names.deep_view(),
            0,
        ));
        while i < file_names.len()
            invariant
                i <= file_names.len(),
                self@.wf(),
                albums@.map_values(|a: &AlbumReadModel| a@) == found_among(
                    self@,
                    file_names.deep_view(),
                    i as int,
                ),
            decreases file_names.len() - i,
        {
            let ghost before = albums@.map_values(|a: &AlbumReadModel| a@);
            match self.find(&file_names[i]) {
                Some(album) => {
                    albums.push(album);
                    assert(albums@.map_values(|a: &AlbumReadModel| a@) =~= before.push(album@));
                },
                None => {},
            }
            i += 1;
        }
        albums
    }

    /// Deletes the album with the file name, and its embeddings with it.
    pub fn delete(&mut self, file_name: &FileName)
        requires
            old(self)@.wf(),
        ensures
            final(self)@.wf(),
            final(self)@ == old(self)@.after_delete(file_name@),
    {
        match self.position(file_name) {
            Some(i) => {
                let _removed = self.albums.remove(i);
                assert(self@.albums =~= old(self)@.albums.remove(i as int));
                assert forall|a: int, b: int|
                    #![trigger self@.albums[a], self@.albums[b]]
                    0 <= a < b < self@.albums.len() implies self@.albums[a].file_name
                    != self@.albums[b].file_name by {
                    let x = if a < i { a } else { a + 1 };
                    let y = if b < i { b } else { b + 1 };
                    assert(self@.albums[a] == old(self)@.albums[x]);
                    assert(self@.albums[b] == old(self)@.albums[y]);
                }
            },
            None => {},
        }
        let ghost given = old(self)@.embeddings;
        let ghost n = given.len() as int;
        let ghost mut seen: int = 0;
        let mut i: usize = 0;
        assert(embedding_views(self.embeddings@) =~= embeddings_without(given, file_name@, 0)
            + given.subrange(0, n));
        while i < self.embeddings.len()
            invariant
                self@.albums == old(self)@.after_delete(file_name@).albums,
                self@.wf(),
                n == given.len(),
                0 <= seen <= n,
                i == embeddings_without(given, file_name@, seen).len(),
                self.embeddings@.len() - i == n - seen,
                embedding_views(self.embeddings@) == embeddings_without(given, file_name@, seen)
                    + given.subrange(seen, n),
            decreases self.embeddings.len() - i,
        {
            let ghost before = embedding_views(self.embeddings@);
            assert(before[i as int] == given[seen]);
            if self.embeddings[i].file_name.same_as(file_name) {
                let _dropped = self.embeddings.remove(i);
                assert(embedding_views(self.embeddings@) =~= before.remove(i as int));
                assert(embedding_views(self.embeddings@) =~= embeddings_without(
                    given,
                    file_name@,
                    seen + 1,
                ) + given.subrange(seen + 1, n));
            } else {
                i += 1;
                assert(embedding_views(self.embeddings@) =~= embeddings_without(
                    given,
                    file_name@,
                    seen + 1,
                ) + given.subrange(seen + 1, n));
            }
            proof {
                seen = seen + 1;
            }
        }
        assert(embedding_views(self.embeddings@) =~= embeddings_without(given, file_name@, n));
    }

    /// Writes the duplicate linkage of the album at a place: the original
    /// it names and the duplicates it lists.
    pub fn set_linkage_at(
        &mut self,
        place: usize,
        duplicate_of: Option<FileName>,
        duplicates: Vec<FileName>,
    )
        requires
            old(self)@.wf(),
            place < old(self)@.albums.len(),
        ensures
            final(self)@.wf(),
            final(self)@ == (AlbumRepositoryView {
                albums: old(self)@.albums.update(
                    place as int,
                    AlbumReadModelView {
                        duplicate_of: duplicate_of.deep_view(),
                        duplicates: duplicates.deep_view(),
                        ..old(self)@.albums[place as int]
                    },
                ),
                ..old(self)@
            }),
    {
        let mut album = self.albums.remove(place);
        album.duplicate_of = duplicate_of;
        album.duplicates = duplicates;
        self.albums.insert(place, album);
        assert(self@.albums =~= old(self)@.albums.update(
            place as int,
            AlbumReadModelView {
                duplicate_of: duplicate_of.deep_view(),
                duplicates: duplicates.deep_view(),
                ..old(self)@.albums[place as int]
            },
        ));
        assert forall|a: int, b: int|
            #![trigger self@.albums[a], self@.albums[b]]
            0 <= a < b < self@.albums.len() implies self@.albums[a].file_name
            != self@.albums[b].file_name by {
            assert(self@.albums[a].file_name == old(self)@.albums[a].file_name);
            assert(self@.albums[b].file_name == old(self)@.albums[b].file_name);
        }
    }

    fn embedding_index(&self, file_name: &FileName, key: &str) -> (place: Option<usize>)
        ensures
            match place {
                Some(i) => i < self@.embeddings.len() && i == embedding_position(
                    self@.embeddings,
                    file_name@,
                    key@,
                    0,
                ),
                None => embedding_position(self@.embeddings, file_name@, key@, 0) == -1,
            },
    {
        let mut i: usize = 0;
        while i < self.embeddings.len()
            invariant
                i <= self.embeddings.len(),
                embedding_position(self@.embeddings, file_name@, key@, 0) == embedding_position(
                    self@.embeddings,
                    file_name@,
                    key@,
                    i as int,
                ),
            decreases self.embeddings.len() - i,
        {
            if self.embeddings[i].file_name.same_as(file_name) && same_text(
                self.embeddings[i].key.as_str(),
                key,
            ) {
                return Some(i);
            }
            i += 1;
        }
        None
    }

    /// Puts an embedding. One of another size than the index takes is
    /// refused; else it takes the place of the embedding of the same file
    /// and key, or is added.
    pub fn put_embedding(&mut self, embedding: AlbumEmbedding) -> (result: Result<(), AlbumError>)
        ensures
            embedding@.embedding.len() == 1536 ==> result is Ok && final(self)@ == old(
                self,
            )@.after_put_embedding(embedding@),
            embedding@.embedding.len() != 1536 ==> result == Err::<(), AlbumError>(
                AlbumError::InvalidEmbeddingSize,
            ) && final(self)@ == old(self)@,
    {
        if embedding.embedding.len() != EMBEDDING_DIMENSIONS {
            return Err(AlbumError::InvalidEmbeddingSize);
        }
        match self.embedding_index(&embedding.file_name, embedding.key.as_str()) {
            Some(i) => {
                let _replaced = self.embeddings.remove(i);
                self.embeddings.insert(i, embedding);
                assert(self@.embeddings =~= old(self)@.embeddings.update(i as int, embedding@));
            },
            None => {
                self.embeddings.push(embedding);
                assert(self@.embeddings =~= old(self)@.embeddings.push(embedding@));
            },
        }
        Ok(())
    }

    /// The embedding of a file under a key, if one is kept.
    pub fn find_embedding(&self, file_name: &FileName, key: &str) -> (embedding: Option<
        &AlbumEmbedding,
    >)
        ensures
            match embedding {
                Some(e) => self@.find_embedding(file_name@, key@) == Some(e@),
                None => self@.find_embedding(file_name@, key@) is None,
            },
    {
        match self.embedding_index(file_name, key) {
            Some(i) => Some(&self.embeddings[i]),
            None => None,
        }
    }

    /// The embeddings of a file, in the order kept.
    pub fn get_embeddings(&self, file_name: &FileName) -> (embeddings: Vec<&AlbumEmbedding>)
        ensures
            embeddings@.map_values(|e: &AlbumEmbedding| e@) == embeddings_of(
                self@.embeddings,
                file_name@,
                self@.embeddings.len() as int,
            ),
    {
        let mut embeddings: Vec<&AlbumEmbedding> = Vec::new();
        let mut i: usize = 0;
        assert(embeddings@.map_values(|e: &AlbumEmbedding| e@) =~= embeddings_of(
            self@.embeddings,
            file_name@,
            0,
        ));
        while i < self.embeddings.len()
            invariant
                i <= self.embeddings.len(),
                embeddings@.map_values(|e: &AlbumEmbedding| e@) == embeddings_of(
                    self@.embeddings,
                    file_name@,
                    i as int,
                ),
            decreases self.embeddings.len() - i,
        {
            let ghost before = embeddings@.map_values(|e: &AlbumEmbedding| e@);
            if self.embeddings[i].file_name.same_as(file_name) {
                embeddings.push(&self.embeddings[i]);
                assert(embeddings@.map_values(|e: &AlbumEmbedding| e@) =~= before.push(
                    self.embeddings@[i as int]@,
                ));
            }
            i += 1;
        }
        embeddings
    }

    /// The embeddings under a key of the files named, in the order asked
    /// for; a file without one is passed over.
    pub fn find_many_embeddings(&self, file_names: &Vec<FileName>, key: &str) -> (embeddings: Vec<
        &AlbumEmbedding,
    >)
        ensures
            embeddings@.map_values(|e: &AlbumEmbedding| e@) == embeddings_among(
                self@,
                file_names.deep_view(),
                key@,
                file_names.len() as int,
            ),
    {
        let mut embeddings: Vec<&AlbumEmbedding> = Vec::new();
        let mut i: usize = 0;
        assert(embeddings@.map_values(|e: &AlbumEmbedding| e@) =~= embeddings_among(
            self@,
            file_names.deep_view(),
            key@,
            0,
        ));
        while i < file_names.len()
            invariant
                i <= file_names.len(),
                embeddings@.map_values(|e: &AlbumEmbedding| e@) == embeddings_among(
                    self@,
                    file_names.deep_view(),
                    key@,
                    i as int,
                ),
            decreases file_names.len() - i,
        {
            let ghost before = embeddings@.map_values(|e: &AlbumEmbedding| e@);
            match self.find_embedding(&file_names[i], key) {
                Some(embedding) => {
                    embeddings.push(embedding);
                    assert(embeddings@.map_values(|e: &AlbumEmbedding| e@) =~= before.push(
                        embedding@,
                    ));
                },
                None => {},
            }
            i += 1;
        }
        embeddings
    }

    /// Deletes the embedding of a file under a key.
    pub fn delete_embedding(&mut self, file_name: &FileName, key: &str)
        ensures
            final(self)@ == old(self)@.after_delete_embedding(file_name@, key@),
    {
        match self.embedding_index(file_name, key) {
            Some(i) => {
                let _removed = self.embeddings.remove(i);
                assert(self@.embeddings =~= old(self)@.embeddings.remove(i as int));
            },
            None => {},
        }
    }
}

/// The embeddings under a key found for the first `n` of the file names,
/// in their order.
pub open spec fn embeddings_among(
    store: AlbumRepositoryView,
    file_names: Seq<Seq<char>>,
    key: Seq<char>,
    n: int,
) -> Seq<AlbumEmbeddingView>
    decreases n,
{
    if n <= 0 || n > file_names.len() {
        Seq::empty()
    } else {
        match store.find_embedding(file_names[n - 1], key) {
            Some(embedding) => embeddings_among(store, file_names, key, n - 1).push(embedding),
            None => embeddings_among(store, file_names, key, n - 1),
        }
    }
}

/// The albums found for the first `n` of the file names, in their order.
pub open spec fn found_among(store: AlbumRepositoryView, file_names: Seq<Seq<char>>, n: int) -> Seq<
    AlbumReadModelView,
>
    decreases n,
{
    if n <= 0 || n > file_names.len() {
        Seq::empty()
    } else {
        match store.find(file_names[n - 1]) {
            Some(album) => found_among(store, file_names, n - 1).push(album),
            None => found_among(store, file_names, n - 1),
        }
    }
}

} // verus!
