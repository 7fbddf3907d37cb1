//! Saving and deleting files. Each change is answered with the event
//! that tells the rest of the system about it.

use crate::crawler::priority_queue::clone_text;
use crate::events::event::{Event, EventPayload, EventPayloadView, EventView};
use crate::files::file_metadata::{is_stale, stale, FileMetadata, FileMetadataView, TtlDays};
use crate::files::file_name::{FileName, PageType};
use vstd::prelude::*;

verus! {

/// Why a file operation was refused.
#[derive(Clone, Copy, Debug, PartialEq, Eq, Structural)]
pub enum FileError {
    /// Nothing is recorded under the file name.
    NotFound,
}

/// The content kept for a file.
#[derive(Debug)]
pub struct StoredContent {
    pub name: FileName,
    pub content: String,
}

/// How a `StoredContent` looks in contracts.
pub struct StoredContentView {
    pub name: Seq<char>,
    pub content: Seq<char>,
}

impl View for StoredContent {
    type V = StoredContentView;

    open spec fn view(&self) -> StoredContentView {
        StoredContentView { name: self.name@, content: self.content@ }
    }
}

/// The first place at or after `from` of the record of a file, or -1.
pub open spec fn metadata_position(records: Seq<FileMetadataView>, name: Seq<char>, from: int) -> int
    decreases records.len() - from,
{
    if from < 0 || from >= records.len() {
        -1
    } else if records[from].name == name {
        from
    } else {
        metadata_position(records, name, from + 1)
    }
}

/// The first place at or after `from` of the content of a file, or -1.
pub open spec fn content_position(contents: Seq<StoredContentView>, name: Seq<char>, from: int) -> int
    decreases contents.len() - from,
{
    if from < 0 || from >= contents.len() {
        -1
    } else if contents[from].name == name {
        from
    } else {
        content_position(contents, name, from + 1)
    }
}

/// The files as contracts see them.
pub struct FileInteractorView {
    pub ttl_days: TtlDays,
    pub records: Seq<FileMetadataView>,
    pub contents: Seq<StoredContentView>,
}

impl FileInteractorView {
    /// The record of a file, if there is one.
    pub open spec fn metadata_of(self, name: Seq<char>) -> Option<FileMetadataView> {
        if metadata_position(self.records, name, 0) >= 0 {
            Some(self.records[metadata_position(self.records, name, 0)])
        } else {
            None
        }
    }

    /// The content of a file, if there is any.
    pub open spec fn content_of(self, name: Seq<char>) -> Option<Seq<char>> {
        if content_position(self.contents, name, 0) >= 0 {
            Some(self.contents[content_position(self.contents, name, 0)].content)
        } else {
            None
        }
    }

    /// Whether a file of the given page type is stale at `now`.
    pub open spec fn is_stale(self, name: Seq<char>, page_type: PageType, now: int) -> bool {
        stale(
            match self.metadata_of(name) {
                Some(record) => Some(record.last_saved_at),
                None => None,
            },
            self.ttl_days.for_page_type_spec(page_type) as nat,
            now,
        )
    }

    /// The record of a file after it has been saved at `now`: a known
    /// file keeps its identifier and the time it was first saved; a new
    /// one gets the identifier offered.
    pub open spec fn saved_record(self, name: Seq<char>, new_id: u128, now: int) -> FileMetadataView {
        match self.metadata_of(name) {
            Some(record) => FileMetadataView { last_saved_at: now, ..record },
            None => FileMetadataView { id: new_id, name, first_saved_at: now, last_saved_at: now },
        }
    }

    /// The records after a file has been saved at `now`.
    pub open spec fn records_after_save(self, name: Seq<char>, new_id: u128, now: int) -> Seq<
        FileMetadataView,
    > {
        let at = metadata_position(self.records, name, 0);
        if at >= 0 {
            self.records.update(at, self.saved_record(name, new_id, now))
        } else {
            self.records.push(self.saved_record(name, new_id, now))
        }
    }

    /// The contents after a file's content has been written.
    pub open spec fn contents_after_write(self, name: Seq<char>, content: Seq<char>) -> Seq<
        StoredContentView,
    > {
        let at = content_position(self.contents, name, 0);
        if at >= 0 {
            self.contents.update(at, StoredContentView { name, content })
        } else {
            self.contents.push(StoredContentView { name, content })
        }
    }
}

/// The event that tells of a saved file.
pub open spec fn file_saved(record: FileMetadataView, correlation_id: Option<Seq<char>>) -> EventPayloadView {
    EventPayloadView {
        event: EventView::FileSaved { file_id: record.id, file_name: record.name },
        correlation_id,
        metadata: None,
    }
}

/// The event that tells of a deleted file.
pub open spec fn file_deleted(record: FileMetadataView) -> EventPayloadView {
    EventPayloadView {
        event: EventView::FileDeleted { file_id: record.id, file_name: record.name },
        correlation_id: None,
        metadata: None,
    }
}

spec fn record_views(records: Seq<FileMetadata>) -> Seq<FileMetadataView> {
    records.map_values(|r: FileMetadata| r@)
}

spec fn content_views(contents: Seq<StoredContent>) -> Seq<StoredContentView> {
    contents.map_values(|c: StoredContent| c@)
}

/// Keeps the records and the contents of files.
pub struct FileInteractor {
    ttl_days: TtlDays,
    records: Vec<FileMetadata>,
    contents: Vec<StoredContent>,
}

impl View for FileInteractor {
    type V = FileInteractorView;

    closed spec fn view(&self) -> FileInteractorView {
        FileInteractorView {
            ttl_days: self.ttl_days,
            records: record_views(self.records@),
            contents: content_views(self.contents@),
        }
    }
}

impl FileInteractor {
    /// An interactor without files, with the given times to live.
    pub fn new(ttl_days: TtlDays) -> (files: Self)
        ensures
            files@.ttl_days == ttl_days,
            files@.records.len() == 0,
            files@.contents.len() == 0,
    {
        FileInteractor { ttl_days, records: Vec::new(), contents: Vec::new() }
    }

    fn record_index(&self, name: &FileName) -> (place: Option<usize>)
        ensures
            match place {
                Some(i) => i < self@.records.len() && i == metadata_position(
                    self@.records,
                    name@,
                    0,
                ),
                None => metadata_position(self@.records, name@, 0) == -1,
            },
    {
        let mut i: usize = 0;
        while i < self.records.len()
            invariant
                i <= self.records.len(),
                metadata_position(self@.records, name@, 0) == metadata_position(
                    self@.records,
                    name@,
                    i as int,
                ),
            decreases self.records.len() - i,
        {
            if self.records[i].name.same_as(name) {
                return Some(i);
            }
            i += 1;
        }
        None
    }

    fn content_index(&self, name: &FileName) -> (place: Option<usize>)
        ensures
            match place {
                Some(i) => i < self@.contents.len() && i == content_position(
                    self@.contents,
                    name@,
                    0,
                ),
                None => content_position(self@.contents, name@, 0) == -1,
            },
    {
        let mut i: usize = 0;
        while i < self.contents.len()
            invariant
                i <= self.contents.len(),
                content_position(self@.contents, name@, 0) == content_position(
                    self@.contents,
                    name@,
                    i as int,
                ),
            decreases self.contents.len() - i,
        {
            if self.contents[i].name.same_as(name) {
                return Some(i);
            }
            i += 1;
        }
        None
    }

    /// Whether a file of the given page type is stale at `now`: a file
    /// never saved is; a saved one is once its type's time to live has
    /// passed since it was last saved.
    pub fn is_file_stale(&self, file_name: &FileName, page_type: PageType, now: i64) -> (is: bool)
        ensures
            is == self@.is_stale(file_name@, page_type, now as int),
    {
        let last_saved_at = match self.record_index(file_name) {
            Some(i) => Some(self.records[i].last_saved_at),
            None => None,
        };
        is_stale(last_saved_at, self.ttl_days.for_page_type(page_type), now)
    }

    /// Records that a file was saved at `now`, and answers with its record
    /// and the event to publish on the file stream. `new_id` becomes the
    /// identifier of a file not known before.
    pub fn put_file_metadata(
        &mut self,
        file_name: &FileName,
        correlation_id: Option<String>,
        new_id: u128,
        now: i64,
    ) -> (saved: (FileMetadata, EventPayload))
        ensures
            saved.0@ == old(self)@.saved_record(file_name@, new_id, now as int),
            saved.1@ == file_saved(saved.0@, correlation_id.deep_view()),
            final(self)@ == (FileInteractorView {
                records: old(self)@.records_after_save(file_name@, new_id, now as int),
                ..old(self)@
            }),
    {
        let record = match self.record_index(file_name) {
            Some(i) => {
                let known = self.records.remove(i);
                let record = FileMetadata {
                    id: known.id,
                    name: known.name,
                    first_saved_at: known.first_saved_at,
                    last_saved_at: now,
                };
                let copy = record.clone();
                self.records.insert(i, record);
                assert(self@.records =~= old(self)@.records.update(i as int, copy@));
                copy
            },
            None => {
                let record = FileMetadata {
                    id: new_id,
                    name: file_name.clone(),
                    first_saved_at: now,
                    last_saved_at: now,
                };
                let copy = record.clone();
                self.records.push(record);
                assert(self@.records =~= old(self)@.records.push(copy@));
                copy
            },
        };
        let event = EventPayload {
            event: Event::FileSaved { file_id: record.id, file_name: record.name.clone() },
            correlation_id,
            metadata: None,
        };
        (record, event)
    }

    /// Writes the content of a file and records that it was saved at
    /// `now`.
    pub fn put_file(
        &mut self,
        file_name: &FileName,
        content: String,
        correlation_id: Option<String>,
        new_id: u128,
        now: i64,
    ) -> (saved: (FileMetadata, EventPayload))
        ensures
            saved.0@ == old(self)@.saved_record(file_name@, new_id, now as int),
            saved.1@ == file_saved(saved.0@, correlation_id.deep_view()),
            final(self)@ == (FileInteractorView {
                records: old(self)@.records_after_save(file_name@, new_id, now as int),
                contents: old(self)@.contents_after_write(file_name@, content@),
                ..old(self)@
            }),
    {
        let stored = StoredContent { name: file_name.clone(), content };
        match self.content_index(file_name) {
            Some(i) => {
                let _replaced = self.contents.remove(i);
                self.contents.insert(i, stored);
                assert(self@.contents =~= old(self)@.contents.update(i as int, stored@));
            },
            None => {
                self.contents.push(stored);
                assert(self@.contents =~= old(self)@.contents.push(stored@));
            },
        }
        self.put_file_metadata(file_name, correlation_id, new_id, now)
    }

    /// The names of the files that have content.
    pub fn list_files(&self) -> (names: Vec<FileName>)
        ensures
            names.deep_view() == self@.contents.map_values(|c: StoredContentView| c.name),
    {
        let mut names: Vec<FileName> = Vec::new();
        let mut i: usize = 0;
        while i < self.contents.len()
            invariant
                i <= self.contents.len(),
                names.len() == i,
                forall|j: int| 0 <= j < i ==> names@[j]@ == self@.contents[j].name,
            decreases self.contents.len() - i,
        {
            names.push(self.contents[i].name.clone());
            i += 1;
        }
        assert(names.deep_view() =~= self@.contents.map_values(|c: StoredContentView| c.name));
        names
    }

    /// The record of a file; `NotFound` if there is none.
    pub fn get_file_metadata(&self, file_name: &FileName) -> (record: Result<
        FileMetadata,
        FileError,
    >)
        ensures
            match record {
                Ok(r) => self@.metadata_of(file_name@) == Some(r@),
                Err(e) => self@.metadata_of(file_name@) is None && e == FileError::NotFound,
            },
    {
        match self.record_index(file_name) {
            Some(i) => Ok(self.records[i].clone()),
            None => Err(FileError::NotFound),
        }
    }

    /// Deletes the record and the content of a file, and answers with the
    /// event to publish on the file stream, which names the identifier the
    /// file had. `NotFound`, and nothing changed, if there is no record.
    pub fn delete_file(&mut self, file_name: &FileName) -> (deleted: Result<EventPayload, FileError>)
        ensures
            match deleted {
                Ok(event) => old(self)@.metadata_of(file_name@) is Some && event@ == file_deleted(
                    old(self)@.metadata_of(file_name@)->0,
                ) && final(self)@ == (FileInteractorView {
                    records: old(self)@.records.remove(
                        metadata_position(old(self)@.records, file_name@, 0),
                    ),
                    contents: if content_position(old(self)@.contents, file_name@, 0) >= 0 {
                        old(self)@.contents.remove(
                            content_position(old(self)@.contents, file_name@, 0),
                        )
                    } else {
                        old(self)@.contents
                    },
                    ..old(self)@
                }),
                Err(e) => old(self)@.metadata_of(file_name@) is None && e == FileError::NotFound
                    && final(self)@ == old(self)@,
            },
    {
        let at = match self.record_index(file_name) {
            Some(at) => at,
            None => {
                return Err(FileError::NotFound);
            },
        };
        let record = self.records.remove(at);
        assert(self@.records =~= old(self)@.records.remove(at as int));
        match self.content_index(file_name) {
            Some(i) => {
                let _content = self.contents.remove(i);
                assert(self@.contents =~= old(self)@.contents.remove(i as int));
            },
            None => {},
        }
        Ok(
            EventPayload {
                event: Event::FileDeleted { file_id: record.id, file_name: record.name },
                correlation_id: None,
                metadata: None,
            },
        )
    }

    /// The content of a file; `NotFound` if there is none.
    pub fn get_file_content(&self, file_name: &FileName) -> (content: Result<String, FileError>)
        ensures
            match content {
                Ok(c) => self@.content_of(file_name@) == Some(c@),
                Err(e) => self@.content_of(file_name@) is None && e == FileError::NotFound,
            },
    {
        match self.content_index(file_name) {
            Some(i) => Ok(self.contents[i].content.clone()),
            None => Err(FileError::NotFound),
        }
    }
}

} // verus!
