//! What is recorded of a saved file, and when a file counts as stale.

use crate::files::file_name::{FileName, PageType};
use vstd::prelude::*;

verus! {

/// The record of a saved file. Times are seconds from the Unix epoch; the
/// identifier is a ULID as a number.
#[derive(Debug)]
pub struct FileMetadata {
    pub id: u128,
    pub name: FileName,
    pub first_saved_at: i64,
    pub last_saved_at: i64,
}

/// How a `FileMetadata` looks in contracts.
pub struct FileMetadataView {
    pub id: u128,
    pub name: Seq<char>,
    pub first_saved_at: int,
    pub last_saved_at: int,
}

impl View for FileMetadata {
    type V = FileMetadataView;

    open spec fn view(&self) -> FileMetadataView {
        FileMetadataView {
            id: self.id,
            name: self.name@,
            first_saved_at: self.first_saved_at as int,
            last_saved_at: self.last_saved_at as int,
        }
    }
}

impl Clone for FileMetadata {
    fn clone(&self) -> (copy: Self)
        ensures
            copy == *self,
    {
        FileMetadata {
            id: self.id,
            name: self.name.clone(),
            first_saved_at: self.first_saved_at,
            last_saved_at: self.last_saved_at,
        }
    }
}

/// For how many days a saved page of each type stays fresh.
#[derive(Clone, Copy, Debug, PartialEq, Eq, Structural)]
pub struct TtlDays {
    pub artist: u32,
    pub album: u32,
    pub chart: u32,
    pub search: u32,
}

impl TtlDays {
    /// The days for a page type.
    pub open spec fn for_page_type_spec(self, page_type: PageType) -> u32 {
        match page_type {
            PageType::Artist => self.artist,
            PageType::Album => self.album,
            PageType::Chart => self.chart,
            PageType::AlbumSearchResult => self.search,
        }
    }

    /// The days for a page type.
    pub fn for_page_type(&self, page_type: PageType) -> (days: u32)
        ensures
            days == self.for_page_type_spec(page_type),
    {
        match page_type {
            PageType::Artist => self.artist,
            PageType::Album => self.album,
            PageType::Chart => self.chart,
            PageType::AlbumSearchResult => self.search,
        }
    }
}

/// Whether a file is stale at `now`: one never saved is; one saved is once
/// more than `ttl_days` days have passed since it was last saved.
pub open spec fn stale(last_saved_at: Option<int>, ttl_days: nat, now: int) -> bool {
    match last_saved_at {
        Some(saved) => now > saved + ttl_days * 86400,
        None => true,
    }
}

/// Whether a file is stale at `now`.
pub fn is_stale(last_saved_at: Option<i64>, ttl_days: u32, now: i64) -> (is: bool)
    ensures
        is == stale(
            match last_saved_at {
                Some(t) => Some(t as int),
                None => None,
            },
            ttl_days as nat,
            now as int,
        ),
{
    match last_saved_at {
        Some(saved) => {
            let stale_at: i128 = saved as i128 + ttl_days as i128 * 86400;
            now as i128 > stale_at
        },
        None => true,
    }
}

} // verus!
