//! The records that parsing a page yields, one shape per page type.

use crate::albums::album_read_model::{
    AlbumReadModelArtistView, AlbumReadModelCreditView, AlbumReadModelTrackView, ReleaseDate,
};
use crate::files::file_name::FileName;
use vstd::prelude::*;

verus! {

/// An artist as a page names it.
#[derive(Debug)]
pub struct ParsedArtistReference {
    pub name: String,
    pub file_name: FileName,
}

impl DeepView for ParsedArtistReference {
    type V = AlbumReadModelArtistView;

    open spec fn deep_view(&self) -> AlbumReadModelArtistView {
        AlbumReadModelArtistView { name: self.name@, file_name: self.file_name@ }
    }
}

/// A track as an album page lists it. The rating is the bit pattern of a
/// 32-bit float.
#[derive(Debug)]
pub struct ParsedTrack {
    pub name: String,
    pub duration_seconds: Option<u32>,
    pub rating: Option<u32>,
    pub position: Option<String>,
}

impl DeepView for ParsedTrack {
    type V = AlbumReadModelTrackView;

    open spec fn deep_view(&self) -> AlbumReadModelTrackView {
        AlbumReadModelTrackView {
            name: self.name@,
            duration_seconds: self.duration_seconds,
            rating: self.rating,
            position: self.position.deep_view(),
        }
    }
}

/// A credit as an album page lists it.
#[derive(Debug)]
pub struct ParsedCredit {
    pub artist: ParsedArtistReference,
    pub roles: Vec<String>,
}

impl DeepView for ParsedCredit {
    type V = AlbumReadModelCreditView;

    open spec fn deep_view(&self) -> AlbumReadModelCreditView {
        AlbumReadModelCreditView {
            artist: self.artist.deep_view(),
            roles: self.roles.deep_view(),
        }
    }
}

/// What an album page says. The rating is the bit pattern of a 32-bit
/// float.
#[derive(Debug)]
pub struct ParsedAlbum {
    pub name: String,
    pub rating: u32,
    pub rating_count: u32,
    pub artists: Vec<ParsedArtistReference>,
    pub primary_genres: Vec<String>,
    pub secondary_genres: Vec<String>,
    pub descriptors: Vec<String>,
    pub tracks: Vec<ParsedTrack>,
    pub release_date: Option<ReleaseDate>,
    pub languages: Vec<String>,
    pub credits: Vec<ParsedCredit>,
    pub cover_image_url: Option<String>,
}

/// How a `ParsedAlbum` looks in contracts.
pub struct ParsedAlbumView {
    pub name: Seq<char>,
    pub rating: u32,
    pub rating_count: nat,
    pub artists: Seq<AlbumReadModelArtistView>,
    pub primary_genres: Seq<Seq<char>>,
    pub secondary_genres: Seq<Seq<char>>,
    pub descriptors: Seq<Seq<char>>,
    pub tracks: Seq<AlbumReadModelTrackView>,
    pub release_date: Option<ReleaseDate>,
    pub languages: Seq<Seq<char>>,
    pub credits: Seq<AlbumReadModelCreditView>,
    pub cover_image_url: Option<Seq<char>>,
}

impl DeepView for ParsedAlbum {
    type V = ParsedAlbumView;

    open spec fn deep_view(&self) -> ParsedAlbumView {
        ParsedAlbumView {
            name: self.name@,
            rating: self.rating,
            rating_count: self.rating_count as nat,
            artists: self.artists.deep_view(),
            primary_genres: self.primary_genres.deep_view(),
            secondary_genres: self.secondary_genres.deep_view(),
            descriptors: self.descriptors.deep_view(),
            tracks: self.tracks.deep_view(),
            release_date: self.release_date,
            languages: self.languages.deep_view(),
            credits: self.credits.deep_view(),
            cover_image_url: self.cover_image_url.deep_view(),
        }
    }
}

/// An album as an artist page or a chart lists it.
#[derive(Debug)]
pub struct ParsedAlbumReference {
    pub name: String,
    pub file_name: FileName,
}

/// How a `ParsedAlbumReference` looks in contracts.
pub struct ParsedAlbumReferenceView {
    pub name: Seq<char>,
    pub file_name: Seq<char>,
}

impl DeepView for ParsedAlbumReference {
    type V = ParsedAlbumReferenceView;

    open spec fn deep_view(&self) -> ParsedAlbumReferenceView {
        ParsedAlbumReferenceView { name: self.name@, file_name: self.file_name@ }
    }
}

/// What an artist page says.
#[derive(Debug)]
pub struct ParsedArtist {
    pub name: String,
    pub albums: Vec<ParsedAlbumReference>,
}

/// How a `ParsedArtist` looks in contracts.
pub struct ParsedArtistView {
    pub name: Seq<char>,
    pub albums: Seq<ParsedAlbumReferenceView>,
}

impl DeepView for ParsedArtist {
    type V = ParsedArtistView;

    open spec fn deep_view(&self) -> ParsedArtistView {
        ParsedArtistView { name: self.name@, albums: self.albums.deep_view() }
    }
}

/// What parsing a page yields.
#[derive(Debug)]
pub enum ParsedFileData {
    Chart(Vec<ParsedAlbumReference>),
    Album(ParsedAlbum),
    Artist(ParsedArtist),
    AlbumSearchResult(ParsedAlbumReference),
}

/// How `ParsedFileData` look in contracts.
pub enum ParsedFileDataView {
    Chart(Seq<ParsedAlbumReferenceView>),
    Album(ParsedAlbumView),
    Artist(ParsedArtistView),
    AlbumSearchResult(ParsedAlbumReferenceView),
}

impl DeepView for ParsedFileData {
    type V = ParsedFileDataView;

    open spec fn deep_view(&self) -> ParsedFileDataView {
        match self {
            ParsedFileData::Chart(albums) => ParsedFileDataView::Chart(albums.deep_view()),
            ParsedFileData::Album(album) => ParsedFileDataView::Album(album.deep_view()),
            ParsedFileData::Artist(artist) => ParsedFileDataView::Artist(artist.deep_view()),
            ParsedFileData::AlbumSearchResult(found) => ParsedFileDataView::AlbumSearchResult(
                found.deep_view(),
            ),
        }
    }
}

} // verus!
