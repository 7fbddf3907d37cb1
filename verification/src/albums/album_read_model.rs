//! The canonical record of an album, and the document under which the
//! search index keeps it.

use crate::files::file_name::FileName;
use crate::helpers::text::{push_char, push_text, to_chars};
use vstd::prelude::*;

verus! {

/// An artist as an album names it.
#[derive(Debug)]
pub struct AlbumReadModelArtist {
    pub name: String,
    pub file_name: FileName,
}

/// How an `AlbumReadModelArtist` looks in contracts.
pub struct AlbumReadModelArtistView {
    pub name: Seq<char>,
    pub file_name: Seq<char>,
}

impl DeepView for AlbumReadModelArtist {
    type V = AlbumReadModelArtistView;

    open spec fn deep_view(&self) -> AlbumReadModelArtistView {
        AlbumReadModelArtistView { name: self.name@, file_name: self.file_name@ }
    }
}

/// A track of an album. The rating is the bit pattern of a 32-bit float.
#[derive(Debug)]
pub struct AlbumReadModelTrack {
    pub name: String,
    pub duration_seconds: Option<u32>,
    pub rating: Option<u32>,
    pub position: Option<String>,
}

/// How an `AlbumReadModelTrack` looks in contracts.
pub struct AlbumReadModelTrackView {
    pub name: Seq<char>,
    pub duration_seconds: Option<u32>,
    pub rating: Option<u32>,
    pub position: Option<Seq<char>>,
}

impl DeepView for AlbumReadModelTrack {
    type V = AlbumReadModelTrackView;

    open spec fn deep_view(&self) -> AlbumReadModelTrackView {
        AlbumReadModelTrackView {
            name: self.name@,
            duration_seconds: self.duration_seconds,
            rating: self.rating,
            position: self.position.deep_view(),
        }
    }
}

/// What an artist did on an album.
#[derive(Debug)]
pub struct AlbumReadModelCredit {
    pub artist: AlbumReadModelArtist,
    pub roles: Vec<String>,
}

/// How an `AlbumReadModelCredit` looks in contracts.
pub struct AlbumReadModelCreditView {
    pub artist: AlbumReadModelArtistView,
    pub roles: Seq<Seq<char>>,
}

impl DeepView for AlbumReadModelCredit {
    type V = AlbumReadModelCreditView;

    open spec fn deep_view(&self) -> AlbumReadModelCreditView {
        AlbumReadModelCreditView {
            artist: self.artist.deep_view(),
            roles: self.roles.deep_view(),
        }
    }
}

/// A calendar date: year, month and day as numbers.
#[derive(Clone, Copy, Debug, PartialEq, Eq, Structural)]
pub struct ReleaseDate {
    pub year: i32,
    pub month: u32,
    pub day: u32,
}

/// The canonical record of an album. The rating is the bit pattern of a
/// 32-bit float. `duplicate_of` and `duplicates` link the albums of one
/// duplicate group.
#[derive(Debug)]
pub struct AlbumReadModel {
    pub name: String,
    pub file_name: FileName,
    pub rating: u32,
    pub rating_count: u32,
    pub artists: Vec<AlbumReadModelArtist>,
    pub primary_genres: Vec<String>,
    pub secondary_genres: Vec<String>,
    pub descriptors: Vec<String>,
    pub tracks: Vec<AlbumReadModelTrack>,
    pub release_date: Option<ReleaseDate>,
    pub languages: Vec<String>,
    pub credits: Vec<AlbumReadModelCredit>,
    pub duplicate_of: Option<FileName>,
    pub duplicates: Vec<FileName>,
    pub cover_image_url: Option<String>,
}

/// How an `AlbumReadModel` looks in contracts.
pub struct AlbumReadModelView {
    pub name: Seq<char>,
    pub file_name: Seq<char>,
    pub rating: u32,
    pub rating_count: nat,
    pub artists: Seq<AlbumReadModelArtistView>,
    pub primary_genres: Seq<Seq<char>>,
    pub secondary_genres: Seq<Seq<char>>,
    pub descriptors: Seq<Seq<char>>,
    pub tracks: Seq<AlbumReadModelTrackView>,
    pub release_date: Option<ReleaseDate>,
    pub languages: Seq<Seq<char>>,
    pub credits: Seq<AlbumReadModelCreditView>,
    pub duplicate_of: Option<Seq<char>>,
    pub duplicates: Seq<Seq<char>>,
    pub cover_image_url: Option<Seq<char>>,
}

impl View for AlbumReadModel {
    type V = AlbumReadModelView;

    open spec fn view(&self) -> AlbumReadModelView {
        AlbumReadModelView {
            name: self.name@,
            file_name: self.file_name@,
            rating: self.rating,
            rating_count: self.rating_count as nat,
            artists: self.artists.deep_view(),
            primary_genres: self.primary_genres.deep_view(),
            secondary_genres: self.secondary_genres.deep_view(),
            descriptors: self.descriptors.deep_view(),
            tracks: self.tracks.deep_view(),
            release_date: self.release_date,
            languages: self.languages.deep_view(),
            credits: self.credits.deep_view(),
            duplicate_of: self.duplicate_of.deep_view(),
            duplicates: self.duplicates.deep_view(),
            cover_image_url: self.cover_image_url.deep_view(),
        }
    }
}

/// A character of a role as it stands in a credit tag: a space becomes an
/// underscore, an ASCII capital its small letter, anything else stays.
pub open spec fn tag_char(c: char) -> char {
    if c == ' ' {
        '_'
    } else if 'A' <= c <= 'Z' {
        ((c as u8) + 32) as char
    } else {
        c
    }
}

/// The tag of a role that an artist had on an album: the artist's file
/// name, a colon, and the role in small letters with underscores for
/// spaces.
pub open spec fn credit_tag(artist: Seq<char>, role: Seq<char>) -> Seq<char> {
    artist + seq![':'] + role.map_values(|c: char| tag_char(c))
}

/// The tags of the first `n` roles of a credit.
pub open spec fn tags_of_credit(credit: AlbumReadModelCreditView, n: int) -> Seq<Seq<char>>
    decreases n,
{
    if n <= 0 || n > credit.roles.len() {
        Seq::empty()
    } else {
        tags_of_credit(credit, n - 1).push(credit_tag(credit.artist.file_name, credit.roles[n - 1]))
    }
}

/// The tags of the first `n` credits: one for each role of each credit, in
/// the order of the credits and of their roles.
pub open spec fn credit_tags_among(credits: Seq<AlbumReadModelCreditView>, n: int) -> Seq<Seq<char>>
    decreases n,
{
    if n <= 0 || n > credits.len() {
        Seq::empty()
    } else {
        credit_tags_among(credits, n - 1) + tags_of_credit(
            credits[n - 1],
            credits[n - 1].roles.len() as int,
        )
    }
}

/// The credit tags of an album.
pub open spec fn credit_tags_of(credits: Seq<AlbumReadModelCreditView>) -> Seq<Seq<char>> {
    credit_tags_among(credits, credits.len() as int)
}

fn tag_character(c: char) -> (t: char)
    ensures
        t == tag_char(c),
{
    if c == ' ' {
        '_'
    } else if 'A' <= c && c <= 'Z' {
        ((c as u8) + 32) as char
    } else {
        c
    }
}

fn credit_tag_of(artist: &FileName, role: &str) -> (tag: String)
    ensures
        tag@ == credit_tag(artist@, role@),
{
    let mut tag = String::new();
    push_text(&mut tag, artist.as_str());
    push_char(&mut tag, ':');
    let chars = to_chars(role);
    let ghost head = artist@ + seq![':'];
    let ghost mapped = role@.map_values(|c: char| tag_char(c));
    assert(tag@ =~= head + mapped.subrange(0, 0));
    let mut i: usize = 0;
    while i < chars.len()
        invariant
            i <= chars.len(),
            chars@ == role@,
            mapped == role@.map_values(|c: char| tag_char(c)),
            tag@ == head + mapped.subrange(0, i as int),
        decreases chars.len() - i,
    {
        push_char(&mut tag, tag_character(chars[i]));
        i += 1;
        assert(tag@ =~= head + mapped.subrange(0, i as int));
    }
    assert(mapped.subrange(0, chars.len() as int) =~= mapped);
    tag
}

/// The credit tags of an album: for each role of each credit the
/// artist's file name, a colon, and the role in small letters with
/// underscores for spaces.
pub fn credit_tags(album: &AlbumReadModel) -> (tags: Vec<String>)
    ensures
        tags.deep_view() == credit_tags_of(album@.credits),
{
    let ghost credits = album@.credits;
    let mut tags: Vec<String> = Vec::new();
    let mut i: usize = 0;
    assert(tags.deep_view() =~= credit_tags_among(credits, 0));
    while i < album.credits.len()
        invariant
            i <= album.credits.len(),
            credits == album@.credits,
            credits.len() == album.credits.len(),
            tags.deep_view() == credit_tags_among(credits, i as int),
        decreases album.credits.len() - i,
    {
        let credit = &album.credits[i];
        let ghost before = tags.deep_view();
        let ghost view = credits[i as int];
        assert(view == credit.deep_view());
        let mut j: usize = 0;
        assert(tags.deep_view() =~= before + tags_of_credit(view, 0));
        while j < credit.roles.len()
            invariant
                j <= credit.roles.len(),
                view == credit.deep_view(),
                tags.deep_view() == before + tags_of_credit(view, j as int),
            decreases credit.roles.len() - j,
        {
            let ghost so_far = tags.deep_view();
            let tag = credit_tag_of(&credit.artist.file_name, credit.roles[j].as_str());
            tags.push(tag);
            assert(view.roles[j as int] == credit.roles@[j as int]@);
            assert(tags.deep_view() =~= so_far.push(tag@));
            j += 1;
            assert(tags.deep_view() =~= before + tags_of_credit(view, j as int));
        }
        i += 1;
    }
    tags
}

/// The year as the index stores it: the year of a date of the common era;
/// a year before it wraps around as a 32-bit conversion does.
pub open spec fn release_year_of(date: Option<ReleaseDate>) -> Option<nat> {
    match date {
        Some(d) => if d.year >= 0 {
            Some(d.year as nat)
        } else {
            Some((d.year + 0x1_0000_0000) as nat)
        },
        None => None,
    }
}

/// The number the index keeps for a length; lengths beyond 32 bits are
/// cut to their low 32 bits.
pub open spec fn count_of(len: nat) -> nat {
    len % 0x1_0000_0000
}

fn count(len: usize) -> (n: u32)
    ensures
        n == count_of(len as nat),
{
    (len as u64 % 0x1_0000_0000u64) as u32
}

/// The document under which the index keeps an album: the album, the tags
/// of its credits, and the fields derived from it.
#[derive(Debug)]
pub struct RedisAlbumReadModel {
    pub album: AlbumReadModel,
    pub credit_tags: Vec<String>,
    pub artist_count: u32,
    pub primary_genre_count: u32,
    pub secondary_genre_count: u32,
    pub descriptor_count: u32,
    pub language_count: u32,
    pub credit_tag_count: u32,
    pub release_year: Option<u32>,
    pub is_duplicate: u8,
    pub name_tag: String,
}

/// How a `RedisAlbumReadModel` looks in contracts.
pub struct RedisAlbumReadModelView {
    pub album: AlbumReadModelView,
    pub credit_tags: Seq<Seq<char>>,
    pub artist_count: nat,
    pub primary_genre_count: nat,
    pub secondary_genre_count: nat,
    pub descriptor_count: nat,
    pub language_count: nat,
    pub credit_tag_count: nat,
    pub release_year: Option<nat>,
    pub is_duplicate: nat,
    pub name_tag: Seq<char>,
}

impl View for RedisAlbumReadModel {
    type V = RedisAlbumReadModelView;

    open spec fn view(&self) -> RedisAlbumReadModelView {
        RedisAlbumReadModelView {
            album: self.album@,
            credit_tags: self.credit_tags.deep_view(),
            artist_count: self.artist_count as nat,
            primary_genre_count: self.primary_genre_count as nat,
            secondary_genre_count: self.secondary_genre_count as nat,
            descriptor_count: self.descriptor_count as nat,
            language_count: self.language_count as nat,
            credit_tag_count: self.credit_tag_count as nat,
            release_year: match self.release_year {
                Some(y) => Some(y as nat),
                None => None,
            },
            is_duplicate: self.is_duplicate as nat,
            name_tag: self.name_tag@,
        }
    }
}

impl RedisAlbumReadModelView {
    /// The credit tags are those of the album's credits, and the derived
    /// fields say what the album says: counts are the lengths
    /// of their sources as far as 32 bits hold them, the year is that of
    /// the release date, the duplicate mark is 1 exactly when
    /// `duplicate_of` is set, and the name tag is the name.
    pub open spec fn derived_in_step(self) -> bool {
        &&& self.credit_tags == credit_tags_of(self.album.credits)
        &&& self.artist_count == count_of(self.album.artists.len())
        &&& self.primary_genre_count == count_of(self.album.primary_genres.len())
        &&& self.secondary_genre_count == count_of(self.album.secondary_genres.len())
        &&& self.descriptor_count == count_of(self.album.descriptors.len())
        &&& self.language_count == count_of(self.album.languages.len())
        &&& self.credit_tag_count == count_of(self.credit_tags.len())
        &&& self.release_year == release_year_of(self.album.release_date)
        &&& (self.is_duplicate == 1 <==> self.album.duplicate_of is Some)
        &&& (self.is_duplicate == 0 <==> self.album.duplicate_of is None)
        &&& self.name_tag == self.album.name
    }
}

impl RedisAlbumReadModel {
    /// The document for an album.
    pub fn from_album(album: AlbumReadModel) -> (document: Self)
        ensures
            document@.album == album@,
            document@.derived_in_step(),
    {
        let credit_tags = credit_tags(&album);
        let artist_count = count(album.artists.len());
        let primary_genre_count = count(album.primary_genres.len());
        let secondary_genre_count = count(album.secondary_genres.len());
        let descriptor_count = count(album.descriptors.len());
        let language_count = count(album.languages.len());
        let credit_tag_count = count(credit_tags.len());
        let release_year: Option<u32> = match album.release_date {
            Some(d) => if d.year >= 0 {
                Some(d.year as u32)
            } else {
                Some((d.year as i64 + 0x1_0000_0000) as u32)
            },
            None => None,
        };
        let is_duplicate: u8 = if album.duplicate_of.is_some() {
            1
        } else {
            0
        };
        let name_tag = album.name.clone();
        RedisAlbumReadModel {
            album,
            credit_tags,
            artist_count,
            primary_genre_count,
            secondary_genre_count,
            descriptor_count,
            language_count,
            credit_tag_count,
            release_year,
            is_duplicate,
            name_tag,
        }
    }

    /// The album of the document.
    pub fn into_album(self) -> (album: AlbumReadModel)
        ensures
            album@ == self@.album,
    {
        self.album
    }
}

} // verus!
