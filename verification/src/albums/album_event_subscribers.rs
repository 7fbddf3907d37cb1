//! The subscribers that keep the album read model in step with what is
//! parsed, and that send the crawler after the albums named by charts and
//! artist pages.

use crate::albums::album_read_model::{
    AlbumReadModel, AlbumReadModelArtist, AlbumReadModelCredit, AlbumReadModelTrack,
    AlbumReadModelView,
};
use crate::crawler::priority_queue::{
    clone_text, Priority, QueuePushParameters, QueuePushParametersView,
};
use crate::events::event::{Event, EventPayload, EventPayloadView, EventView, Stream};
use crate::events::event_subscriber::EventSubscriber;
use crate::files::file_name::{FileName, PageType};
use crate::helpers::text::{has_prefix, push_text, same_text};
use crate::parser::parsed_file_data::{
    ParsedAlbum, ParsedAlbumReference, ParsedAlbumReferenceView, ParsedAlbumView,
    ParsedArtistReference, ParsedCredit, ParsedFileData, ParsedFileDataView, ParsedTrack,
};
use vstd::prelude::*;

verus! {

/// A copy of a list of texts.
pub fn clone_texts(texts: &Vec<String>) -> (copy: Vec<String>)
    ensures
        copy.deep_view() == texts.deep_view(),
{
    let mut copy: Vec<String> = Vec::new();
    let mut i: usize = 0;
    while i < texts.len()
        invariant
            i <= texts.len(),
            copy.len() == i,
            forall|j: int| 0 <= j < i ==> copy@[j]@ == texts@[j]@,
        decreases texts.len() - i,
    {
        copy.push(texts[i].clone());
        i += 1;
    }
    assert(copy.deep_view() =~= texts.deep_view());
    copy
}

impl AlbumReadModelTrack {
    /// The track of the read model for a parsed track.
    pub fn from(parsed_track: &ParsedTrack) -> (track: Self)
        ensures
            track.deep_view() == parsed_track.deep_view(),
    {
        AlbumReadModelTrack {
            name: parsed_track.name.clone(),
            duration_seconds: parsed_track.duration_seconds,
            rating: parsed_track.rating,
            position: clone_text(&parsed_track.position),
        }
    }
}

impl AlbumReadModelArtist {
    /// The artist of the read model for a parsed artist.
    pub fn from(parsed_artist: &ParsedArtistReference) -> (artist: Self)
        ensures
            artist.deep_view() == parsed_artist.deep_view(),
    {
        AlbumReadModelArtist {
            name: parsed_artist.name.clone(),
            file_name: parsed_artist.file_name.clone(),
        }
    }
}

impl AlbumReadModelCredit {
    /// The credit of the read model for a parsed credit.
    pub fn from(parsed_credit: &ParsedCredit) -> (credit: Self)
        ensures
            credit.deep_view() == parsed_credit.deep_view(),
    {
        AlbumReadModelCredit {
            artist: AlbumReadModelArtist::from(&parsed_credit.artist),
            roles: clone_texts(&parsed_credit.roles),
        }
    }
}

/// The read model that a parsed album makes under a file name: every
/// attribute as parsed, and no duplicate linkage.
pub open spec fn read_model_of(file_name: Seq<char>, parsed: ParsedAlbumView) -> AlbumReadModelView {
    AlbumReadModelView {
        name: parsed.name,
        file_name,
        rating: parsed.rating,
        rating_count: parsed.rating_count,
        artists: parsed.artists,
        primary_genres: parsed.primary_genres,
        secondary_genres: parsed.secondary_genres,
        descriptors: parsed.descriptors,
        tracks: parsed.tracks,
        release_date: parsed.release_date,
        languages: parsed.languages,
        credits: parsed.credits,
        duplicate_of: None,
        duplicates: Seq::empty(),
        cover_image_url: parsed.cover_image_url,
    }
}

impl AlbumReadModel {
    /// The read model of a parsed album.
    pub fn from_parsed_album(file_name: &FileName, parsed_album: ParsedAlbum) -> (album: Self)
        ensures
            album@ == read_model_of(file_name@, parsed_album.deep_view()),
    {
        let mut artists: Vec<AlbumReadModelArtist> = Vec::new();
        let mut i: usize = 0;
        while i < parsed_album.artists.len()
            invariant
                i <= parsed_album.artists.len(),
                artists.len() == i,
                forall|j: int|
                    0 <= j < i ==> artists@[j].deep_view() == parsed_album.artists@[j].deep_view(),
            decreases parsed_album.artists.len() - i,
        {
            artists.push(AlbumReadModelArtist::from(&parsed_album.artists[i]));
            i += 1;
        }
        assert(artists.deep_view() =~= parsed_album.artists.deep_view());
        let mut tracks: Vec<AlbumReadModelTrack> = Vec::new();
        let mut i: usize = 0;
        while i < parsed_album.tracks.len()
            invariant
                i <= parsed_album.tracks.len(),
                tracks.len() == i,
                forall|j: int|
                    0 <= j < i ==> tracks@[j].deep_view() == parsed_album.tracks@[j].deep_view(),
            decreases parsed_album.tracks.len() - i,
        {
            tracks.push(AlbumReadModelTrack::from(&parsed_album.tracks[i]));
            i += 1;
        }
        assert(tracks.deep_view() =~= parsed_album.tracks.deep_view());
        let mut credits: Vec<AlbumReadModelCredit> = Vec::new();
        let mut i: usize = 0;
        while i < parsed_album.credits.len()
            invariant
                i <= parsed_album.credits.len(),
                credits.len() == i,
                forall|j: int|
                    0 <= j < i ==> credits@[j].deep_view() == parsed_album.credits@[j].deep_view(),
            decreases parsed_album.credits.len() - i,
        {
            credits.push(AlbumReadModelCredit::from(&parsed_album.credits[i]));
            i += 1;
        }
        assert(credits.deep_view() =~= parsed_album.credits.deep_view());
        let album = AlbumReadModel {
            name: parsed_album.name,
            file_name: file_name.clone(),
            rating: parsed_album.rating,
            rating_count: parsed_album.rating_count,
            artists,
            primary_genres: parsed_album.primary_genres,
            secondary_genres: parsed_album.secondary_genres,
            descriptors: parsed_album.descriptors,
            tracks,
            release_date: parsed_album.release_date,
            languages: parsed_album.languages,
            credits,
            duplicate_of: None,
            duplicates: Vec::new(),
            cover_image_url: parsed_album.cover_image_url,
        };
        assert(album@.duplicates =~= Seq::empty());
        album
    }
}

/// The read model to put for an event: that of the album, if the event
/// tells of a parsed album page.
pub open spec fn album_to_put(event: EventView) -> Option<AlbumReadModelView> {
    match event {
        EventView::FileParsed { file_id, file_name, data: ParsedFileDataView::Album(parsed) } => Some(
            read_model_of(file_name, parsed),
        ),
        _ => None,
    }
}

/// The file name whose read model is to be deleted for an event: that of
/// the file, if the event tells of a deleted file that held an album page.
pub open spec fn album_to_delete(event: EventView, page_type: PageType) -> Option<Seq<char>> {
    match event {
        EventView::FileDeleted { file_id, file_name } => if page_type == PageType::Album {
            Some(file_name)
        } else {
            None
        },
        _ => None,
    }
}

/// The read model to put for an event.
pub fn update_album_read_models(event: Event) -> (album: Option<AlbumReadModel>)
    ensures
        match album {
            Some(a) => album_to_put(event@) == Some(a@),
            None => album_to_put(event@) is None,
        },
{
    match event {
        Event::FileParsed { file_id: _, file_name, data: ParsedFileData::Album(parsed_album) } => Some(
            AlbumReadModel::from_parsed_album(&file_name, parsed_album),
        ),
        _ => None,
    }
}

/// The file name whose read model is to be deleted for an event;
/// `page_type` is the type of the page that the event's file held.
pub fn delete_album_read_models(event: &Event, page_type: PageType) -> (file_name: Option<FileName>)
    ensures
        file_name.deep_view() == album_to_delete(event@, page_type),
{
    match event {
        Event::FileDeleted { file_id: _, file_name } => match page_type {
            PageType::Album => Some(file_name.clone()),
            _ => None,
        },
        _ => None,
    }
}

/// The priority of follow-up crawls: low for those that a crawl of similar
/// albums caused, standard for all others.
pub open spec fn crawl_priority(correlation_id: Option<Seq<char>>) -> Priority {
    match correlation_id {
        Some(id) => if "crawl_similar_albums:"@.is_prefix_of(id) {
            Priority::Low
        } else {
            Priority::Standard
        },
        None => Priority::Standard,
    }
}

/// The priority of follow-up crawls, from the identifier of what caused
/// the event.
pub fn get_crawl_priority(correlation_id: Option<String>) -> (priority: Priority)
    ensures
        priority == crawl_priority(correlation_id.deep_view()),
{
    match correlation_id {
        Some(id) => if has_prefix(id.as_str(), "crawl_similar_albums:") {
            Priority::Low
        } else {
            Priority::Standard
        },
        None => Priority::Standard,
    }
}

/// The crawl request for an album named on a page.
pub open spec fn crawl_request(
    label: Seq<char>,
    page: Seq<char>,
    album: ParsedAlbumReferenceView,
    correlation_id: Option<Seq<char>>,
) -> QueuePushParametersView {
    QueuePushParametersView {
        file_name: album.file_name,
        priority: Some(crawl_priority(correlation_id)),
        deduplication_key: None,
        correlation_id: Some(label + page),
        metadata: None,
    }
}

/// The crawl requests for the albums named on a page, one for each, in
/// their order.
pub open spec fn crawl_requests_for(
    label: Seq<char>,
    page: Seq<char>,
    albums: Seq<ParsedAlbumReferenceView>,
    correlation_id: Option<Seq<char>>,
) -> Seq<QueuePushParametersView> {
    Seq::new(albums.len(), |i: int| crawl_request(label, page, albums[i], correlation_id))
}

/// The crawl requests that a chart causes: one for each of its albums, if
/// the event tells of a parsed chart; none otherwise.
pub open spec fn chart_requests(payload: EventPayloadView) -> Seq<QueuePushParametersView> {
    match payload.event {
        EventView::FileParsed { file_id, file_name, data: ParsedFileDataView::Chart(albums) } => crawl_requests_for(
            "crawl_chart_albums:"@,
            file_name,
            albums,
            payload.correlation_id,
        ),
        _ => Seq::empty(),
    }
}

/// The crawl requests that an artist page causes: one for each of the
/// artist's albums, if the event tells of a parsed artist page; none
/// otherwise.
pub open spec fn artist_requests(payload: EventPayloadView) -> Seq<QueuePushParametersView> {
    match payload.event {
        EventView::FileParsed { file_id, file_name, data: ParsedFileDataView::Artist(artist) } => crawl_requests_for(
            "crawl_artist_albums:"@,
            file_name,
            artist.albums,
            payload.correlation_id,
        ),
        _ => Seq::empty(),
    }
}

/// Crawl requests as contracts see them.
pub open spec fn request_views(requests: Seq<QueuePushParameters>) -> Seq<QueuePushParametersView> {
    requests.map_values(|r: QueuePushParameters| r@)
}

fn crawl_requests(
    label: &str,
    page: &FileName,
    albums: &Vec<ParsedAlbumReference>,
    correlation_id: &Option<String>,
) -> (requests: Vec<QueuePushParameters>)
    ensures
        request_views(requests@) == crawl_requests_for(
            label@,
            page@,
            albums.deep_view(),
            correlation_id.deep_view(),
        ),
{
    let priority = get_crawl_priority(clone_text(correlation_id));
    let mut requests: Vec<QueuePushParameters> = Vec::new();
    let mut i: usize = 0;
    while i < albums.len()
        invariant
            i <= albums.len(),
            requests@.len() == i,
            priority == crawl_priority(correlation_id.deep_view()),
            forall|j: int|
                0 <= j < i ==> (#[trigger] requests@[j])@ == crawl_request(
                    label@,
                    page@,
                    albums@[j].deep_view(),
                    correlation_id.deep_view(),
                ),
        decreases albums.len() - i,
    {
        let mut cause = String::new();
        push_text(&mut cause, label);
        push_text(&mut cause, page.as_str());
        assert(cause@ =~= label@ + page@);
        requests.push(
            QueuePushParameters {
                file_name: albums[i].file_name.clone(),
                priority: Some(priority),
                deduplication_key: None,
                correlation_id: Some(cause),
                metadata: None,
            },
        );
        i += 1;
    }
    assert(request_views(requests@) =~= crawl_requests_for(
        label@,
        page@,
        albums.deep_view(),
        correlation_id.deep_view(),
    ));
    requests
}

/// The crawl requests for an event: one for each album of the chart, if
/// the event tells of a parsed chart.
pub fn crawl_chart_albums(payload: &EventPayload) -> (requests: Vec<QueuePushParameters>)
    ensures
        request_views(requests@) == chart_requests(payload@),
{
    match &payload.event {
        Event::FileParsed { file_id: _, file_name, data: ParsedFileData::Chart(albums) } => crawl_requests(
            "crawl_chart_albums:",
            file_name,
            albums,
            &payload.correlation_id,
        ),
        _ => {
            let none: Vec<QueuePushParameters> = Vec::new();
            assert(request_views(none@) =~= Seq::empty());
            none
        },
    }
}

/// The crawl requests for an event: one for each album of the artist, if
/// the event tells of a parsed artist page.
pub fn crawl_artist_albums(payload: &EventPayload) -> (requests: Vec<QueuePushParameters>)
    ensures
        request_views(requests@) == artist_requests(payload@),
{
    match &payload.event {
        Event::FileParsed { file_id: _, file_name, data: ParsedFileData::Artist(artist) } => crawl_requests(
            "crawl_artist_albums:",
            file_name,
            &artist.albums,
            &payload.correlation_id,
        ),
        _ => {
            let none: Vec<QueuePushParameters> = Vec::new();
            assert(request_views(none@) =~= Seq::empty());
            none
        },
    }
}

/// The ordering group of an event for the subscriber that updates read
/// models: the name of the album, so that albums that may be duplicates
/// of one another are handled in turn.
pub open spec fn update_group(event: EventView) -> Option<Seq<char>> {
    match event {
        EventView::FileParsed { file_id, file_name, data: ParsedFileDataView::Album(parsed) } => Some(
            parsed.name,
        ),
        _ => None,
    }
}

/// The ordering group of an event for the subscriber that deletes read
/// models: the file name of a deleted album page.
pub open spec fn delete_group(event: EventView, page_type: PageType) -> Option<Seq<char>> {
    album_to_delete(event, page_type)
}

/// The ordering group of an event for a subscriber, by the subscriber's
/// name: the two subscribers that keep the read model order their events,
/// the two that send the crawler out do not, and neither does a
/// subscriber of another name.
pub open spec fn ordering_group_of(
    subscriber_id: Seq<char>,
    event: EventView,
    page_type: PageType,
) -> Option<Seq<char>> {
    if subscriber_id == "update_album_read_models"@ {
        update_group(event)
    } else if subscriber_id == "delete_album_read_models"@ {
        delete_group(event, page_type)
    } else {
        None
    }
}

/// The ordering group of an event for the subscriber that updates read
/// models.
pub fn update_album_read_models_group(event: &Event) -> (group: Option<String>)
    ensures
        group.deep_view() == update_group(event@),
{
    match event {
        Event::FileParsed { file_id: _, file_name: _, data: ParsedFileData::Album(parsed) } => Some(
            parsed.name.clone(),
        ),
        _ => None,
    }
}

/// The ordering group of an event for the subscriber that deletes read
/// models; `page_type` is the type of the page that the event's file
/// held.
pub fn delete_album_read_models_group(event: &Event, page_type: PageType) -> (group: Option<String>)
    ensures
        group.deep_view() == delete_group(event@, page_type),
{
    match event {
        Event::FileDeleted { file_id: _, file_name } => match page_type {
            PageType::Album => Some(file_name.to_string()),
            _ => None,
        },
        _ => None,
    }
}

/// The ordering group of an event for the subscriber of the given name;
/// `page_type` is the type of the page that the event's file holds.
pub fn ordering_group(subscriber_id: &str, event: &Event, page_type: PageType) -> (group: Option<
    String,
>)
    ensures
        group.deep_view() == ordering_group_of(subscriber_id@, event@, page_type),
{
    if same_text(subscriber_id, "update_album_read_models") {
        update_album_read_models_group(event)
    } else if same_text(subscriber_id, "delete_album_read_models") {
        delete_album_read_models_group(event, page_type)
    } else {
        None
    }
}

/// What a subscriber asks for when it handles an event.
#[derive(Debug)]
pub enum SubscriberAction {
    /// Put the album and reconcile its duplicate group.
    Put(AlbumReadModel),
    /// Delete the album with the file name.
    Delete(FileName),
    /// Enqueue each of the requests whose file is stale.
    Enqueue(Vec<QueuePushParameters>),
    /// The event does not concern the subscriber.
    Nothing,
    /// No subscriber of the album module goes by the name.
    Unknown,
}

/// How a `SubscriberAction` looks in contracts.
pub enum SubscriberActionView {
    Put(AlbumReadModelView),
    Delete(Seq<char>),
    Enqueue(Seq<QueuePushParametersView>),
    Nothing,
    Unknown,
}

impl View for SubscriberAction {
    type V = SubscriberActionView;

    open spec fn view(&self) -> SubscriberActionView {
        match self {
            SubscriberAction::Put(album) => SubscriberActionView::Put(album@),
            SubscriberAction::Delete(file_name) => SubscriberActionView::Delete(file_name@),
            SubscriberAction::Enqueue(requests) => SubscriberActionView::Enqueue(
                request_views(requests@),
            ),
            SubscriberAction::Nothing => SubscriberActionView::Nothing,
            SubscriberAction::Unknown => SubscriberActionView::Unknown,
        }
    }
}

/// What the subscriber of the given name asks for when it handles an
/// event.
pub open spec fn action_of(
    subscriber_id: Seq<char>,
    payload: EventPayloadView,
    page_type: PageType,
) -> SubscriberActionView {
    if subscriber_id == "update_album_read_models"@ {
        match album_to_put(payload.event) {
            Some(album) => SubscriberActionView::Put(album),
            None => SubscriberActionView::Nothing,
        }
    } else if subscriber_id == "delete_album_read_models"@ {
        match album_to_delete(payload.event, page_type) {
            Some(file_name) => SubscriberActionView::Delete(file_name),
            None => SubscriberActionView::Nothing,
        }
    } else if subscriber_id == "crawl_chart_albums"@ {
        SubscriberActionView::Enqueue(chart_requests(payload))
    } else if subscriber_id == "crawl_artist_albums"@ {
        SubscriberActionView::Enqueue(artist_requests(payload))
    } else {
        SubscriberActionView::Unknown
    }
}

/// What the subscriber of the given name asks for when it handles an
/// event; `page_type` is the type of the page that the event's file
/// holds.
pub fn subscriber_action(subscriber_id: &str, payload: EventPayload, page_type: PageType) -> (action:
    SubscriberAction)
    ensures
        action@ == action_of(subscriber_id@, payload@, page_type),
{
    if same_text(subscriber_id, "update_album_read_models") {
        match update_album_read_models(payload.event) {
            Some(album) => SubscriberAction::Put(album),
            None => SubscriberAction::Nothing,
        }
    } else if same_text(subscriber_id, "delete_album_read_models") {
        match delete_album_read_models(&payload.event, page_type) {
            Some(file_name) => SubscriberAction::Delete(file_name),
            None => SubscriberAction::Nothing,
        }
    } else if same_text(subscriber_id, "crawl_chart_albums") {
        SubscriberAction::Enqueue(crawl_chart_albums(&payload))
    } else if same_text(subscriber_id, "crawl_artist_albums") {
        SubscriberAction::Enqueue(crawl_artist_albums(&payload))
    } else {
        SubscriberAction::Unknown
    }
}

/// The events of a batch that a subscriber takes at once.
pub const BATCH_SIZE: usize = 250;

fn subscriber(id: &str, stream: Stream, ordered: bool) -> (declared: EventSubscriber)
    ensures
        declared.id@ == id@,
        declared.stream == stream,
        declared.batch_size == 250,
        declared.ordered == ordered,
{
    let mut name = String::new();
    push_text(&mut name, id);
    assert(name@ =~= id@);
    EventSubscriber { id: name, stream, batch_size: BATCH_SIZE, ordered }
}

/// The subscribers of the album module: two that keep the read model in
/// step, on the parser and the file stream, which order their events as
/// `ordering_group` says; and two on the parser stream that enqueue the
/// albums of charts and of artists, which do not order theirs.
pub fn build_album_event_subscribers() -> (subscribers: Vec<EventSubscriber>)
    ensures
        subscribers@.len() == 4,
        subscribers@[0].id@ == "update_album_read_models"@,
        subscribers@[0].stream == Stream::Parser,
        subscribers@[0].ordered,
        subscribers@[1].id@ == "delete_album_read_models"@,
        subscribers@[1].stream == Stream::File,
        subscribers@[1].ordered,
        subscribers@[2].id@ == "crawl_chart_albums"@,
        subscribers@[2].stream == Stream::Parser,
        !subscribers@[2].ordered,
        subscribers@[3].id@ == "crawl_artist_albums"@,
        subscribers@[3].stream == Stream::Parser,
        !subscribers@[3].ordered,
        forall|i: int| 0 <= i < 4 ==> (#[trigger] subscribers@[i]).batch_size == 250,
{
    let mut subscribers: Vec<EventSubscriber> = Vec::new();
    subscribers.push(subscriber("update_album_read_models", Stream::Parser, true));
    subscribers.push(subscriber("delete_album_read_models", Stream::File, true));
    subscribers.push(subscriber("crawl_chart_albums", Stream::Parser, false));
    subscribers.push(subscriber("crawl_artist_albums", Stream::Parser, false));
    subscribers
}

} // verus!
