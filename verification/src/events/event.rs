//! Streams and the keys under which their logs and cursors are stored.

use crate::crawler::priority_queue::Metadata;
use crate::files::file_name::FileName;
use crate::helpers::text::push_text;
use crate::parser::parsed_file_data::{ParsedFileData, ParsedFileDataView};
use vstd::prelude::*;

verus! {

/// What happened to a file. File identifiers are ULIDs as numbers.
#[derive(Debug)]
pub enum Event {
    FileSaved { file_id: u128, file_name: FileName },
    FileDeleted { file_id: u128, file_name: FileName },
    FileParsed { file_id: u128, file_name: FileName, data: ParsedFileData },
    FileParseFailed { file_id: u128, file_name: FileName, error: String },
}

/// How an `Event` looks in contracts.
pub enum EventView {
    FileSaved { file_id: u128, file_name: Seq<char> },
    FileDeleted { file_id: u128, file_name: Seq<char> },
    FileParsed { file_id: u128, file_name: Seq<char>, data: ParsedFileDataView },
    FileParseFailed { file_id: u128, file_name: Seq<char>, error: Seq<char> },
}

impl View for Event {
    type V = EventView;

    open spec fn view(&self) -> EventView {
        match self {
            Event::FileSaved { file_id, file_name } => EventView::FileSaved {
                file_id: *file_id,
                file_name: file_name@,
            },
            Event::FileDeleted { file_id, file_name } => EventView::FileDeleted {
                file_id: *file_id,
                file_name: file_name@,
            },
            Event::FileParsed { file_id, file_name, data } => EventView::FileParsed {
                file_id: *file_id,
                file_name: file_name@,
                data: data.deep_view(),
            },
            Event::FileParseFailed { file_id, file_name, error } => EventView::FileParseFailed {
                file_id: *file_id,
                file_name: file_name@,
                error: error@,
            },
        }
    }
}

/// An event as it travels: with the identifier of what caused it and
/// free-form metadata.
#[derive(Debug)]
pub struct EventPayload {
    pub event: Event,
    pub correlation_id: Option<String>,
    pub metadata: Option<Metadata>,
}

/// How an `EventPayload` looks in contracts.
pub struct EventPayloadView {
    pub event: EventView,
    pub correlation_id: Option<Seq<char>>,
    pub metadata: Option<Seq<(Seq<char>, Seq<char>)>>,
}

impl View for EventPayload {
    type V = EventPayloadView;

    open spec fn view(&self) -> EventPayloadView {
        EventPayloadView {
            event: self.event@,
            correlation_id: self.correlation_id.deep_view(),
            metadata: self.metadata.deep_view(),
        }
    }
}

/// An append-only log of events.
#[derive(Clone, Copy, Debug, PartialEq, Eq, Structural)]
pub enum Stream {
    File,
    Parser,
    Lookup,
}

impl Stream {
    /// The short name of the stream.
    pub open spec fn tag_spec(self) -> Seq<char> {
        match self {
            Stream::File => "file"@,
            Stream::Parser => "parser"@,
            Stream::Lookup => "lookup"@,
        }
    }

    /// The short name of the stream.
    pub fn tag(&self) -> (tag: String)
        ensures
            tag@ == self.tag_spec(),
    {
        let mut tag = String::new();
        match self {
            Stream::File => push_text(&mut tag, "file"),
            Stream::Parser => push_text(&mut tag, "parser"),
            Stream::Lookup => push_text(&mut tag, "lookup"),
        }
        assert(tag@ =~= self.tag_spec());
        tag
    }

    /// The store key of the stream's log.
    pub fn redis_key(&self) -> (key: String)
        ensures
            key@ == "event:stream:"@ + self.tag_spec(),
    {
        let mut key = String::new();
        push_text(&mut key, "event:stream:");
        let tag = self.tag();
        push_text(&mut key, tag.as_str());
        assert(key@ =~= "event:stream:"@ + self.tag_spec());
        key
    }

    /// The store key of a subscriber's cursor into the stream.
    pub fn redis_cursor_key(&self, subscriber_id: &str) -> (key: String)
        ensures
            key@ == "event:stream:"@ + self.tag_spec() + ":cursor:"@ + subscriber_id@,
    {
        let mut key = self.redis_key();
        push_text(&mut key, ":cursor:");
        push_text(&mut key, subscriber_id);
        assert(key@ =~= "event:stream:"@ + self.tag_spec() + ":cursor:"@ + subscriber_id@);
        key
    }
}

} // verus!
