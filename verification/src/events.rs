use crate::json::{JsonValue, Metadata};
use crate::outside::{random_token, unix_seconds};
use crate::table::{Key, Keyed};
use vstd::prelude::*;

verus! {

/// The fact that an extraction event announces.
#[derive(Debug)]
pub enum ExtractionEventPayload {
    ExtractorBindingAdded { repository: String, id: String },
    CreateContent { content_id: String },
}

impl Clone for ExtractionEventPayload {
    fn clone(&self) -> (r: Self)
        ensures
            r == *self,
    {
        match self {
            ExtractionEventPayload::ExtractorBindingAdded {
                repository,
                id,
            } => ExtractionEventPayload::ExtractorBindingAdded {
                repository: repository.clone(),
                id: id.clone(),
            },
            ExtractionEventPayload::CreateContent {
                content_id,
            } => ExtractionEventPayload::CreateContent { content_id: content_id.clone() },
        }
    }
}

/// What an extraction event announces, over plain text.
pub ghost enum ExtractionEventPayloadView {
    ExtractorBindingAdded { repository: Seq<char>, id: Seq<char> },
    CreateContent { content_id: Seq<char> },
}

impl View for ExtractionEventPayload {
    type V = ExtractionEventPayloadView;

    open spec fn view(&self) -> ExtractionEventPayloadView {
        match self {
            ExtractionEventPayload::ExtractorBindingAdded {
                repository,
                id,
            } => ExtractionEventPayloadView::ExtractorBindingAdded {
                repository: repository@,
                id: id@,
            },
            ExtractionEventPayload::CreateContent {
                content_id,
            } => ExtractionEventPayloadView::CreateContent { content_id: content_id@ },
        }
    }
}

/// What an extraction event holds.
pub ghost struct ExtractionEventView {
    pub id: Seq<char>,
    pub repository_id: Seq<char>,
    pub payload: ExtractionEventPayloadView,
}

impl ExtractionEventView {
    /// The event, under the identifier, that announces a new content item.
    pub open spec fn content_created(
        id: Seq<char>,
        repository: Seq<char>,
        content_id: Seq<char>,
    ) -> ExtractionEventView {
        ExtractionEventView {
            id,
            repository_id: repository,
            payload: ExtractionEventPayloadView::CreateContent { content_id },
        }
    }

    /// The event, under the identifier, that announces a new binding.
    pub open spec fn binding_added(
        id: Seq<char>,
        repository: Seq<char>,
        binding: Seq<char>,
    ) -> ExtractionEventView {
        ExtractionEventView {
            id,
            repository_id: repository,
            payload: ExtractionEventPayloadView::ExtractorBindingAdded { repository, id: binding },
        }
    }
}

impl View for ExtractionEvent {
    type V = ExtractionEventView;

    open spec fn view(&self) -> ExtractionEventView {
        ExtractionEventView {
            id: self.id@,
            repository_id: self.repository_id@,
            payload: self.payload@,
        }
    }
}

/// A fact, written once, that calls for work to be created.
#[derive(Debug)]
pub struct ExtractionEvent {
    pub id: String,
    pub repository_id: String,
    pub payload: ExtractionEventPayload,
}

impl ExtractionEvent {
    /// The event, under the given identifier, that announces a new content
    /// item.
    pub fn content_created(id: String, repository: &str, content_id: &str) -> (r: Self)
        ensures
            r.id == id,
            r@ == ExtractionEventView::content_created(id@, repository@, content_id@),
    {
        ExtractionEvent {
            id,
            repository_id: repository.to_owned(),
            payload: ExtractionEventPayload::CreateContent { content_id: content_id.to_owned() },
        }
    }

    /// The event, under the given identifier, that announces a new binding.
    pub fn binding_added(id: String, repository: &str, binding: &str) -> (r: Self)
        ensures
            r.id == id,
            r@ == ExtractionEventView::binding_added(id@, repository@, binding@),
    {
        ExtractionEvent {
            id,
            repository_id: repository.to_owned(),
            payload: ExtractionEventPayload::ExtractorBindingAdded {
                repository: repository.to_owned(),
                id: binding.to_owned(),
            },
        }
    }
}

impl Clone for ExtractionEvent {
    fn clone(&self) -> (r: Self)
        ensures
            r == *self,
    {
        ExtractionEvent {
            id: self.id.clone(),
            repository_id: self.repository_id.clone(),
            payload: self.payload.clone(),
        }
    }
}

/// An extraction event as the log holds it: the event, and when it was
/// acknowledged, if it was.
#[derive(Debug)]
pub struct ExtractionEventRow {
    pub event: ExtractionEvent,
    pub processed_at: Option<u64>,
}

/// What a row of the event log holds.
pub ghost struct ExtractionEventRowView {
    pub event: ExtractionEventView,
    pub processed_at: Option<u64>,
}

impl View for ExtractionEventRow {
    type V = ExtractionEventRowView;

    open spec fn view(&self) -> ExtractionEventRowView {
        ExtractionEventRowView { event: self.event@, processed_at: self.processed_at }
    }
}

impl Key for ExtractionEventRowView {
    open spec fn key(&self) -> Seq<char> {
        self.event.id
    }
}

impl Key for ExtractionEventRow {
    open spec fn key(&self) -> Seq<char> {
        self.event.id@
    }
}

impl Keyed for ExtractionEventRow {
    fn key_text(&self) -> (r: &str) {
        self.event.id.as_str()
    }
}

/// Something that happened in a repository, told in a message.
#[derive(Debug)]
pub struct Event {
    pub id: String,
    pub message: String,
    pub unix_timestamp: u64,
    pub metadata: Metadata,
}

/// What an event holds.
pub ghost struct EventView {
    pub id: Seq<char>,
    pub message: Seq<char>,
    pub unix_timestamp: u64,
    pub metadata: Map<Seq<char>, JsonValue>,
}

impl View for Event {
    type V = EventView;

    open spec fn view(&self) -> EventView {
        EventView {
            id: self.id@,
            message: self.message@,
            unix_timestamp: self.unix_timestamp,
            metadata: self.metadata@,
        }
    }
}

impl Event {
    /// The time that an event carries: the one given, else the clock's, else
    /// the epoch where the clock gives none.
    pub open spec fn time_of(given: Option<u64>, clock: Option<u64>) -> u64 {
        match given {
            Some(t) => t,
            None => match clock {
                Some(t) => t,
                None => 0,
            },
        }
    }

    /// An event under the given identifier, at the time that `time_of` picks.
    pub fn assemble(
        id: String,
        message: &str,
        unix_timestamp: Option<u64>,
        clock: Option<u64>,
        metadata: Metadata,
    ) -> (r: Self)
        ensures
            r.id == id,
            r.message@ == message@,
            r.unix_timestamp == Self::time_of(unix_timestamp, clock),
            r.metadata == metadata,
    {
        let unix_timestamp = match unix_timestamp {
            Some(t) => t,
            None => match clock {
                Some(t) => t,
                None => 0,
            },
        };
        Event { id, message: message.to_owned(), unix_timestamp, metadata }
    }

    /// A new event under a fresh random identifier, at the given time or, if
    /// none is given, now.
    pub fn new(message: &str, unix_timestamp: Option<u64>, metadata: Metadata) -> (r: Self)
        ensures
            r.id@.len() == 21,
            r.message@ == message@,
            unix_timestamp is Some ==> r.unix_timestamp == unix_timestamp->Some_0,
            r.metadata == metadata,
    {
        Self::assemble(random_token(), message, unix_timestamp, unix_seconds(), metadata)
    }
}

impl Clone for Event {
    fn clone(&self) -> (r: Self)
        ensures
            r@ == self@,
    {
        Event {
            id: self.id.clone(),
            message: self.message.clone(),
            unix_timestamp: self.unix_timestamp,
            metadata: self.metadata.clone(),
        }
    }
}

/// An event as the store holds it, under its repository.
#[derive(Debug)]
pub struct EventRow {
    pub repository_id: String,
    pub event: Event,
}

/// What a stored event holds.
pub ghost struct EventRowView {
    pub repository_id: Seq<char>,
    pub event: EventView,
}

impl View for EventRow {
    type V = EventRowView;

    open spec fn view(&self) -> EventRowView {
        EventRowView { repository_id: self.repository_id@, event: self.event@ }
    }
}

impl Key for EventRowView {
    open spec fn key(&self) -> Seq<char> {
        self.event.id
    }
}

impl Key for EventRow {
    open spec fn key(&self) -> Seq<char> {
        self.event.id@
    }
}

impl Keyed for EventRow {
    fn key_text(&self) -> (r: &str) {
        self.event.id.as_str()
    }
}

} // verus!
