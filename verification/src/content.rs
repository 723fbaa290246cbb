use crate::identity::{fingerprint_of_pair, fingerprint_pair};
use crate::json::{JsonValue, Metadata};
use crate::outside::{
    guess_media_type, guessed_media_type, octet_stream_media_type, parse_media_type,
    parsed_media_type, plain_text_media_type, same_text,
};
use vstd::prelude::*;

verus! {

/// Where the payload of a content item lives.
#[derive(Clone, Copy, Debug, PartialEq, Eq, Structural)]
pub enum PayloadType {
    EmbeddedStorage,
    BlobStorageLink,
}

impl Default for PayloadType {
    fn default() -> (r: Self)
        ensures
            r == PayloadType::EmbeddedStorage,
    {
        PayloadType::EmbeddedStorage
    }
}

impl PayloadType {
    /// The name under which the payload type is stored.
    pub open spec fn stored_name(self) -> Seq<char> {
        match self {
            PayloadType::EmbeddedStorage => "embedded_storage"@,
            PayloadType::BlobStorageLink => "blob_storage_link"@,
        }
    }

    /// The name under which the payload type is stored.
    pub fn to_string(&self) -> (r: String)
        ensures
            r@ == self.stored_name(),
    {
        match self {
            PayloadType::EmbeddedStorage => "embedded_storage".to_owned(),
            PayloadType::BlobStorageLink => "blob_storage_link".to_owned(),
        }
    }

    /// Reads a stored name back. A text that names no payload type gives
    /// nothing.
    pub fn from_str(text: &str) -> (r: Option<PayloadType>)
        ensures
            match r {
                Some(p) => p.stored_name() == text@,
                None => forall|p: PayloadType| p.stored_name() != text@,
            },
    {
        if same_text(text, "embedded_storage") {
            Some(PayloadType::EmbeddedStorage)
        } else if same_text(text, "blob_storage_link") {
            Some(PayloadType::BlobStorageLink)
        } else {
            None
        }
    }
}

/// The media type under which a stored text is read: the text as `mime` reads
/// it, or the generic type where `mime` reads none.
pub open spec fn media_type_or_generic(parsed: Option<Seq<char>>) -> Seq<char> {
    match parsed {
        Some(m) => m,
        None => "application/octet-stream"@,
    }
}

/// Settles the media type of a content item from what the parser made of its
/// stored text.
pub fn settle_media_type(parsed: Option<String>) -> (r: String)
    ensures
        r@ == media_type_or_generic(
            match parsed {
                Some(m) => Some(m@),
                None => None,
            },
        ),
{
    match parsed {
        Some(m) => m,
        None => octet_stream_media_type(),
    }
}

/// Reads a stored media type. A text that is no media type is read as the
/// generic type: reading never fails.
pub fn read_media_type(text: &str) -> (r: String)
    ensures
        r@ == media_type_or_generic(parsed_media_type(text@)),
{
    settle_media_type(parse_media_type(text))
}

/// A unit of data on its way into a repository.
#[derive(Debug)]
pub struct ContentPayload {
    pub id: String,
    pub content_type: String,
    pub payload: String,
    pub payload_type: PayloadType,
    pub metadata: Metadata,
}

/// What a content payload holds.
pub ghost struct ContentPayloadView {
    pub id: Seq<char>,
    pub content_type: Seq<char>,
    pub payload: Seq<char>,
    pub payload_type: PayloadType,
    pub metadata: Map<Seq<char>, JsonValue>,
}

impl View for ContentPayload {
    type V = ContentPayloadView;

    open spec fn view(&self) -> ContentPayloadView {
        ContentPayloadView {
            id: self.id@,
            content_type: self.content_type@,
            payload: self.payload@,
            payload_type: self.payload_type,
            metadata: self.metadata@,
        }
    }
}

impl ContentPayload {
    /// The identifier of a content item: a function of the repository and of
    /// the text that tells the item apart.
    pub open spec fn id_of(repository: Seq<char>, discriminator: Seq<char>) -> Seq<char> {
        fingerprint_of_pair(repository, discriminator)
    }

    /// Inline text. The identifier is derived from the repository and the
    /// text.
    pub fn from_text(repository: &str, text: &str, metadata: Metadata) -> (r: Self)
        ensures
            r.id@ == Self::id_of(repository@, text@),
            r.content_type@ == "text/plain"@,
            r.payload@ == text@,
            r.payload_type == PayloadType::EmbeddedStorage,
            r.metadata == metadata,
    {
        ContentPayload {
            id: fingerprint_pair(repository, text),
            content_type: plain_text_media_type(),
            payload: text.to_owned(),
            payload_type: PayloadType::EmbeddedStorage,
            metadata,
        }
    }

    /// A link to a blob. The identifier is derived from the repository and the
    /// blob's name, the media type is guessed from the name.
    pub fn from_file(repository: &str, name: &str, path: &str) -> (r: Self)
        ensures
            r.id@ == Self::id_of(repository@, name@),
            r.content_type@ == guessed_media_type(name@),
            r.payload@ == path@,
            r.payload_type == PayloadType::BlobStorageLink,
            r.metadata@ == Map::<Seq<char>, JsonValue>::empty(),
    {
        ContentPayload {
            id: fingerprint_pair(repository, name),
            content_type: guess_media_type(name),
            payload: path.to_owned(),
            payload_type: PayloadType::BlobStorageLink,
            metadata: Metadata::new(),
        }
    }
}

impl Clone for ContentPayload {
    fn clone(&self) -> (r: Self)
        ensures
            r@ == self@,
    {
        ContentPayload {
            id: self.id.clone(),
            content_type: self.content_type.clone(),
            payload: self.payload.clone(),
            payload_type: self.payload_type,
            metadata: self.metadata.clone(),
        }
    }
}

/// A piece of the text of a content item.
#[derive(Debug)]
pub struct Chunk {
    pub text: String,
    pub chunk_id: String,
    pub content_id: String,
}

impl Chunk {
    /// The identifier of a chunk: a function of its content item and text.
    pub open spec fn id_of(content_id: Seq<char>, text: Seq<char>) -> Seq<char> {
        fingerprint_of_pair(content_id, text)
    }

    /// A chunk of a content item. The identifier is derived from the content
    /// item and the text.
    pub fn new(text: String, content_id: String) -> (r: Self)
        ensures
            r.chunk_id@ == Self::id_of(content_id@, text@),
            r.text == text,
            r.content_id == content_id,
    {
        let chunk_id = fingerprint_pair(content_id.as_str(), text.as_str());
        Chunk { text, chunk_id, content_id }
    }
}

impl Clone for Chunk {
    fn clone(&self) -> (r: Self)
        ensures
            r == *self,
    {
        Chunk {
            text: self.text.clone(),
            chunk_id: self.chunk_id.clone(),
            content_id: self.content_id.clone(),
        }
    }
}

/// A chunk together with the metadata of its content item.
#[derive(Debug)]
pub struct ChunkWithMetadata {
    pub chunk_id: String,
    pub content_id: String,
    pub text: String,
    pub metadata: Metadata,
}

/// What a chunk with metadata holds.
pub ghost struct ChunkWithMetadataView {
    pub chunk_id: Seq<char>,
    pub content_id: Seq<char>,
    pub text: Seq<char>,
    pub metadata: Map<Seq<char>, JsonValue>,
}

impl View for ChunkWithMetadata {
    type V = ChunkWithMetadataView;

    open spec fn view(&self) -> ChunkWithMetadataView {
        ChunkWithMetadataView {
            chunk_id: self.chunk_id@,
            content_id: self.content_id@,
            text: self.text@,
            metadata: self.metadata@,
        }
    }
}

/// What an extractor found in a content item.
#[derive(Debug)]
pub struct ExtractedAttributes {
    pub id: String,
    pub content_id: String,
    pub attributes: JsonValue,
    pub extractor_name: String,
}

/// What a result holds.
pub ghost struct ExtractedAttributesView {
    pub id: Seq<char>,
    pub content_id: Seq<char>,
    pub attributes: JsonValue,
    pub extractor_name: Seq<char>,
}

impl View for ExtractedAttributes {
    type V = ExtractedAttributesView;

    open spec fn view(&self) -> ExtractedAttributesView {
        ExtractedAttributesView {
            id: self.id@,
            content_id: self.content_id@,
            attributes: self.attributes,
            extractor_name: self.extractor_name@,
        }
    }
}

impl ExtractedAttributes {
    /// The identifier of a result: a function of the content item and of the
    /// extractor.
    pub open spec fn id_of(content_id: Seq<char>, extractor_name: Seq<char>) -> Seq<char> {
        fingerprint_of_pair(content_id, extractor_name)
    }

    /// The result of one extractor on one content item.
    pub fn new(content_id: &str, attributes: JsonValue, extractor_name: &str) -> (r: Self)
        ensures
            r.id@ == Self::id_of(content_id@, extractor_name@),
            r.content_id@ == content_id@,
            r.attributes == attributes,
            r.extractor_name@ == extractor_name@,
    {
        ExtractedAttributes {
            id: fingerprint_pair(content_id, extractor_name),
            content_id: content_id.to_owned(),
            attributes,
            extractor_name: extractor_name.to_owned(),
        }
    }
}

impl Clone for ExtractedAttributes {
    fn clone(&self) -> (r: Self)
        ensures
            r == *self,
    {
        ExtractedAttributes {
            id: self.id.clone(),
            content_id: self.content_id.clone(),
            attributes: self.attributes.clone(),
            extractor_name: self.extractor_name.clone(),
        }
    }
}

} // verus!
