use crate::assoc::Dictionary;
use crate::content::PayloadType;
use crate::json::{JsonValue, Metadata};
use crate::schema::ExtractorOutputSchema;
use crate::table::{Key, Keyed};
use vstd::prelude::*;

verus! {

/// The marker that a completion map holds for a binding: 0 where it holds
/// none.
pub open spec fn marker_of(markers: Map<Seq<char>, u64>, binding: Seq<char>) -> u64 {
    if markers.dom().contains(binding) {
        markers[binding]
    } else {
        0
    }
}

/// A content item as the store holds it: the payload, the repository it
/// belongs to, and for each binding that has processed it a marker. The
/// identifier of an item is its key in the store: no two items of the store
/// share one, and so no two items of a repository do.
#[derive(Debug)]
pub struct ContentRow {
    pub id: String,
    pub repository_id: String,
    pub payload: String,
    pub payload_type: PayloadType,
    pub content_type: String,
    pub metadata: Metadata,
    pub bindings_state: Dictionary<u64>,
}

/// What a stored content item holds.
pub ghost struct ContentRowView {
    pub id: Seq<char>,
    pub repository_id: Seq<char>,
    pub payload: Seq<char>,
    pub payload_type: PayloadType,
    pub content_type: Seq<char>,
    pub metadata: Map<Seq<char>, JsonValue>,
    pub markers: Map<Seq<char>, u64>,
}

impl View for ContentRow {
    type V = ContentRowView;

    open spec fn view(&self) -> ContentRowView {
        ContentRowView {
            id: self.id@,
            repository_id: self.repository_id@,
            payload: self.payload@,
            payload_type: self.payload_type,
            content_type: self.content_type@,
            metadata: self.metadata@,
            markers: self.bindings_state@,
        }
    }
}

impl ContentRowView {
    /// The binding has processed the item: its marker has reached 1.
    pub open spec fn is_processed_by(self, binding: Seq<char>) -> bool {
        marker_of(self.markers, binding) >= 1
    }
}

impl Key for ContentRow {
    open spec fn key(&self) -> Seq<char> {
        self.id@
    }
}

impl Keyed for ContentRow {
    fn key_text(&self) -> (r: &str) {
        self.id.as_str()
    }
}

impl Key for ContentRowView {
    open spec fn key(&self) -> Seq<char> {
        self.id
    }
}

/// An index as the registry holds it.
#[derive(Debug)]
pub struct IndexRow {
    pub name: String,
    pub repository_id: String,
    pub extractor_name: String,
    pub vector_index_name: String,
    pub index_type: String,
    pub index_schema: ExtractorOutputSchema,
}

/// What a stored index holds.
pub ghost struct IndexRowView {
    pub name: Seq<char>,
    pub repository_id: Seq<char>,
    pub extractor_name: Seq<char>,
    pub vector_index_name: Seq<char>,
    pub index_type: Seq<char>,
    pub index_schema: ExtractorOutputSchema,
}

impl View for IndexRow {
    type V = IndexRowView;

    open spec fn view(&self) -> IndexRowView {
        IndexRowView {
            name: self.name@,
            repository_id: self.repository_id@,
            extractor_name: self.extractor_name@,
            vector_index_name: self.vector_index_name@,
            index_type: self.index_type@,
            index_schema: self.index_schema,
        }
    }
}

impl Key for IndexRow {
    open spec fn key(&self) -> Seq<char> {
        self.name@
    }
}

impl Keyed for IndexRow {
    fn key_text(&self) -> (r: &str) {
        self.name.as_str()
    }
}

impl Key for IndexRowView {
    open spec fn key(&self) -> Seq<char> {
        self.name
    }
}

impl Clone for IndexRow {
    fn clone(&self) -> (r: Self)
        ensures
            r == *self,
    {
        IndexRow {
            name: self.name.clone(),
            repository_id: self.repository_id.clone(),
            extractor_name: self.extractor_name.clone(),
            vector_index_name: self.vector_index_name.clone(),
            index_type: self.index_type.clone(),
            index_schema: self.index_schema.clone(),
        }
    }
}

/// The result of an extractor on a content item as the store holds it.
#[derive(Debug)]
pub struct AttributesRow {
    pub id: String,
    pub repository_id: String,
    pub index_name: String,
    pub extractor_id: String,
    pub data: JsonValue,
    pub content_id: String,
    pub created_at: u64,
}

/// What a stored result holds.
pub ghost struct AttributesRowView {
    pub id: Seq<char>,
    pub repository_id: Seq<char>,
    pub index_name: Seq<char>,
    pub extractor_id: Seq<char>,
    pub data: JsonValue,
    pub content_id: Seq<char>,
    pub created_at: u64,
}

impl View for AttributesRow {
    type V = AttributesRowView;

    open spec fn view(&self) -> AttributesRowView {
        AttributesRowView {
            id: self.id@,
            repository_id: self.repository_id@,
            index_name: self.index_name@,
            extractor_id: self.extractor_id@,
            data: self.data,
            content_id: self.content_id@,
            created_at: self.created_at,
        }
    }
}

impl Key for AttributesRow {
    open spec fn key(&self) -> Seq<char> {
        self.id@
    }
}

impl Keyed for AttributesRow {
    fn key_text(&self) -> (r: &str) {
        self.id.as_str()
    }
}

impl Key for AttributesRowView {
    open spec fn key(&self) -> Seq<char> {
        self.id
    }
}

/// A chunk as the store holds it, under the index it was made for.
#[derive(Debug)]
pub struct ChunkRow {
    pub chunk_id: String,
    pub content_id: String,
    pub text: String,
    pub index_name: String,
}

/// What a stored chunk holds.
pub ghost struct ChunkRowView {
    pub chunk_id: Seq<char>,
    pub content_id: Seq<char>,
    pub text: Seq<char>,
    pub index_name: Seq<char>,
}

impl View for ChunkRow {
    type V = ChunkRowView;

    open spec fn view(&self) -> ChunkRowView {
        ChunkRowView {
            chunk_id: self.chunk_id@,
            content_id: self.content_id@,
            text: self.text@,
            index_name: self.index_name@,
        }
    }
}

impl Key for ChunkRow {
    open spec fn key(&self) -> Seq<char> {
        self.chunk_id@
    }
}

impl Keyed for ChunkRow {
    fn key_text(&self) -> (r: &str) {
        self.chunk_id.as_str()
    }
}

impl Key for ChunkRowView {
    open spec fn key(&self) -> Seq<char> {
        self.chunk_id
    }
}

} // verus!
