use crate::json::JsonValue;
use crate::table::{Key, Keyed};
use vstd::prelude::*;

verus! {

/// How an index measures the distance between two vectors.
#[derive(Clone, Copy, Debug, PartialEq, Eq, Structural)]
pub enum IndexDistance {
    Cosine,
    Dot,
    Euclidean,
}

/// The shape of an index of embeddings.
#[derive(Clone, Copy, Debug, PartialEq, Eq, Structural)]
pub struct EmbeddingSchema {
    pub dim: usize,
    pub distance: IndexDistance,
}

/// The shape of an index of attributes: a free-form JSON schema.
#[derive(Debug)]
pub struct MetadataSchema {
    pub schema: JsonValue,
}

/// What an extractor puts out under one name.
#[derive(Debug)]
pub enum ExtractorOutputSchema {
    Embedding(EmbeddingSchema),
    Attributes(MetadataSchema),
}

impl ExtractorOutputSchema {
    /// The schema of an output of embeddings.
    pub fn embedding(dim: usize, distance: IndexDistance) -> (r: Self)
        ensures
            r == ExtractorOutputSchema::Embedding(EmbeddingSchema { dim, distance }),
    {
        ExtractorOutputSchema::Embedding(EmbeddingSchema { dim, distance })
    }

    /// The index type under which an index of this schema is stored.
    pub open spec fn index_type_name(self) -> Seq<char> {
        match self {
            ExtractorOutputSchema::Embedding(_) => "embedding"@,
            ExtractorOutputSchema::Attributes(_) => "json"@,
        }
    }

    /// The index type under which an index of this schema is stored.
    pub fn index_type(&self) -> (r: &'static str)
        ensures
            r@ == self.index_type_name(),
    {
        match self {
            ExtractorOutputSchema::Embedding(_) => "embedding",
            ExtractorOutputSchema::Attributes(_) => "json",
        }
    }
}

impl Clone for ExtractorOutputSchema {
    fn clone(&self) -> (r: Self)
        ensures
            r == *self,
    {
        match self {
            ExtractorOutputSchema::Embedding(e) => ExtractorOutputSchema::Embedding(*e),
            ExtractorOutputSchema::Attributes(m) => ExtractorOutputSchema::Attributes(
                MetadataSchema { schema: m.schema.clone() },
            ),
        }
    }
}

/// The outputs of an extractor, each under its name.
#[derive(Debug)]
pub struct ExtractorSchema {
    pub outputs: Vec<(String, ExtractorOutputSchema)>,
}

impl ExtractorSchema {
    /// The schema of an extractor with the one output.
    pub fn from_output_schema(name: &str, schema: ExtractorOutputSchema) -> (r: Self)
        ensures
            r.outputs@.len() == 1,
            r.outputs@[0].0@ == name@,
            r.outputs@[0].1 == schema,
    {
        let mut outputs: Vec<(String, ExtractorOutputSchema)> = Vec::new();
        outputs.push((name.to_owned(), schema));
        ExtractorSchema { outputs }
    }
}

/// An extractor as the registry knows it.
#[derive(Debug)]
pub struct Extractor {
    pub name: String,
    pub description: String,
    pub input_params: JsonValue,
    pub schemas: ExtractorSchema,
}

impl Key for Extractor {
    open spec fn key(&self) -> Seq<char> {
        self.name@
    }
}

impl Keyed for Extractor {
    fn key_text(&self) -> (r: &str) {
        self.name.as_str()
    }
}

/// A named output of an extractor in a repository.
#[derive(Debug)]
pub struct Index {
    pub name: String,
    pub schema: ExtractorOutputSchema,
}

/// What an index holds.
pub ghost struct IndexView {
    pub name: Seq<char>,
    pub schema: ExtractorOutputSchema,
}

impl View for Index {
    type V = IndexView;

    open spec fn view(&self) -> IndexView {
        IndexView { name: self.name@, schema: self.schema }
    }
}

} // verus!
