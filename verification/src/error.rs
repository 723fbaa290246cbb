use crate::work::WorkState;
use vstd::prelude::*;
use vstd::string::StringExecFns;

verus! {

/// Why an operation on the repository failed.
#[derive(Debug)]
pub enum RepositoryError {
    /// The store refused a write: the key is taken.
    DatabaseError(String),
    /// No repository, or nothing filed under a repository, goes by the name.
    RepositoryNotFound(String),
    ContentNotFound(String),
    IndexNotFound(String),
    ChunkNotFound(String),
    ExtractorNotFound(String),
    /// The repository holds no binding of the name.
    BindingNotFound { repository: String, binding: String },
    WorkNotFound(String),
    ExtractionEventNotFound(String),
    /// An index is stored under a type that is not known.
    UnknownIndexType { index: String, index_type: String },
    /// The stored schema of an index does not fit its type.
    InvalidIndexSchema(String),
    /// A filter of a binding compares with a value that is no string.
    InvalidFilter { binding: String, field: String },
    /// Two bindings of a repository go by one name.
    DuplicateBinding { repository: String, binding: String },
    /// The transition table has no arrow between the two states.
    IllegalTransition { work_id: String, from: WorkState, to: WorkState },
}

/// A key between the two halves of a sentence.
pub open spec fn framed(before: Seq<char>, key: Seq<char>, after: Seq<char>) -> Seq<char> {
    before + key + after
}

/// Puts a key between the two halves of a sentence.
fn frame(before: &str, key: &str, after: &str) -> (r: String)
    ensures
        r@ == framed(before@, key@, after@),
{
    before.to_owned().concat(key).concat(after)
}

impl RepositoryError {
    /// What the error says.
    pub open spec fn message_text(self) -> Seq<char> {
        match self {
            RepositoryError::DatabaseError(key) => framed("store error: key `"@, key@, "` is taken"@),
            RepositoryError::RepositoryNotFound(key) => framed(
                "repository `"@,
                key@,
                "` not found"@,
            ),
            RepositoryError::ContentNotFound(key) => framed("content`"@, key@, "` not found"@),
            RepositoryError::IndexNotFound(key) => framed("index: "@, key@, " not found"@),
            RepositoryError::ChunkNotFound(key) => framed("chunk id: "@, key@, " not found"@),
            RepositoryError::ExtractorNotFound(key) => framed("extractor: "@, key@, " not found"@),
            RepositoryError::WorkNotFound(key) => framed("unable to find work "@, key@, ""@),
            RepositoryError::ExtractionEventNotFound(key) => framed(
                "extraction event: "@,
                key@,
                " not found"@,
            ),
            RepositoryError::BindingNotFound { repository, binding } => framed(
                framed("repository `"@, repository@, "`: binding `"@),
                binding@,
                "` not found"@,
            ),
            RepositoryError::UnknownIndexType { index, index_type } => framed(
                framed("index `"@, index@, "`: unknown index type: "@),
                index_type@,
                ""@,
            ),
            RepositoryError::InvalidIndexSchema(key) => framed(
                "unable to read index_schema of index: "@,
                key@,
                ""@,
            ),
            RepositoryError::InvalidFilter { binding, field } => framed(
                framed("binding `"@, binding@, "`: filter on `"@),
                field@,
                "` does not compare with a string"@,
            ),
            RepositoryError::DuplicateBinding { repository, binding } => framed(
                framed("repository `"@, repository@, "`: more than one binding `"@),
                binding@,
                "`"@,
            ),
            RepositoryError::IllegalTransition { work_id, from, to } => framed(
                framed(framed("work "@, work_id@, " cannot move from "@), from.stored_name(), " to "@),
                to.stored_name(),
                ""@,
            ),
        }
    }

    /// What the error says.
    pub fn to_string(&self) -> (r: String)
        ensures
            r@ == self.message_text(),
    {
        match self {
            RepositoryError::DatabaseError(key) => frame(
                "store error: key `",
                key.as_str(),
                "` is taken",
            ),
            RepositoryError::RepositoryNotFound(key) => frame(
                "repository `",
                key.as_str(),
                "` not found",
            ),
            RepositoryError::ContentNotFound(key) => frame("content`", key.as_str(), "` not found"),
            RepositoryError::IndexNotFound(key) => frame("index: ", key.as_str(), " not found"),
            RepositoryError::ChunkNotFound(key) => frame("chunk id: ", key.as_str(), " not found"),
            RepositoryError::ExtractorNotFound(key) => frame(
                "extractor: ",
                key.as_str(),
                " not found",
            ),
            RepositoryError::WorkNotFound(key) => frame("unable to find work ", key.as_str(), ""),
            RepositoryError::ExtractionEventNotFound(key) => frame(
                "extraction event: ",
                key.as_str(),
                " not found",
            ),
            RepositoryError::BindingNotFound { repository, binding } => {
                let head = frame("repository `", repository.as_str(), "`: binding `");
                frame(head.as_str(), binding.as_str(), "` not found")
            },
            RepositoryError::UnknownIndexType { index, index_type } => {
                let head = frame("index `", index.as_str(), "`: unknown index type: ");
                frame(head.as_str(), index_type.as_str(), "")
            },
            RepositoryError::InvalidIndexSchema(key) => frame(
                "unable to read index_schema of index: ",
                key.as_str(),
                "",
            ),
            RepositoryError::InvalidFilter { binding, field } => {
                let head = frame("binding `", binding.as_str(), "`: filter on `");
                frame(head.as_str(), field.as_str(), "` does not compare with a string")
            },
            RepositoryError::DuplicateBinding { repository, binding } => {
                let head = frame("repository `", repository.as_str(), "`: more than one binding `");
                frame(head.as_str(), binding.as_str(), "`")
            },
            RepositoryError::IllegalTransition { work_id, from, to } => {
                let head = frame("work ", work_id.as_str(), " cannot move from ");
                let from_name = from.to_string();
                let middle = frame(head.as_str(), from_name.as_str(), " to ");
                let to_name = to.to_string();
                frame(middle.as_str(), to_name.as_str(), "")
            },
        }
    }

    /// The error that reports that the store refused a write under the key.
    pub open spec fn is_database_error(self, key: Seq<char>) -> bool {
        &&& self matches RepositoryError::DatabaseError(k)
        &&& k@ == key
    }

    /// The error that reports that the repository was given two bindings of
    /// the name.
    pub open spec fn is_duplicate_binding(self, repository: Seq<char>, binding: Seq<char>) -> bool {
        &&& self matches RepositoryError::DuplicateBinding { repository: r, binding: b }
        &&& r@ == repository
        &&& b@ == binding
    }

    /// The error that reports a filter of the binding, on the field, that
    /// compares with a value that is no string.
    pub open spec fn is_invalid_filter(self, binding: Seq<char>, field: Seq<char>) -> bool {
        &&& self matches RepositoryError::InvalidFilter { binding: b, field: f }
        &&& b@ == binding
        &&& f@ == field
    }
}

} // verus!
