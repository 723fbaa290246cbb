use crate::error::RepositoryError;
use crate::json::{JsonValue, Metadata};
use crate::outside::same_text;
use crate::table::{Key, Keyed};
use vstd::prelude::*;

verus! {

/// A predicate on the metadata of a content item.
#[derive(Debug)]
pub enum ExtractorFilter {
    Eq { field: String, value: JsonValue },
    Neq { field: String, value: JsonValue },
}

impl ExtractorFilter {
    /// The metadata field that the filter reads.
    pub open spec fn field_name(self) -> Seq<char> {
        match self {
            ExtractorFilter::Eq { field, value } => field@,
            ExtractorFilter::Neq { field, value } => field@,
        }
    }

    /// The string that the filter compares with, if its value is one.
    pub open spec fn expected(self) -> Option<Seq<char>> {
        match self {
            ExtractorFilter::Eq { field, value } => value.string_content(),
            ExtractorFilter::Neq { field, value } => value.string_content(),
        }
    }

    /// The filter compares with a string.
    pub open spec fn is_well_formed(self) -> bool {
        self.expected() is Some
    }

    /// The text that the metadata gives for the filter's field, if any.
    pub open spec fn field_text(self, metadata: Map<Seq<char>, JsonValue>) -> Option<Seq<char>> {
        if metadata.dom().contains(self.field_name()) {
            metadata[self.field_name()].extracted_text()
        } else {
            None
        }
    }

    /// Whether the metadata passes the filter. A field that is missing or
    /// `null` passes no filter, and neither does anything pass a filter that
    /// is not well formed.
    pub open spec fn holds_for(self, metadata: Map<Seq<char>, JsonValue>) -> bool {
        match (self.expected(), self.field_text(metadata)) {
            (Some(expected), Some(found)) => match self {
                ExtractorFilter::Eq { field, value } => found == expected,
                ExtractorFilter::Neq { field, value } => found != expected,
            },
            _ => false,
        }
    }

    /// Decides whether the metadata passes the filter.
    pub fn accepts(&self, metadata: &Metadata) -> (r: bool)
        ensures
            r == self.holds_for(metadata@),
    {
        match self {
            ExtractorFilter::Eq { field, value } => {
                match (value.as_str(), metadata.get(field.as_str())) {
                    (Some(expected), Some(v)) => match v.as_extracted_text() {
                        Some(found) => same_text(found, expected),
                        None => false,
                    },
                    _ => false,
                }
            },
            ExtractorFilter::Neq { field, value } => {
                match (value.as_str(), metadata.get(field.as_str())) {
                    (Some(expected), Some(v)) => match v.as_extracted_text() {
                        Some(found) => !same_text(found, expected),
                        None => false,
                    },
                    _ => false,
                }
            },
        }
    }

    /// The metadata field that the filter reads.
    pub fn field(&self) -> (r: &str)
        ensures
            r@ == self.field_name(),
    {
        match self {
            ExtractorFilter::Eq { field, value } => field.as_str(),
            ExtractorFilter::Neq { field, value } => field.as_str(),
        }
    }

    /// Decides whether the filter compares with a string.
    pub fn check(&self) -> (r: bool)
        ensures
            r == self.is_well_formed(),
    {
        match self {
            ExtractorFilter::Eq { field, value } => value.as_str().is_some(),
            ExtractorFilter::Neq { field, value } => value.as_str().is_some(),
        }
    }
}

/// Whether the metadata passes every filter of the list.
pub open spec fn all_hold(filters: Seq<ExtractorFilter>, metadata: Map<Seq<char>, JsonValue>) -> bool {
    forall|i: int| 0 <= i < filters.len() ==> (#[trigger] filters[i]).holds_for(metadata)
}

/// Whether every filter of the list compares with a string.
pub open spec fn all_well_formed(filters: Seq<ExtractorFilter>) -> bool {
    forall|i: int| 0 <= i < filters.len() ==> (#[trigger] filters[i]).is_well_formed()
}

/// A named rule: which extractor runs, with which parameters, on which
/// content of a repository.
#[derive(Debug)]
pub struct ExtractorBinding {
    pub name: String,
    pub repository: String,
    pub extractor: String,
    pub filters: Vec<ExtractorFilter>,
    pub input_params: JsonValue,
}

impl ExtractorBinding {
    /// A binding of the given parts.
    pub fn new(
        name: &str,
        repository: &str,
        extractor: String,
        filters: Vec<ExtractorFilter>,
        input_params: JsonValue,
    ) -> (r: ExtractorBinding)
        ensures
            r.name@ == name@,
            r.repository@ == repository@,
            r.extractor == extractor,
            r.filters == filters,
            r.input_params == input_params,
    {
        ExtractorBinding {
            name: name.to_owned(),
            repository: repository.to_owned(),
            extractor,
            filters,
            input_params,
        }
    }

    /// Whether the binding selects content with the metadata: whether the
    /// metadata passes all its filters. A binding without filters selects all.
    pub open spec fn selects(self, metadata: Map<Seq<char>, JsonValue>) -> bool {
        all_hold(self.filters@, metadata)
    }

    /// Decides whether the binding selects content with the metadata.
    pub fn accepts(&self, metadata: &Metadata) -> (r: bool)
        ensures
            r == self.selects(metadata@),
    {
        let mut i: usize = 0;
        while i < self.filters.len()
            invariant
                i <= self.filters@.len(),
                forall|j: int| 0 <= j < i ==> (#[trigger] self.filters@[j]).holds_for(metadata@),
            decreases self.filters@.len() - i,
        {
            if !self.filters[i].accepts(metadata) {
                return false;
            }
            i += 1;
        }
        true
    }

    /// The filter at `i` is the first that is not well formed.
    pub open spec fn first_malformed(self, i: int) -> bool {
        &&& 0 <= i < self.filters@.len()
        &&& !self.filters@[i].is_well_formed()
        &&& all_well_formed(self.filters@.take(i))
    }

    /// The error names the binding and the field of its first filter that is
    /// not well formed.
    pub open spec fn rejected_with(self, e: RepositoryError) -> bool {
        exists|i: int|
            #[trigger] self.first_malformed(i) && e.is_invalid_filter(
                self.name@,
                self.filters@[i].field_name(),
            )
    }

    /// Checks the binding before it is registered: every filter must compare
    /// with a string. The error names the binding and the field of the first
    /// filter that does not.
    pub fn validate(&self) -> (r: Result<(), RepositoryError>)
        ensures
            r is Ok <==> all_well_formed(self.filters@),
            r is Err ==> self.rejected_with(r->Err_0),
    {
        let mut i: usize = 0;
        while i < self.filters.len()
            invariant
                i <= self.filters@.len(),
                all_well_formed(self.filters@.take(i as int)),
            decreases self.filters@.len() - i,
        {
            if !self.filters[i].check() {
                let e = RepositoryError::InvalidFilter {
                    binding: self.name.clone(),
                    field: self.filters[i].field().to_owned(),
                };
                assert(self.first_malformed(i as int));
                assert(e.is_invalid_filter(self.name@, self.filters@[i as int].field_name()));
                return Err(e);
            }
            assert forall|j: int| 0 <= j < i + 1 implies (#[trigger] self.filters@.take(
                i + 1,
            )[j]).is_well_formed() by {
                if j < i {
                    assert(self.filters@.take(i as int)[j].is_well_formed());
                }
            }
            i += 1;
        }
        assert(self.filters@.take(i as int) =~= self.filters@);
        Ok(())
    }
}

impl Key for ExtractorBinding {
    open spec fn key(&self) -> Seq<char> {
        self.name@
    }
}

impl Keyed for ExtractorBinding {
    fn key_text(&self) -> (r: &str) {
        self.name.as_str()
    }
}

/// Where a data connector gets its data.
#[derive(Debug)]
pub enum SourceType {
    GoogleContact { metadata: Option<String> },
    Gmail { metadata: Option<String> },
}

/// A source of data attached to a repository.
#[derive(Debug)]
pub struct DataConnector {
    pub source: SourceType,
}

/// A repository: a named body of content with the bindings that run on it.
#[derive(Debug)]
pub struct DataRepository {
    pub name: String,
    pub data_connectors: Vec<DataConnector>,
    pub extractor_bindings: Vec<ExtractorBinding>,
    pub metadata: Metadata,
}

impl Key for DataRepository {
    open spec fn key(&self) -> Seq<char> {
        self.name@
    }
}

impl Keyed for DataRepository {
    fn key_text(&self) -> (r: &str) {
        self.name.as_str()
    }
}

} // verus!
