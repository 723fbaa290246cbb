use crate::content::{ExtractedAttributes, ExtractedAttributesView};
use crate::error::RepositoryError;
use crate::outside::same_text;
use crate::rows::{AttributesRow, AttributesRowView, IndexRow, IndexRowView};
use crate::schema::{ExtractorOutputSchema, Index, IndexView};
use crate::store::{Repository, RepositoryState};
use crate::table::{
    find_row, has_key, insert_or_ignore, inserted_or_ignored, lemma_filter_next, lemma_key_once,
    lemma_views_keys, views_of, Key,
};
use vstd::prelude::*;

verus! {

/// Whether the stored index can be read: it is stored under the type that
/// its schema belongs to. An index stored as `json` holds a free-form schema;
/// one that holds the schema of embeddings under that type is counted as
/// unreadable, since its schema is kept typed and not as a document.
pub open spec fn is_readable(row: IndexRowView) -> bool {
    row.index_type == row.index_schema.index_type_name()
}

/// Whether the type is one under which indexes are stored.
pub open spec fn is_index_type(index_type: Seq<char>) -> bool {
    index_type == "embedding"@ || index_type == "json"@
}

/// The error that reading the stored index gives: its type is not known, or
/// its schema does not fit its type.
pub open spec fn is_read_error(row: IndexRowView, e: RepositoryError) -> bool {
    if is_index_type(row.index_type) {
        e matches RepositoryError::InvalidIndexSchema(name) && name@ == row.name
    } else {
        &&& e matches RepositoryError::UnknownIndexType { index, index_type }
        &&& index@ == row.name
        &&& index_type@ == row.index_type
    }
}

/// The index that is read from a stored one.
pub open spec fn index_read_from(row: IndexRowView) -> IndexView {
    IndexView { name: row.name, schema: row.index_schema }
}

/// The row at `i` is the first of the repository that cannot be read.
pub open spec fn first_unreadable(rows: Seq<IndexRowView>, repository: Seq<char>, i: int) -> bool {
    &&& 0 <= i < rows.len()
    &&& rows[i].repository_id == repository
    &&& !is_readable(rows[i])
    &&& forall|j: int|
        0 <= j < i && (#[trigger] rows[j]).repository_id == repository ==> is_readable(rows[j])
}

/// The error is that of the first index of the repository that cannot be
/// read.
pub open spec fn reading_fails_with(
    rows: Seq<IndexRowView>,
    repository: Seq<char>,
    e: RepositoryError,
) -> bool {
    exists|i: int| #[trigger] first_unreadable(rows, repository, i) && is_read_error(rows[i], e)
}

/// The stored result once `given` is written over it: the data and the time
/// are those given, the rest stays.
pub open spec fn rewritten(stored: AttributesRowView, given: AttributesRowView) -> AttributesRowView {
    AttributesRowView { data: given.data, created_at: given.created_at, ..stored }
}

/// The row under which a result is stored for a repository and an index.
pub open spec fn attributes_row_of(
    repository: Seq<char>,
    index_name: Seq<char>,
    given: ExtractedAttributesView,
) -> AttributesRowView {
    AttributesRowView {
        id: given.id,
        repository_id: repository,
        index_name,
        extractor_id: given.extractor_name,
        data: given.attributes,
        content_id: given.content_id,
        created_at: 0,
    }
}

/// The result that is read from a stored one.
pub open spec fn attributes_read_from(row: AttributesRowView) -> ExtractedAttributesView {
    ExtractedAttributesView {
        id: row.id,
        content_id: row.content_id,
        attributes: row.data,
        extractor_name: row.extractor_id,
    }
}

/// Whether a stored result is asked for: it belongs to the repository and the
/// index, and to the content item where one is named.
pub open spec fn is_asked_for(
    row: AttributesRowView,
    repository: Seq<char>,
    index: Seq<char>,
    content_id: Option<Seq<char>>,
) -> bool {
    &&& row.repository_id == repository
    &&& row.index_name == index
    &&& (content_id is Some ==> row.content_id == content_id->Some_0)
}

/// The text of a string that may be missing.
pub open spec fn optional_string(text: Option<&String>) -> Option<Seq<char>> {
    match text {
        Some(t) => Some(t@),
        None => None,
    }
}

impl RepositoryState {
    /// The store after an index was offered to the registry: an index whose
    /// name is new is registered, any other is dropped.
    pub open spec fn with_index(self, row: IndexRowView) -> RepositoryState {
        RepositoryState { indexes: inserted_or_ignored(self.indexes, row), ..self }
    }

    /// The indexes of the repository, as stored.
    pub open spec fn indexes_of(self, repository: Seq<char>) -> Seq<IndexRowView> {
        self.indexes.filter(|row: IndexRowView| row.repository_id == repository)
    }

    /// Whether every index of the repository can be read.
    pub open spec fn indexes_readable(self, repository: Seq<char>) -> bool {
        forall|i: int|
            0 <= i < self.indexes.len() && (#[trigger] self.indexes[i]).repository_id == repository
                ==> is_readable(self.indexes[i])
    }

    /// The index of the name, if the registry holds it for the repository.
    pub open spec fn get_index(self, index: Seq<char>, repository: Seq<char>) -> Option<IndexRowView> {
        if exists|i: int|
            0 <= i < self.indexes.len() && (#[trigger] self.indexes[i]).name == index
                && self.indexes[i].repository_id == repository {
            Some(
                self.indexes[choose|i: int|
                    0 <= i < self.indexes.len() && (#[trigger] self.indexes[i]).name == index
                        && self.indexes[i].repository_id == repository],
            )
        } else {
            None
        }
    }

    /// The store after a result was written: over the data and the time of
    /// the stored result with the same identifier, if there is one.
    pub open spec fn with_attributes(self, row: AttributesRowView) -> RepositoryState {
        RepositoryState {
            attributes: if has_key(self.attributes, row.id) {
                self.attributes.map_values(
                    |stored: AttributesRowView|
                        if stored.id == row.id {
                            rewritten(stored, row)
                        } else {
                            stored
                        },
                )
            } else {
                self.attributes.push(row)
            },
            ..self
        }
    }

    /// The results asked for, in the order in which they were first written.
    pub open spec fn get_extracted_attributes(
        self,
        repository: Seq<char>,
        index: Seq<char>,
        content_id: Option<Seq<char>>,
    ) -> Seq<ExtractedAttributesView> {
        self.attributes.filter(
            |row: AttributesRowView| is_asked_for(row, repository, index, content_id),
        ).map_values(|row: AttributesRowView| attributes_read_from(row))
    }
}

impl Repository {
    /// Registers an index. Index names are unique over all repositories: an
    /// index whose name is registered already is dropped, whatever repository
    /// it is offered for.
    pub fn create_index_metadata(
        &mut self,
        repository: &str,
        extractor_name: &str,
        index_name: &str,
        storage_index_name: &str,
        index_schema: ExtractorOutputSchema,
        index_type: &str,
    ) -> (r: Result<(), RepositoryError>)
        requires
            old(self).wf(),
        ensures
            final(self).wf(),
            r is Ok,
            final(self)@ == old(self)@.with_index(
                IndexRowView {
                    name: index_name@,
                    repository_id: repository@,
                    extractor_name: extractor_name@,
                    vector_index_name: storage_index_name@,
                    index_type: index_type@,
                    index_schema,
                },
            ),
    {
        let row = IndexRow {
            name: index_name.to_owned(),
            repository_id: repository.to_owned(),
            extractor_name: extractor_name.to_owned(),
            vector_index_name: storage_index_name.to_owned(),
            index_type: index_type.to_owned(),
            index_schema,
        };
        let ghost held = self.indexes@;
        proof {
            lemma_views_keys(held);
        }
        insert_or_ignore(&mut self.indexes, row);
        proof {
            assert(views_of(self.indexes@) =~= inserted_or_ignored(views_of(held), row@));
            lemma_views_keys(self.indexes@);
        }
        Ok(())
    }

    /// The indexes of a repository, in the order in which they were
    /// registered. An index that cannot be read fails the whole reading: the
    /// error is that of the first such index.
    pub fn list_indexes(&self, repository: &str) -> (r: Result<Vec<Index>, RepositoryError>)
        ensures
            r is Ok <==> self@.indexes_readable(repository@),
            r is Ok ==> views_of(r->Ok_0@) == self@.indexes_of(repository@).map_values(
                |row: IndexRowView| index_read_from(row),
            ),
            r is Err ==> reading_fails_with(self@.indexes, repository@, r->Err_0),
    {
        let ghost rows = self@.indexes;
        let ghost p = |row: IndexRowView| row.repository_id == repository@;
        let ghost f = |row: IndexRowView| index_read_from(row);
        let mut found: Vec<Index> = Vec::new();
        let mut i: usize = 0;
        proof {
            reveal(Seq::filter);
            assert(rows.take(0).filter(p) =~= Seq::empty());
            assert(views_of(found@) =~= rows.take(0).filter(p).map_values(f));
        }
        while i < self.indexes.len()
            invariant
                i <= self.indexes@.len(),
                rows == views_of(self.indexes@),
                p == |row: IndexRowView| row.repository_id == repository@,
                f == |row: IndexRowView| index_read_from(row),
                views_of(found@) == rows.take(i as int).filter(p).map_values(f),
                forall|j: int|
                    0 <= j < i && (#[trigger] rows[j]).repository_id == repository@ ==> is_readable(
                        rows[j],
                    ),
            decreases self.indexes@.len() - i,
        {
            proof {
                lemma_filter_next(rows, p, i as int);
            }
            let row = &self.indexes[i];
            assert(rows[i as int] == row@);
            if same_text(row.repository_id.as_str(), repository) {
                let known = same_text(row.index_type.as_str(), "embedding") || same_text(
                    row.index_type.as_str(),
                    "json",
                );
                if !known {
                    proof {
                        reveal_strlit("embedding");
                        reveal_strlit("json");
                        assert(!is_readable(row@)) by {
                            assert(row@.index_schema.index_type_name() == "embedding"@
                                || row@.index_schema.index_type_name() == "json"@);
                        }
                        assert(first_unreadable(rows, repository@, i as int));
                    }
                    let e = RepositoryError::UnknownIndexType {
                        index: row.name.clone(),
                        index_type: row.index_type.clone(),
                    };
                    assert(is_read_error(rows[i as int], e));
                    assert(reading_fails_with(rows, repository@, e));
                    return Err(e);
                }
                if !same_text(row.index_type.as_str(), row.index_schema.index_type()) {
                    assert(first_unreadable(rows, repository@, i as int));
                    let e = RepositoryError::InvalidIndexSchema(row.name.clone());
                    assert(is_read_error(rows[i as int], e));
                    assert(reading_fails_with(rows, repository@, e));
                    return Err(e);
                }
                let ghost held = found@;
                found.push(Index { name: row.name.clone(), schema: row.index_schema.clone() });
                assert(views_of(found@) =~= views_of(held).push(index_read_from(row@)));
                assert(rows.take(i + 1).filter(p).map_values(f) =~= rows.take(i as int).filter(
                    p,
                ).map_values(f).push(index_read_from(row@)));
            }
            i += 1;
        }
        assert(rows.take(i as int) =~= rows);
        Ok(found)
    }

    /// The index of the name in the repository, as stored.
    pub fn get_index(&self, index: &str, repository: &str) -> (r: Result<IndexRow, RepositoryError>)
        requires
            self.wf(),
        ensures
            match r {
                Ok(row) => self@.get_index(index@, repository@) == Some(row@),
                Err(RepositoryError::IndexNotFound(key)) => self@.get_index(index@, repository@)
                    is None && key@ == index@,
                Err(_) => false,
            },
    {
        let ghost rows = self@.indexes;
        proof {
            lemma_views_keys(self.indexes@);
        }
        match find_row(&self.indexes, index) {
            Some(i) => {
                let row = &self.indexes[i];
                assert(rows[i as int] == row@);
                assert forall|j: int| 0 <= j < rows.len() && (#[trigger] rows[j]).name
                    == index@ implies j == i by {
                    lemma_key_once(rows, i as int, j);
                }
                if same_text(row.repository_id.as_str(), repository) {
                    Ok(row.clone())
                } else {
                    Err(RepositoryError::IndexNotFound(index.to_owned()))
                }
            },
            None => {
                assert forall|j: int| 0 <= j < rows.len() implies (#[trigger] rows[j]).name
                    != index@ by {
                    assert(self.indexes@[j].key() != index@);
                }
                Err(RepositoryError::IndexNotFound(index.to_owned()))
            },
        }
    }

    /// Writes the result of an extractor on a content item, for a repository
    /// and an index. A result with the same identifier takes the data given
    /// and a fresh time, and keeps the rest.
    pub fn add_attributes(
        &mut self,
        repository: &str,
        index_name: &str,
        extracted_attributes: ExtractedAttributes,
    ) -> (r: Result<(), RepositoryError>)
        requires
            old(self).wf(),
        ensures
            final(self).wf(),
            r is Ok,
            final(self)@ == old(self)@.with_attributes(
                attributes_row_of(repository@, index_name@, extracted_attributes@),
            ),
    {
        let ghost before = self@;
        let ghost held = self.attributes@;
        let ghost given = attributes_row_of(repository@, index_name@, extracted_attributes@);
        proof {
            lemma_views_keys(held);
        }
        match find_row(&self.attributes, extracted_attributes.id.as_str()) {
            Some(i) => {
                let mut row = self.attributes.remove(i);
                row.data = extracted_attributes.attributes;
                row.created_at = 0;
                self.attributes.insert(i, row);
                proof {
                    let after = views_of(self.attributes@);
                    let wanted = before.with_attributes(given).attributes;
                    assert(before.attributes[i as int].key() == given.id);
                    assert forall|j: int| 0 <= j < held.len() && (#[trigger] held[j]).key()
                        == given.id implies j == i by {
                        lemma_key_once(held, i as int, j);
                    }
                    assert(after.len() == wanted.len());
                    assert forall|j: int| 0 <= j < after.len() implies after[j] == wanted[j] by {
                        if j != i {
                            assert(self.attributes@[j] == held[j]);
                            assert(held[j].key() != given.id);
                        }
                    }
                    assert(after =~= wanted);
                    assert forall|a: int, b: int| 0 <= a < b < after.len() implies (
                    #[trigger] after[a]).key() != (#[trigger] after[b]).key() by {
                        assert(before.attributes[a].key() != before.attributes[b].key());
                    }
                }
            },
            None => {
                let row = AttributesRow {
                    id: extracted_attributes.id,
                    repository_id: repository.to_owned(),
                    index_name: index_name.to_owned(),
                    extractor_id: extracted_attributes.extractor_name,
                    data: extracted_attributes.attributes,
                    content_id: extracted_attributes.content_id,
                    created_at: 0,
                };
                self.attributes.push(row);
                proof {
                    let after = views_of(self.attributes@);
                    assert(after =~= before.attributes.push(given));
                    assert forall|a: int, b: int| 0 <= a < b < after.len() implies (
                    #[trigger] after[a]).key() != (#[trigger] after[b]).key() by {
                        if b < held.len() {
                            assert(before.attributes[a].key() != before.attributes[b].key());
                        } else {
                            assert(before.attributes[a].key() == held[a].key());
                        }
                    }
                }
            },
        }
        Ok(())
    }

    /// The results stored for a repository and an index, or only those of the
    /// content item named.
    pub fn get_extracted_attributes(
        &self,
        repository: &str,
        index: &str,
        content_id: Option<&String>,
    ) -> (r: Result<Vec<ExtractedAttributes>, RepositoryError>)
        ensures
            r is Ok,
            views_of(r->Ok_0@) == self@.get_extracted_attributes(
                repository@,
                index@,
                optional_string(content_id),
            ),
    {
        let ghost rows = self@.attributes;
        let ghost p = |row: AttributesRowView|
            is_asked_for(row, repository@, index@, optional_string(content_id));
        let ghost f = |row: AttributesRowView| attributes_read_from(row);
        let mut found: Vec<ExtractedAttributes> = Vec::new();
        let mut i: usize = 0;
        proof {
            reveal(Seq::filter);
            assert(rows.take(0).filter(p) =~= Seq::empty());
            assert(views_of(found@) =~= rows.take(0).filter(p).map_values(f));
        }
        while i < self.attributes.len()
            invariant
                i <= self.attributes@.len(),
                rows == views_of(self.attributes@),
                p == |row: AttributesRowView|
                    is_asked_for(row, repository@, index@, optional_string(content_id)),
                f == |row: AttributesRowView| attributes_read_from(row),
                views_of(found@) == rows.take(i as int).filter(p).map_values(f),
            decreases self.attributes@.len() - i,
        {
            proof {
                lemma_filter_next(rows, p, i as int);
            }
            let row = &self.attributes[i];
            assert(rows[i as int] == row@);
            let wanted = match content_id {
                Some(c) => same_text(row.content_id.as_str(), c.as_str()),
                None => true,
            };
            if same_text(row.repository_id.as_str(), repository) && same_text(
                row.index_name.as_str(),
                index,
            ) && wanted {
                let ghost held = found@;
                found.push(
                    ExtractedAttributes {
                        id: row.id.clone(),
                        content_id: row.content_id.clone(),
                        attributes: row.data.clone(),
                        extractor_name: row.extractor_id.clone(),
                    },
                );
                assert(views_of(found@) =~= views_of(held).push(attributes_read_from(row@)));
                assert(rows.take(i + 1).filter(p).map_values(f) =~= rows.take(i as int).filter(
                    p,
                ).map_values(f).push(attributes_read_from(row@)));
            }
            i += 1;
        }
        assert(rows.take(i as int) =~= rows);
        Ok(found)
    }
}

} // verus!
