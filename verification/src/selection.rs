use crate::binding::ExtractorBinding;
use crate::content::{media_type_or_generic, read_media_type, ContentPayload, ContentPayloadView};
use crate::error::RepositoryError;
use crate::outside::{parsed_media_type, same_text};
use crate::rows::{marker_of, ContentRow, ContentRowView};
use crate::store::{lemma_announced_same_ids, Repository, RepositoryState};
use crate::table::{
    find_row, lemma_filter_next, lemma_key_once, lemma_views_keys, views_of, views_of_borrowed, Key,
};
use vstd::prelude::*;

verus! {

/// The text of a string slice that may be missing.
pub open spec fn optional_text(text: Option<&str>) -> Option<Seq<char>> {
    match text {
        Some(t) => Some(t@),
        None => None,
    }
}

/// Whether a content item still needs processing by a binding: it belongs to
/// the repository, the binding has not processed it, it is the item asked
/// for where one is asked for, and its metadata passes the binding's filters.
pub open spec fn needs_processing(
    row: ContentRowView,
    repository: Seq<char>,
    binding: ExtractorBinding,
    content_id: Option<Seq<char>>,
) -> bool {
    &&& row.repository_id == repository
    &&& !row.is_processed_by(binding.name@)
    &&& (content_id is Some ==> row.id == content_id->Some_0)
    &&& binding.selects(row.metadata)
}

/// The item with the marker of the binding set.
pub open spec fn marked(row: ContentRowView, binding: Seq<char>) -> ContentRowView {
    ContentRowView { markers: row.markers.insert(binding, 1), ..row }
}

/// The payload that is read back from a stored item. Its media type is the
/// stored one as far as it can be read, else the generic type.
pub open spec fn payload_read_from(row: ContentRowView) -> ContentPayloadView {
    ContentPayloadView {
        id: row.id,
        content_type: media_type_or_generic(parsed_media_type(row.content_type)),
        payload: row.payload,
        payload_type: row.payload_type,
        metadata: row.metadata,
    }
}

impl RepositoryState {
    /// The content of the repository that still needs processing by the
    /// binding, in the order in which it was filed.
    pub open spec fn content_with_unapplied_extractor(
        self,
        repository: Seq<char>,
        binding: ExtractorBinding,
        content_id: Option<Seq<char>>,
    ) -> Seq<ContentRowView> {
        self.contents.filter(
            |row: ContentRowView| needs_processing(row, repository, binding, content_id),
        )
    }

    /// The store after the binding has processed the content item: the one
    /// marker is set and nothing else has changed.
    pub open spec fn with_processed(self, content_id: Seq<char>, binding: Seq<char>) -> RepositoryState {
        RepositoryState {
            contents: self.contents.map_values(
                |row: ContentRowView|
                    if row.id == content_id {
                        marked(row, binding)
                    } else {
                        row
                    },
            ),
            ..self
        }
    }

    /// The item with the identifier, if the store holds it in the repository.
    pub open spec fn content_from_repo(self, content_id: Seq<char>, repository: Seq<char>) -> Option<
        ContentRowView,
    > {
        if exists|i: int|
            0 <= i < self.contents.len() && (#[trigger] self.contents[i]).id == content_id
                && self.contents[i].repository_id == repository {
            Some(
                self.contents[choose|i: int|
                    0 <= i < self.contents.len() && (#[trigger] self.contents[i]).id == content_id
                        && self.contents[i].repository_id == repository],
            )
        } else {
            None
        }
    }
}

impl Repository {
    /// The content item with the identifier, read back from the repository.
    pub fn content_from_repo(&self, content_id: &str, repo_id: &str) -> (r: Result<
        ContentPayload,
        RepositoryError,
    >)
        requires
            self.wf(),
        ensures
            match r {
                Ok(p) => self@.content_from_repo(content_id@, repo_id@) is Some && p@
                    == payload_read_from(self@.content_from_repo(content_id@, repo_id@)->Some_0),
                Err(RepositoryError::ContentNotFound(key)) => self@.content_from_repo(
                    content_id@,
                    repo_id@,
                ) is None && key@ == content_id@,
                Err(_) => false,
            },
    {
        let ghost rows = self@.contents;
        proof {
            lemma_views_keys(self.contents@);
        }
        match find_row(&self.contents, content_id) {
            Some(i) => {
                let row = &self.contents[i];
                assert(rows[i as int] == row@);
                assert forall|j: int| 0 <= j < rows.len() && (#[trigger] rows[j]).id
                    == content_id@ implies j == i by {
                    lemma_key_once(rows, i as int, j);
                }
                if same_text(row.repository_id.as_str(), repo_id) {
                    Ok(
                        ContentPayload {
                            id: row.id.clone(),
                            content_type: read_media_type(row.content_type.as_str()),
                            payload: row.payload.clone(),
                            payload_type: row.payload_type,
                            metadata: row.metadata.clone(),
                        },
                    )
                } else {
                    Err(RepositoryError::ContentNotFound(content_id.to_owned()))
                }
            },
            None => {
                assert forall|j: int| 0 <= j < rows.len() implies (#[trigger] rows[j]).id
                    != content_id@ by {
                    assert(self.contents@[j].key() != content_id@);
                }
                Err(RepositoryError::ContentNotFound(content_id.to_owned()))
            },
        }
    }

    /// The content of the repository that still needs processing by the
    /// binding, or only the item with the identifier given if it does. A
    /// binding without filters selects all content of the repository; a
    /// metadata field that is missing passes no filter. Selection never fails.
    pub fn content_with_unapplied_extractor(
        &self,
        repo_id: &str,
        extractor_binding: &ExtractorBinding,
        content_id: Option<&str>,
    ) -> (r: Result<Vec<&ContentRow>, RepositoryError>)
        ensures
            r is Ok,
            views_of_borrowed(r->Ok_0@) == self@.content_with_unapplied_extractor(
                repo_id@,
                *extractor_binding,
                optional_text(content_id),
            ),
    {
        let ghost rows = self@.contents;
        let ghost p = |row: ContentRowView|
            needs_processing(row, repo_id@, *extractor_binding, optional_text(content_id));
        let mut found: Vec<&ContentRow> = Vec::new();
        let mut i: usize = 0;
        proof {
            reveal(Seq::filter);
            assert(rows.take(0).filter(p) =~= Seq::empty());
            assert(views_of_borrowed(found@) =~= Seq::empty());
        }
        while i < self.contents.len()
            invariant
                i <= self.contents@.len(),
                rows == views_of(self.contents@),
                p == |row: ContentRowView|
                    needs_processing(row, repo_id@, *extractor_binding, optional_text(content_id)),
                views_of_borrowed(found@) == rows.take(i as int).filter(p),
            decreases self.contents@.len() - i,
        {
            proof {
                lemma_filter_next(rows, p, i as int);
            }
            let row = &self.contents[i];
            assert(rows[i as int] == row@);
            let marker = match row.bindings_state.get(extractor_binding.name.as_str()) {
                Some(m) => *m,
                None => 0,
            };
            assert(marker == marker_of(row@.markers, extractor_binding.name@));
            let wanted = match content_id {
                Some(c) => same_text(row.id.as_str(), c),
                None => true,
            };
            if same_text(row.repository_id.as_str(), repo_id) && marker < 1 && wanted
                && extractor_binding.accepts(&row.metadata) {
                let ghost held = found@;
                found.push(row);
                assert(views_of_borrowed(found@) =~= views_of_borrowed(held).push(row@));
            }
            i += 1;
        }
        assert(rows.take(i as int) =~= rows);
        Ok(found)
    }

    /// Records that the binding has processed the content item. The marker of
    /// this binding on this item is set; every other marker, on this item and
    /// on any other, stays as it is. Where the store does not hold the item,
    /// nothing changes.
    pub fn mark_content_as_processed(&mut self, content_id: &str, binding_id: &str) -> (r: Result<
        (),
        RepositoryError,
    >)
        requires
            old(self).wf(),
        ensures
            final(self).wf(),
            r is Ok,
            final(self)@ == old(self)@.with_processed(content_id@, binding_id@),
    {
        let ghost before = self@;
        let ghost held = self.contents@;
        proof {
            lemma_views_keys(held);
        }
        match find_row(&self.contents, content_id) {
            Some(i) => {
                let mut row = self.contents.remove(i);
                row.bindings_state.insert(binding_id.to_owned(), 1);
                self.contents.insert(i, row);
                proof {
                    let after = views_of(self.contents@);
                    assert forall|j: int| 0 <= j < held.len() && (#[trigger] held[j]).id@
                        == content_id@ implies j == i by {
                        lemma_key_once(held, i as int, j);
                    }
                    assert(after.len() == before.contents.len());
                    assert forall|j: int| 0 <= j < after.len() implies after[j]
                        == before.with_processed(content_id@, binding_id@).contents[j] by {
                        if j != i {
                            assert(self.contents@[j] == held[j]);
                            assert(held[j].id@ != content_id@);
                        } else {
                            assert(self.contents@[j]@ == marked(held[j]@, binding_id@));
                        }
                    }
                    assert(after =~= before.with_processed(content_id@, binding_id@).contents);
                    assert forall|a: int, b: int| 0 <= a < b < after.len() implies (
                    #[trigger] after[a]).key() != (#[trigger] after[b]).key() by {
                        assert(before.contents[a].key() != before.contents[b].key());
                    }
                    lemma_announced_same_ids(before.contents, after, before.extraction_events);
                }
            },
            None => {
                proof {
                    let after = before.with_processed(content_id@, binding_id@).contents;
                    assert forall|j: int| 0 <= j < held.len() implies (#[trigger] held[j]).key()
                        != content_id@ by {}
                    assert(after =~= before.contents);
                }
            },
        }
        Ok(())
    }
}

} // verus!
