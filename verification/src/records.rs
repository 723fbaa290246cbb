use crate::content::{Chunk, ChunkWithMetadata, ChunkWithMetadataView};
use crate::error::RepositoryError;
use crate::events::{Event, EventRow, EventRowView, EventView};
use crate::outside::same_text;
use crate::rows::{ChunkRow, ChunkRowView};
use crate::schema::Extractor;
use crate::store::{Repository, RepositoryState};
use crate::table::{
    distinct_keys, find_row, has_key, insert_or_ignore, inserted_or_ignored, lemma_filter_next,
    lemma_key_once, lemma_row_with_key, lemma_views_keys, row_with_key, views_of, Key,
};
use vstd::prelude::*;

verus! {

/// The stored extractor once `given` is written over it: the description and
/// the parameters are those given, the schemas stay.
pub open spec fn redescribed(stored: Extractor, given: Extractor) -> Extractor {
    Extractor { description: given.description, input_params: given.input_params, ..stored }
}

/// The table of extractors after one was written to it, over the one of the
/// same name if there is one.
pub open spec fn with_extractor(rows: Seq<Extractor>, given: Extractor) -> Seq<Extractor> {
    if has_key(rows, given.name@) {
        rows.map_values(
            |stored: Extractor|
                if stored.name@ == given.name@ {
                    redescribed(stored, given)
                } else {
                    stored
                },
        )
    } else {
        rows.push(given)
    }
}

/// The table of extractors after the given ones were written to it, one
/// after the other.
pub open spec fn recorded(rows: Seq<Extractor>, given: Seq<Extractor>) -> Seq<Extractor>
    decreases given.len(),
{
    if given.len() == 0 {
        rows
    } else {
        with_extractor(recorded(rows, given.drop_last()), given.last())
    }
}

/// The row under which a chunk is stored for an index.
pub open spec fn chunk_row_of(index_name: Seq<char>, chunk: Chunk) -> ChunkRowView {
    ChunkRowView {
        chunk_id: chunk.chunk_id@,
        content_id: chunk.content_id@,
        text: chunk.text@,
        index_name,
    }
}

/// The table of chunks after the given ones were offered to it, one after the
/// other: a chunk whose identifier is new is stored, any other is dropped.
pub open spec fn chunked(rows: Seq<ChunkRowView>, index_name: Seq<char>, chunks: Seq<Chunk>) -> Seq<
    ChunkRowView,
>
    decreases chunks.len(),
{
    if chunks.len() == 0 {
        rows
    } else {
        inserted_or_ignored(
            chunked(rows, index_name, chunks.drop_last()),
            chunk_row_of(index_name, chunks.last()),
        )
    }
}

/// The table of events after the given ones were offered to it, one after the
/// other: an event whose identifier is new is stored, any other is dropped.
pub open spec fn eventful(rows: Seq<EventRowView>, repository: Seq<char>, events: Seq<EventView>) -> Seq<
    EventRowView,
>
    decreases events.len(),
{
    if events.len() == 0 {
        rows
    } else {
        inserted_or_ignored(
            eventful(rows, repository, events.drop_last()),
            EventRowView { repository_id: repository, event: events.last() },
        )
    }
}

impl RepositoryState {
    /// The store after the extractors were recorded.
    pub open spec fn with_extractors(self, given: Seq<Extractor>) -> RepositoryState {
        RepositoryState { extractors: recorded(self.extractors, given), ..self }
    }

    /// The store after the chunks were offered to it for the index.
    pub open spec fn with_chunks(self, index_name: Seq<char>, chunks: Seq<Chunk>) -> RepositoryState {
        RepositoryState { chunks: chunked(self.chunks, index_name, chunks), ..self }
    }

    /// The store after the events were offered to it for the repository.
    pub open spec fn with_events(self, repository: Seq<char>, events: Seq<EventView>) -> RepositoryState {
        RepositoryState { events: eventful(self.events, repository, events), ..self }
    }

    /// The events of the repository, in the order in which they were stored.
    pub open spec fn list_events(self, repository: Seq<char>) -> Seq<EventView> {
        self.events.filter(|row: EventRowView| row.repository_id == repository).map_values(
            |row: EventRowView| row.event,
        )
    }

    /// The chunk with the identifier, with the metadata of its content item.
    pub open spec fn chunk_with_id(self, id: Seq<char>) -> Option<ChunkWithMetadataView> {
        match row_with_key(self.chunks, id) {
            Some(chunk) => match row_with_key(self.contents, chunk.content_id) {
                Some(content) => Some(
                    ChunkWithMetadataView {
                        chunk_id: chunk.chunk_id,
                        content_id: chunk.content_id,
                        text: chunk.text,
                        metadata: content.metadata,
                    },
                ),
                None => None,
            },
            None => None,
        }
    }
}

/// Writing an extractor keeps the names of the table apart.
pub proof fn lemma_with_extractor_keys(rows: Seq<Extractor>, given: Extractor)
    requires
        distinct_keys(rows),
    ensures
        distinct_keys(with_extractor(rows, given)),
{
    let after = with_extractor(rows, given);
    assert forall|a: int, b: int| 0 <= a < b < after.len() implies (#[trigger] after[a]).key() != (
    #[trigger] after[b]).key() by {
        if has_key(rows, given.name@) {
            assert(rows[a].key() != rows[b].key());
        } else if b < rows.len() {
            assert(rows[a].key() != rows[b].key());
        } else {
            assert(rows[a].key() != given.name@);
        }
    }
}

impl Repository {
    /// Records extractors. An extractor that is recorded already takes the
    /// description and the parameters given and keeps its schemas.
    pub fn record_extractors(&mut self, extractors: Vec<Extractor>) -> (r: Result<
        (),
        RepositoryError,
    >)
        requires
            old(self).wf(),
        ensures
            final(self).wf(),
            r is Ok,
            final(self)@ == old(self)@.with_extractors(extractors@),
    {
        let ghost before = self@;
        let mut pending = extractors;
        let ghost mut done: int = 0;
        assert(extractors@.take(0) =~= Seq::empty());
        while pending.len() > 0
            invariant
                0 <= done <= extractors@.len(),
                pending@ == extractors@.skip(done),
                distinct_keys(self.extractors@),
                self.extractors@ == recorded(before.extractors, extractors@.take(done)),
                self@ == (RepositoryState { extractors: self.extractors@, ..before }),
            decreases pending@.len(),
        {
            let given = pending.remove(0);
            let ghost held = self.extractors@;
            proof {
                assert(given == extractors@[done]);
                assert(extractors@.take(done + 1).drop_last() =~= extractors@.take(done));
                assert(extractors@.take(done + 1).last() == given);
                assert(pending@ =~= extractors@.skip(done + 1));
                lemma_with_extractor_keys(held, given);
            }
            match find_row(&self.extractors, given.name.as_str()) {
                Some(i) => {
                    let stored = self.extractors.remove(i);
                    let written = Extractor {
                        name: stored.name,
                        description: given.description,
                        input_params: given.input_params,
                        schemas: stored.schemas,
                    };
                    self.extractors.insert(i, written);
                    proof {
                        let after = self.extractors@;
                        let wanted = with_extractor(held, given);
                        assert forall|j: int| 0 <= j < held.len() && (#[trigger] held[j]).key()
                            == given.name@ implies j == i by {
                            lemma_key_once(held, i as int, j);
                        }
                        assert(held[i as int].key() == given.name@);
                        assert(after.len() == wanted.len());
                        assert forall|j: int| 0 <= j < after.len() implies after[j] == wanted[j] by {
                            if j != i {
                                assert(after[j] == held[j]);
                                assert(held[j].key() != given.name@);
                            }
                        }
                        assert(after =~= wanted);
                    }
                },
                None => {
                    self.extractors.push(given);
                },
            }
            proof {
                done = done + 1;
            }
        }
        assert(extractors@.take(done) =~= extractors@);
        Ok(())
    }

    /// The extractors, in the order in which they were first recorded.
    pub fn list_extractors(&self) -> (r: Result<Vec<&Extractor>, RepositoryError>)
        ensures
            r is Ok,
            r->Ok_0@.map_values(|row: &Extractor| *row) == self@.extractors,
    {
        let mut found: Vec<&Extractor> = Vec::new();
        let mut i: usize = 0;
        assert(found@.map_values(|row: &Extractor| *row) =~= self.extractors@.take(0));
        while i < self.extractors.len()
            invariant
                i <= self.extractors@.len(),
                found@.map_values(|row: &Extractor| *row) == self.extractors@.take(i as int),
            decreases self.extractors@.len() - i,
        {
            let ghost held = found@;
            found.push(&self.extractors[i]);
            assert(found@.map_values(|row: &Extractor| *row) =~= held.map_values(
                |row: &Extractor| *row,
            ).push(self.extractors@[i as int]));
            assert(self.extractors@.take(i + 1) =~= self.extractors@.take(i as int).push(
                self.extractors@[i as int],
            ));
            i += 1;
        }
        assert(self.extractors@.take(i as int) =~= self.extractors@);
        Ok(found)
    }

    /// The extractor of the name.
    pub fn get_extractor(&self, extractor_name: &str) -> (r: Result<&Extractor, RepositoryError>)
        requires
            self.wf(),
        ensures
            match r {
                Ok(found) => row_with_key(self@.extractors, extractor_name@) == Some(*found),
                Err(RepositoryError::ExtractorNotFound(key)) => row_with_key(
                    self@.extractors,
                    extractor_name@,
                ) is None && key@ == extractor_name@,
                Err(_) => false,
            },
    {
        match find_row(&self.extractors, extractor_name) {
            Some(i) => {
                proof {
                    lemma_row_with_key(self.extractors@, i as int);
                }
                Ok(&self.extractors[i])
            },
            None => Err(RepositoryError::ExtractorNotFound(extractor_name.to_owned())),
        }
    }

    /// The extractor of the name.
    pub fn extractor_by_name(&self, name: &str) -> (r: Result<&Extractor, RepositoryError>)
        requires
            self.wf(),
        ensures
            match r {
                Ok(found) => row_with_key(self@.extractors, name@) == Some(*found),
                Err(RepositoryError::ExtractorNotFound(key)) => row_with_key(
                    self@.extractors,
                    name@,
                ) is None && key@ == name@,
                Err(_) => false,
            },
    {
        match find_row(&self.extractors, name) {
            Some(i) => {
                proof {
                    lemma_row_with_key(self.extractors@, i as int);
                }
                Ok(&self.extractors[i])
            },
            None => Err(RepositoryError::ExtractorNotFound(name.to_owned())),
        }
    }

    /// Stores chunks for an index. A chunk whose identifier the store holds
    /// already is dropped.
    pub fn create_chunks(&mut self, chunks: Vec<Chunk>, index_name: &str) -> (r: Result<
        (),
        RepositoryError,
    >)
        requires
            old(self).wf(),
        ensures
            final(self).wf(),
            r is Ok,
            final(self)@ == old(self)@.with_chunks(index_name@, chunks@),
    {
        let ghost before = self@;
        proof {
            lemma_views_keys(self.chunks@);
        }
        let mut i: usize = 0;
        assert(chunks@.take(0) =~= Seq::empty());
        while i < chunks.len()
            invariant
                i <= chunks@.len(),
                distinct_keys(self.chunks@),
                views_of(self.chunks@) == chunked(before.chunks, index_name@, chunks@.take(i as int)),
                self@ == (RepositoryState { chunks: views_of(self.chunks@), ..before }),
            decreases chunks@.len() - i,
        {
            let row = ChunkRow {
                chunk_id: chunks[i].chunk_id.clone(),
                content_id: chunks[i].content_id.clone(),
                text: chunks[i].text.clone(),
                index_name: index_name.to_owned(),
            };
            let ghost held = self.chunks@;
            proof {
                assert(row@ == chunk_row_of(index_name@, chunks@[i as int]));
                assert(chunks@.take(i + 1).drop_last() =~= chunks@.take(i as int));
                assert(chunks@.take(i + 1).last() == chunks@[i as int]);
                lemma_views_keys(held);
            }
            insert_or_ignore(&mut self.chunks, row);
            proof {
                assert(views_of(self.chunks@) =~= inserted_or_ignored(views_of(held), row@));
            }
            i += 1;
        }
        proof {
            assert(chunks@.take(i as int) =~= chunks@);
            lemma_views_keys(self.chunks@);
        }
        Ok(())
    }

    /// The chunk with the identifier, with the metadata of its content item.
    /// The error names the chunk where the store does not hold it, else the
    /// content item where the store does not hold that.
    pub fn chunk_with_id(&self, id: &str) -> (r: Result<ChunkWithMetadata, RepositoryError>)
        requires
            self.wf(),
        ensures
            match r {
                Ok(c) => self@.chunk_with_id(id@) == Some(c@),
                Err(RepositoryError::ChunkNotFound(key)) => row_with_key(self@.chunks, id@) is None
                    && key@ == id@,
                Err(RepositoryError::ContentNotFound(key)) => row_with_key(self@.chunks, id@)
                    is Some && key@ == row_with_key(self@.chunks, id@)->Some_0.content_id
                    && row_with_key(self@.contents, key@) is None,
                Err(_) => false,
            },
    {
        proof {
            lemma_views_keys(self.chunks@);
            lemma_views_keys(self.contents@);
        }
        match find_row(&self.chunks, id) {
            Some(i) => {
                let chunk = &self.chunks[i];
                proof {
                    assert(views_of(self.chunks@)[i as int] == chunk@);
                    lemma_row_with_key(views_of(self.chunks@), i as int);
                }
                match find_row(&self.contents, chunk.content_id.as_str()) {
                    Some(k) => {
                        let content = &self.contents[k];
                        proof {
                            assert(views_of(self.contents@)[k as int] == content@);
                            lemma_row_with_key(views_of(self.contents@), k as int);
                        }
                        Ok(
                            ChunkWithMetadata {
                                chunk_id: chunk.chunk_id.clone(),
                                content_id: chunk.content_id.clone(),
                                text: chunk.text.clone(),
                                metadata: content.metadata.clone(),
                            },
                        )
                    },
                    None => Err(RepositoryError::ContentNotFound(chunk.content_id.clone())),
                }
            },
            None => Err(RepositoryError::ChunkNotFound(id.to_owned())),
        }
    }

    /// Stores events for a repository. An event whose identifier the store
    /// holds already is dropped.
    pub fn add_events(&mut self, repository: &str, events: Vec<Event>) -> (r: Result<
        (),
        RepositoryError,
    >)
        requires
            old(self).wf(),
        ensures
            final(self).wf(),
            r is Ok,
            final(self)@ == old(self)@.with_events(repository@, views_of(events@)),
    {
        let ghost before = self@;
        let ghost given = views_of(events@);
        proof {
            lemma_views_keys(self.events@);
        }
        let mut i: usize = 0;
        assert(given.take(0) =~= Seq::empty());
        while i < events.len()
            invariant
                i <= events@.len(),
                given == views_of(events@),
                distinct_keys(self.events@),
                views_of(self.events@) == eventful(before.events, repository@, given.take(i as int)),
                self@ == (RepositoryState { events: views_of(self.events@), ..before }),
            decreases events@.len() - i,
        {
            let row = EventRow { repository_id: repository.to_owned(), event: events[i].clone() };
            let ghost held = self.events@;
            proof {
                assert(row@ == (EventRowView { repository_id: repository@, event: given[i as int] }));
                assert(given.take(i + 1).drop_last() =~= given.take(i as int));
                assert(given.take(i + 1).last() == given[i as int]);
                lemma_views_keys(held);
            }
            insert_or_ignore(&mut self.events, row);
            proof {
                assert(views_of(self.events@) =~= inserted_or_ignored(views_of(held), row@));
            }
            i += 1;
        }
        proof {
            assert(given.take(i as int) =~= given);
            lemma_views_keys(self.events@);
        }
        Ok(())
    }

    /// The events of a repository.
    pub fn list_events(&self, repository: &str) -> (r: Result<Vec<Event>, RepositoryError>)
        ensures
            r is Ok,
            views_of(r->Ok_0@) == self@.list_events(repository@),
    {
        let ghost rows = self@.events;
        let ghost p = |row: EventRowView| row.repository_id == repository@;
        let ghost f = |row: EventRowView| row.event;
        let mut found: Vec<Event> = Vec::new();
        let mut i: usize = 0;
        proof {
            reveal(Seq::filter);
            assert(rows.take(0).filter(p) =~= Seq::empty());
            assert(views_of(found@) =~= rows.take(0).filter(p).map_values(f));
        }
        while i < self.events.len()
            invariant
                i <= self.events@.len(),
                rows == views_of(self.events@),
                p == |row: EventRowView| row.repository_id == repository@,
                f == |row: EventRowView| row.event,
                views_of(found@) == rows.take(i as int).filter(p).map_values(f),
            decreases self.events@.len() - i,
        {
            proof {
                lemma_filter_next(rows, p, i as int);
            }
            let row = &self.events[i];
            assert(rows[i as int] == row@);
            if same_text(row.repository_id.as_str(), repository) {
                let ghost held = found@;
                found.push(row.event.clone());
                assert(views_of(found@) =~= views_of(held).push(row@.event));
                assert(rows.take(i + 1).filter(p).map_values(f) =~= rows.take(i as int).filter(
                    p,
                ).map_values(f).push(row@.event));
            }
            i += 1;
        }
        assert(rows.take(i as int) =~= rows);
        Ok(found)
    }
}

} // verus!
