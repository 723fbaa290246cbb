use crate::binding::DataRepository;
use crate::events::{
    EventRow, EventRowView, ExtractionEventPayloadView, ExtractionEventRow, ExtractionEventRowView,
};
use crate::rows::{
    AttributesRow, AttributesRowView, ChunkRow, ChunkRowView, ContentRow, ContentRowView, IndexRow,
    IndexRowView,
};
use crate::schema::Extractor;
use crate::table::{distinct_keys, has_key, views_of, Key};
use crate::work::Work;
use vstd::prelude::*;

verus! {

/// The store of the coordination layer: one table for each family of rows,
/// each in the order in which its rows were first written.
#[derive(Debug)]
pub struct Repository {
    pub contents: Vec<ContentRow>,
    pub extraction_events: Vec<ExtractionEventRow>,
    pub work: Vec<Work>,
    pub indexes: Vec<IndexRow>,
    pub attributes: Vec<AttributesRow>,
    pub repositories: Vec<DataRepository>,
    pub extractors: Vec<Extractor>,
    pub chunks: Vec<ChunkRow>,
    pub events: Vec<EventRow>,
}

/// What the store holds.
pub ghost struct RepositoryState {
    pub contents: Seq<ContentRowView>,
    pub extraction_events: Seq<ExtractionEventRowView>,
    pub work: Seq<Work>,
    pub indexes: Seq<IndexRowView>,
    pub attributes: Seq<AttributesRowView>,
    pub repositories: Seq<DataRepository>,
    pub extractors: Seq<Extractor>,
    pub chunks: Seq<ChunkRowView>,
    pub events: Seq<EventRowView>,
}

impl View for Repository {
    type V = RepositoryState;

    open spec fn view(&self) -> RepositoryState {
        RepositoryState {
            contents: views_of(self.contents@),
            extraction_events: views_of(self.extraction_events@),
            work: self.work@,
            indexes: views_of(self.indexes@),
            attributes: views_of(self.attributes@),
            repositories: self.repositories@,
            extractors: self.extractors@,
            chunks: views_of(self.chunks@),
            events: views_of(self.events@),
        }
    }
}

/// The event announces the content item.
pub open spec fn announces(row: ExtractionEventRowView, content_id: Seq<char>) -> bool {
    row.event.payload == (ExtractionEventPayloadView::CreateContent { content_id })
}

/// Some event of the log announces the content item.
pub open spec fn is_announced(log: Seq<ExtractionEventRowView>, content_id: Seq<char>) -> bool {
    exists|j: int| 0 <= j < log.len() && announces(#[trigger] log[j], content_id)
}

/// Content and the events that announce it stand together: every content
/// item is announced in the log, every event that announces content
/// announces an item that the store holds, and no two events announce the
/// same item.
pub open spec fn content_is_announced(
    contents: Seq<ContentRowView>,
    log: Seq<ExtractionEventRowView>,
) -> bool {
    &&& forall|i: int| 0 <= i < contents.len() ==> is_announced(log, (#[trigger] contents[i]).id)
    &&& forall|j: int, c: Seq<char>|
        0 <= j < log.len() && announces(#[trigger] log[j], c) ==> #[trigger] has_key(contents, c)
    &&& forall|i: int, j: int, c: Seq<char>|
        0 <= i < log.len() && 0 <= j < log.len() && #[trigger] announces(log[i], c)
            && #[trigger] announces(log[j], c) ==> i == j
}

/// Content stays announced where the content items change in nothing but
/// what they hold beside their identifiers.
pub proof fn lemma_announced_same_ids(
    contents: Seq<ContentRowView>,
    changed: Seq<ContentRowView>,
    log: Seq<ExtractionEventRowView>,
)
    requires
        content_is_announced(contents, log),
        changed.len() == contents.len(),
        forall|i: int| 0 <= i < contents.len() ==> (#[trigger] changed[i]).id == contents[i].id,
    ensures
        content_is_announced(changed, log),
{
    assert forall|i: int| 0 <= i < changed.len() implies is_announced(
        log,
        (#[trigger] changed[i]).id,
    ) by {
        assert(is_announced(log, contents[i].id));
    }
    assert forall|j: int, c: Seq<char>|
        0 <= j < log.len() && announces(#[trigger] log[j], c) implies #[trigger] has_key(
        changed,
        c,
    ) by {
        assert(has_key(contents, c));
        let i = choose|i: int| 0 <= i < contents.len() && (#[trigger] contents[i]).key() == c;
        assert(changed[i].key() == c);
    }
}

/// Content stays announced where the events of the log change in nothing
/// but the time of their acknowledgment.
pub proof fn lemma_announced_same_events(
    contents: Seq<ContentRowView>,
    log: Seq<ExtractionEventRowView>,
    changed: Seq<ExtractionEventRowView>,
)
    requires
        content_is_announced(contents, log),
        changed.len() == log.len(),
        forall|j: int| 0 <= j < log.len() ==> (#[trigger] changed[j]).event == log[j].event,
    ensures
        content_is_announced(contents, changed),
{
    assert forall|i: int| 0 <= i < contents.len() implies is_announced(
        changed,
        (#[trigger] contents[i]).id,
    ) by {
        assert(is_announced(log, contents[i].id));
        let j = choose|j: int| 0 <= j < log.len() && announces(#[trigger] log[j], contents[i].id);
        assert(announces(changed[j], contents[i].id));
    }
    assert forall|j: int, c: Seq<char>|
        0 <= j < changed.len() && announces(#[trigger] changed[j], c) implies #[trigger] has_key(
        contents,
        c,
    ) by {
        assert(announces(log[j], c));
    }
    assert forall|i: int, j: int, c: Seq<char>|
        0 <= i < changed.len() && 0 <= j < changed.len() && #[trigger] announces(changed[i], c)
            && #[trigger] announces(changed[j], c) implies i == j by {
        assert(announces(log[i], c) && announces(log[j], c));
    }
}

/// Content stays announced where the log takes events that announce no
/// content.
pub proof fn lemma_announced_with_other_events(
    contents: Seq<ContentRowView>,
    log: Seq<ExtractionEventRowView>,
    added: Seq<ExtractionEventRowView>,
)
    requires
        content_is_announced(contents, log),
        forall|k: int| 0 <= k < added.len() ==> !((#[trigger] added[k]).event.payload is CreateContent),
    ensures
        content_is_announced(contents, log + added),
{
    let grown = log + added;
    assert forall|i: int| 0 <= i < contents.len() implies is_announced(
        grown,
        (#[trigger] contents[i]).id,
    ) by {
        assert(is_announced(log, contents[i].id));
        let j = choose|j: int| 0 <= j < log.len() && announces(#[trigger] log[j], contents[i].id);
        assert(announces(grown[j], contents[i].id));
    }
    assert forall|j: int, c: Seq<char>|
        0 <= j < grown.len() && announces(#[trigger] grown[j], c) implies #[trigger] has_key(
        contents,
        c,
    ) by {
        if j < log.len() {
            assert(announces(log[j], c));
        } else {
            assert(!(added[j - log.len()].event.payload is CreateContent));
        }
    }
    assert forall|i: int, j: int, c: Seq<char>|
        0 <= i < grown.len() && 0 <= j < grown.len() && #[trigger] announces(grown[i], c)
            && #[trigger] announces(grown[j], c) implies i == j by {
        if i >= log.len() {
            assert(!(added[i - log.len()].event.payload is CreateContent));
        }
        if j >= log.len() {
            assert(!(added[j - log.len()].event.payload is CreateContent));
        }
        assert(announces(log[i], c) && announces(log[j], c));
    }
}

impl RepositoryState {
    /// The store with nothing in it.
    pub open spec fn empty() -> RepositoryState {
        RepositoryState {
            contents: Seq::empty(),
            extraction_events: Seq::empty(),
            work: Seq::empty(),
            indexes: Seq::empty(),
            attributes: Seq::empty(),
            repositories: Seq::empty(),
            extractors: Seq::empty(),
            chunks: Seq::empty(),
            events: Seq::empty(),
        }
    }

    /// Each table holds each key once, each repository holds each name of a
    /// binding once, and content and the events that announce it stand
    /// together.
    pub open spec fn wf(self) -> bool {
        &&& content_is_announced(self.contents, self.extraction_events)
        &&& forall|i: int|
            0 <= i < self.repositories.len() ==> distinct_keys(
                (#[trigger] self.repositories[i]).extractor_bindings@,
            )
        &&& distinct_keys(self.contents)
        &&& distinct_keys(self.extraction_events)
        &&& distinct_keys(self.work)
        &&& distinct_keys(self.indexes)
        &&& distinct_keys(self.attributes)
        &&& distinct_keys(self.repositories)
        &&& distinct_keys(self.extractors)
        &&& distinct_keys(self.chunks)
        &&& distinct_keys(self.events)
    }
}

impl Repository {
    /// Each table holds each key once, each repository holds each name of a
    /// binding once, and content and the events that announce it stand
    /// together.
    pub open spec fn wf(&self) -> bool {
        self@.wf()
    }

    /// A store with nothing in it.
    pub fn new() -> (r: Self)
        ensures
            r@ == RepositoryState::empty(),
            r.wf(),
    {
        let r = Repository {
            contents: Vec::new(),
            extraction_events: Vec::new(),
            work: Vec::new(),
            indexes: Vec::new(),
            attributes: Vec::new(),
            repositories: Vec::new(),
            extractors: Vec::new(),
            chunks: Vec::new(),
            events: Vec::new(),
        };
        assert(r@.contents =~= Seq::empty());
        assert(r@.extraction_events =~= Seq::empty());
        assert(r@.indexes =~= Seq::empty());
        assert(r@.attributes =~= Seq::empty());
        assert(r@.chunks =~= Seq::empty());
        assert(r@.events =~= Seq::empty());
        r
    }
}

} // verus!
