use crate::assoc::Dictionary;
use crate::content::{ContentPayload, ContentPayloadView};
use crate::error::RepositoryError;
use crate::event_log::{all_free, find_taken, first_taken, ids_of, is_taken, lemma_log_takes_events};
use crate::events::{ExtractionEvent, ExtractionEventRow, ExtractionEventRowView, ExtractionEventView};
use crate::outside::random_token;
use crate::rows::{ContentRow, ContentRowView};
use crate::store::{announces, content_is_announced, is_announced, Repository, RepositoryState};
use crate::table::{
    distinct_keys, has_key, insert_or_ignore, inserted_or_ignored, lemma_views_keys, views_of, Key,
};
use vstd::prelude::*;

verus! {

/// The row under which a repository files a payload: the payload as it is,
/// processed by no binding yet.
pub open spec fn content_row_of(repository: Seq<char>, p: ContentPayloadView) -> ContentRowView {
    ContentRowView {
        id: p.id,
        repository_id: repository,
        payload: p.payload,
        payload_type: p.payload_type,
        content_type: p.content_type,
        metadata: p.metadata,
        markers: Map::empty(),
    }
}

/// The event, under the identifier and not acknowledged, that announces a
/// content item of the repository.
pub open spec fn announcement(
    id: Seq<char>,
    repository: Seq<char>,
    content_id: Seq<char>,
) -> ExtractionEventRowView {
    ExtractionEventRowView {
        event: ExtractionEventView::content_created(id, repository, content_id),
        processed_at: None,
    }
}

/// The content table after the payloads were offered to it, one after the
/// other: a payload whose identifier is new is filed, any other is dropped.
pub open spec fn ingested(
    rows: Seq<ContentRowView>,
    repository: Seq<char>,
    payloads: Seq<ContentPayloadView>,
) -> Seq<ContentRowView>
    decreases payloads.len(),
{
    if payloads.len() == 0 {
        rows
    } else {
        inserted_or_ignored(
            ingested(rows, repository, payloads.drop_last()),
            content_row_of(repository, payloads.last()),
        )
    }
}

/// Whether the last of the payloads is filed when they are offered to the
/// table one after the other: whether its identifier is new by then.
pub open spec fn last_is_filed(
    rows: Seq<ContentRowView>,
    repository: Seq<char>,
    payloads: Seq<ContentPayloadView>,
) -> bool {
    !has_key(ingested(rows, repository, payloads.drop_last()), payloads.last().id)
}

/// The identifiers, of those given one for each payload, that are used: those
/// of the payloads that are filed.
pub open spec fn used_ids(
    rows: Seq<ContentRowView>,
    repository: Seq<char>,
    payloads: Seq<ContentPayloadView>,
    ids: Seq<Seq<char>>,
) -> Seq<Seq<char>>
    decreases payloads.len(),
{
    if payloads.len() == 0 {
        Seq::empty()
    } else {
        let earlier = used_ids(rows, repository, payloads.drop_last(), ids.drop_last());
        if last_is_filed(rows, repository, payloads) {
            earlier.push(ids.last())
        } else {
            earlier
        }
    }
}

/// The events that announce what is filed of the payloads: one for each
/// payload that is filed, under the identifier given for it, and none for a
/// payload that is dropped.
pub open spec fn content_events(
    rows: Seq<ContentRowView>,
    repository: Seq<char>,
    payloads: Seq<ContentPayloadView>,
    ids: Seq<Seq<char>>,
) -> Seq<ExtractionEventRowView>
    decreases payloads.len(),
{
    if payloads.len() == 0 {
        Seq::empty()
    } else {
        let earlier = content_events(rows, repository, payloads.drop_last(), ids.drop_last());
        if last_is_filed(rows, repository, payloads) {
            earlier.push(announcement(ids.last(), repository, payloads.last().id))
        } else {
            earlier
        }
    }
}

impl RepositoryState {
    /// Whether an ingestion is refused: the log cannot take the events under
    /// the identifiers given for the payloads that would be filed.
    pub open spec fn refuses_content(
        self,
        repository: Seq<char>,
        payloads: Seq<ContentPayloadView>,
        ids: Seq<Seq<char>>,
    ) -> bool {
        !all_free(self.extraction_events, used_ids(self.contents, repository, payloads, ids))
    }

    /// The store after an ingestion. An ingestion that is refused changes
    /// nothing. Otherwise the new payloads are filed and an event is logged
    /// for each payload that was filed, and for no other: content and events
    /// land together.
    pub open spec fn with_content(
        self,
        repository: Seq<char>,
        payloads: Seq<ContentPayloadView>,
        ids: Seq<Seq<char>>,
    ) -> RepositoryState {
        if self.refuses_content(repository, payloads, ids) {
            self
        } else {
            RepositoryState {
                contents: ingested(self.contents, repository, payloads),
                extraction_events: self.extraction_events + content_events(
                    self.contents,
                    repository,
                    payloads,
                    ids,
                ),
                ..self
            }
        }
    }
}

/// Offering payloads to a table keeps what it held and keeps its keys apart.
pub proof fn lemma_ingested_extends(
    rows: Seq<ContentRowView>,
    repository: Seq<char>,
    payloads: Seq<ContentPayloadView>,
)
    requires
        distinct_keys(rows),
    ensures
        distinct_keys(ingested(rows, repository, payloads)),
        rows.len() <= ingested(rows, repository, payloads).len(),
        ingested(rows, repository, payloads).take(rows.len() as int) == rows,
        forall|i: int|
            0 <= i < payloads.len() ==> has_key(
                ingested(rows, repository, payloads),
                (#[trigger] payloads[i]).id,
            ),
    decreases payloads.len(),
{
    let after = ingested(rows, repository, payloads);
    if payloads.len() == 0 {
        assert(after.take(rows.len() as int) =~= rows);
    } else {
        let head = payloads.drop_last();
        let mid = ingested(rows, repository, head);
        let row = content_row_of(repository, payloads.last());
        lemma_ingested_extends(rows, repository, head);
        assert(after.take(rows.len() as int) =~= mid.take(rows.len() as int));
        if !has_key(mid, row.key()) {
            assert forall|i: int, j: int| 0 <= i < j < after.len() implies (#[trigger] after[i]).key()
                != (#[trigger] after[j]).key() by {
                if j == mid.len() {
                    assert(mid[i].key() != row.key());
                } else {
                    assert(mid[i].key() != mid[j].key());
                }
            }
            assert(after[mid.len() as int].key() == payloads.last().id);
        }
        assert forall|i: int| 0 <= i < payloads.len() implies has_key(
            after,
            (#[trigger] payloads[i]).id,
        ) by {
            if i < head.len() {
                assert(has_key(mid, head[i].id));
                let k = choose|k: int| 0 <= k < mid.len() && (#[trigger] mid[k]).key() == head[i].id;
                assert(after[k].key() == payloads[i].id);
            } else {
                if has_key(mid, row.key()) {
                    let k = choose|k: int| 0 <= k < mid.len() && (#[trigger] mid[k]).key() == row.key();
                    assert(after[k].key() == payloads[i].id);
                }
            }
        }
    }
}

/// What is filed and what is logged go place by place: as many events as
/// rows, and the event at a place announces the row at that place, under the
/// identifier used at that place, for the repository.
pub proof fn lemma_events_follow_rows(
    rows: Seq<ContentRowView>,
    repository: Seq<char>,
    payloads: Seq<ContentPayloadView>,
    ids: Seq<Seq<char>>,
)
    requires
        ids.len() == payloads.len(),
    ensures
        ({
            let after = ingested(rows, repository, payloads);
            let events = content_events(rows, repository, payloads, ids);
            let used = used_ids(rows, repository, payloads, ids);
            &&& after.len() == rows.len() + events.len()
            &&& used.len() == events.len()
            &&& forall|k: int|
                0 <= k < events.len() ==> (#[trigger] events[k]) == announcement(
                    used[k],
                    repository,
                    after[rows.len() + k].id,
                ) && after[rows.len() + k].repository_id == repository
        }),
    decreases payloads.len(),
{
    if payloads.len() > 0 {
        let head = payloads.drop_last();
        let mid = ingested(rows, repository, head);
        let after = ingested(rows, repository, payloads);
        let events = content_events(rows, repository, payloads, ids);
        let earlier = content_events(rows, repository, head, ids.drop_last());
        lemma_events_follow_rows(rows, repository, head, ids.drop_last());
        assert forall|k: int| 0 <= k < events.len() implies (#[trigger] events[k]) == announcement(
            used_ids(rows, repository, payloads, ids)[k],
            repository,
            after[rows.len() + k].id,
        ) && after[rows.len() + k].repository_id == repository by {
            if k < earlier.len() {
                assert(events[k] == earlier[k]);
                assert(after[rows.len() + k] == mid[rows.len() + k]);
            }
        }
    }
}

/// Content stays announced through an ingestion: where content and events
/// stood together before, they do afterwards.
pub proof fn lemma_content_stays_announced(
    rows: Seq<ContentRowView>,
    log: Seq<ExtractionEventRowView>,
    repository: Seq<char>,
    payloads: Seq<ContentPayloadView>,
    ids: Seq<Seq<char>>,
)
    requires
        ids.len() == payloads.len(),
        distinct_keys(rows),
        content_is_announced(rows, log),
    ensures
        content_is_announced(
            ingested(rows, repository, payloads),
            log + content_events(rows, repository, payloads, ids),
        ),
{
    let after = ingested(rows, repository, payloads);
    let events = content_events(rows, repository, payloads, ids);
    let used = used_ids(rows, repository, payloads, ids);
    let grown = log + events;
    let n = rows.len() as int;
    lemma_ingested_extends(rows, repository, payloads);
    lemma_events_follow_rows(rows, repository, payloads, ids);
    assert forall|i: int| 0 <= i < n implies after[i] == rows[i] by {
        assert(after.take(n)[i] == after[i]);
    }
    assert forall|k: int| 0 <= k < events.len() implies announces(
        #[trigger] grown[log.len() + k],
        after[n + k].id,
    ) by {
        assert(events[k] == announcement(used[k], repository, after[n + k].id));
    }
    assert forall|i: int| 0 <= i < after.len() implies is_announced(
        grown,
        (#[trigger] after[i]).id,
    ) by {
        if i < n {
            assert(is_announced(log, rows[i].id));
            let j = choose|j: int| 0 <= j < log.len() && announces(#[trigger] log[j], rows[i].id);
            assert(announces(grown[j], after[i].id));
        } else {
            assert(announces(grown[log.len() + (i - n)], after[i].id));
        }
    }
    assert forall|j: int, c: Seq<char>|
        0 <= j < grown.len() && announces(#[trigger] grown[j], c) implies #[trigger] has_key(
        after,
        c,
    ) by {
        if j < log.len() {
            assert(announces(log[j], c));
            assert(has_key(rows, c));
            let i = choose|i: int| 0 <= i < rows.len() && (#[trigger] rows[i]).key() == c;
            assert(after[i].key() == c);
        } else {
            let k = j - log.len();
            assert(announces(grown[log.len() + k], after[n + k].id));
            assert(after[n + k].key() == c);
        }
    }
    assert forall|i: int, j: int, c: Seq<char>|
        0 <= i < grown.len() && 0 <= j < grown.len() && #[trigger] announces(grown[i], c)
            && #[trigger] announces(grown[j], c) implies i == j by {
        lemma_announced_at(rows, log, after, grown, i, c);
        lemma_announced_at(rows, log, after, grown, j, c);
        if i < log.len() && j < log.len() {
            assert(announces(log[i], c) && announces(log[j], c));
        } else if i >= log.len() && j >= log.len() {
            assert(announces(grown[log.len() + (i - log.len())], after[n + (i - log.len())].id));
            assert(announces(grown[log.len() + (j - log.len())], after[n + (j - log.len())].id));
            let a = n + (i - log.len());
            let b = n + (j - log.len());
            assert(after[a].key() == c && after[b].key() == c);
            if a < b {
                assert(after[a].key() != after[b].key());
            } else if b < a {
                assert(after[b].key() != after[a].key());
            }
        }
    }
}

/// Where the log has grown by the events of what was filed, an old event
/// announces an old row and a new event announces a new row.
proof fn lemma_announced_at(
    rows: Seq<ContentRowView>,
    log: Seq<ExtractionEventRowView>,
    after: Seq<ContentRowView>,
    grown: Seq<ExtractionEventRowView>,
    j: int,
    c: Seq<char>,
)
    requires
        content_is_announced(rows, log),
        distinct_keys(after),
        rows.len() <= after.len(),
        log.len() <= grown.len(),
        grown.len() - log.len() == after.len() - rows.len(),
        forall|i: int| 0 <= i < rows.len() ==> after[i] == rows[i],
        forall|i: int| 0 <= i < log.len() ==> grown[i] == log[i],
        forall|k: int|
            0 <= k < grown.len() - log.len() ==> announces(
                #[trigger] grown[log.len() + k],
                after[rows.len() + k].id,
            ),
        0 <= j < grown.len(),
        announces(grown[j], c),
    ensures
        exists|i: int|
            0 <= i < after.len() && (#[trigger] after[i]).key() == c && (i < rows.len() <==> j
                < log.len()),
{
    if j < log.len() {
        assert(announces(log[j], c));
        assert(has_key(rows, c));
        let i = choose|i: int| 0 <= i < rows.len() && (#[trigger] rows[i]).key() == c;
        assert(after[i].key() == c);
    } else {
        let k = j - log.len();
        assert(announces(grown[log.len() + k], after[rows.len() + k].id));
        assert(after[rows.len() + k].key() == c);
    }
}

impl Repository {
    /// Ingests a batch of content into a repository, with an identifier given
    /// for each payload under which the event that announces it is logged.
    /// A payload whose identifier the store holds already, or that an earlier
    /// payload of the batch has brought, is dropped and announced by no
    /// event. The content that is filed and its events are written together,
    /// or, where an identifier that would be used is taken, nothing is
    /// written and the error names the first such identifier.
    pub fn add_content_with_ids(
        &mut self,
        repository: &str,
        content_payloads: Vec<ContentPayload>,
        ids: Vec<String>,
    ) -> (r: Result<(), RepositoryError>)
        requires
            old(self).wf(),
            ids@.len() == content_payloads@.len(),
        ensures
            final(self).wf(),
            final(self)@ == old(self)@.with_content(
                repository@,
                views_of(content_payloads@),
                ids_of(ids@),
            ),
            match r {
                Ok(_) => !old(self)@.refuses_content(
                    repository@,
                    views_of(content_payloads@),
                    ids_of(ids@),
                ),
                Err(RepositoryError::DatabaseError(key)) => old(self)@.refuses_content(
                    repository@,
                    views_of(content_payloads@),
                    ids_of(ids@),
                ) && exists|i: int| #[trigger]
                    first_taken(
                        old(self)@.extraction_events,
                        used_ids(
                            old(self)@.contents,
                            repository@,
                            views_of(content_payloads@),
                            ids_of(ids@),
                        ),
                        i,
                    ) && key@ == used_ids(
                        old(self)@.contents,
                        repository@,
                        views_of(content_payloads@),
                        ids_of(ids@),
                    )[i],
                Err(_) => false,
            },
    {
        let ghost before = self@;
        let ghost offered = views_of(content_payloads@);
        let ghost texts = ids_of(ids@);
        let held_before = self.contents.len();
        let mut used: Vec<String> = Vec::new();
        let mut pending: Vec<ExtractionEventRow> = Vec::new();
        let mut i: usize = 0;
        proof {
            lemma_views_keys(self.contents@);
            assert(offered.take(0) =~= Seq::empty());
            assert(ids_of(used@) =~= Seq::empty());
            assert(views_of(pending@) =~= Seq::empty());
        }
        while i < content_payloads.len()
            invariant
                i <= content_payloads@.len(),
                ids@.len() == content_payloads@.len(),
                offered == views_of(content_payloads@),
                texts == ids_of(ids@),
                distinct_keys(self.contents@),
                views_of(self.contents@) == ingested(
                    before.contents,
                    repository@,
                    offered.take(i as int),
                ),
                ids_of(used@) == used_ids(
                    before.contents,
                    repository@,
                    offered.take(i as int),
                    texts.take(i as int),
                ),
                views_of(pending@) == content_events(
                    before.contents,
                    repository@,
                    offered.take(i as int),
                    texts.take(i as int),
                ),
                self@ == (RepositoryState { contents: views_of(self.contents@), ..before }),
            decreases content_payloads@.len() - i,
        {
            let p = &content_payloads[i];
            let row = ContentRow {
                id: p.id.clone(),
                repository_id: repository.to_owned(),
                payload: p.payload.clone(),
                payload_type: p.payload_type,
                content_type: p.content_type.clone(),
                metadata: p.metadata.clone(),
                bindings_state: Dictionary::new(),
            };
            let ghost held = self.contents@;
            let ghost drawn = ids_of(used@);
            let ghost waiting = views_of(pending@);
            proof {
                assert(row@ == content_row_of(repository@, offered[i as int]));
                assert(offered.take(i + 1).drop_last() =~= offered.take(i as int));
                assert(offered.take(i + 1).last() == offered[i as int]);
                assert(texts.take(i + 1).drop_last() =~= texts.take(i as int));
                assert(texts.take(i + 1).last() == ids@[i as int]@);
                lemma_views_keys(held);
            }
            let added = insert_or_ignore(&mut self.contents, row);
            proof {
                assert(views_of(self.contents@) =~= inserted_or_ignored(views_of(held), row@));
                assert(added == last_is_filed(before.contents, repository@, offered.take(i + 1)));
            }
            if added {
                used.push(ids[i].clone());
                let event = ExtractionEvent::content_created(ids[i].clone(), repository, p.id.as_str());
                pending.push(ExtractionEventRow { event, processed_at: None });
                proof {
                    assert(ids_of(used@) =~= drawn.push(ids@[i as int]@));
                    assert(views_of(pending@) =~= waiting.push(
                        announcement(ids@[i as int]@, repository@, offered[i as int].id),
                    ));
                }
            }
            i += 1;
        }
        proof {
            assert(offered.take(i as int) =~= offered);
            assert(texts.take(i as int) =~= texts);
            lemma_ingested_extends(before.contents, repository@, offered);
            lemma_events_follow_rows(before.contents, repository@, offered, texts);
        }
        match find_taken(&self.extraction_events, &used) {
            Some(k) => {
                let ghost filed = self.contents@;
                self.contents.truncate(held_before);
                proof {
                    assert(is_taken(before.extraction_events, ids_of(used@), k as int));
                    assert(views_of(self.contents@) =~= views_of(filed).take(held_before as int));
                }
                Err(RepositoryError::DatabaseError(used[k].clone()))
            },
            None => {
                let ghost log = self.extraction_events@;
                let ghost waiting = pending@;
                self.extraction_events.append(&mut pending);
                proof {
                    let events = content_events(before.contents, repository@, offered, texts);
                    assert(views_of(self.extraction_events@) =~= views_of(log) + views_of(waiting));
                    assert forall|m: int| 0 <= m < events.len() implies (#[trigger] events[m]).event.id
                        == ids_of(used@)[m] by {}
                    lemma_log_takes_events(before.extraction_events, events, ids_of(used@));
                    lemma_content_stays_announced(
                        before.contents,
                        before.extraction_events,
                        repository@,
                        offered,
                        texts,
                    );
                }
                Ok(())
            },
        }
    }

    /// Ingests a batch of content into a repository and logs, under fresh
    /// random identifiers, the events that announce what is filed. What is
    /// written is what `add_content_with_ids` writes for the identifiers
    /// drawn.
    pub fn add_content(&mut self, repository: &str, content_payloads: Vec<ContentPayload>) -> (r:
        Result<(), RepositoryError>)
        requires
            old(self).wf(),
        ensures
            final(self).wf(),
            exists|ids: Seq<Seq<char>>|
                {
                    &&& ids.len() == content_payloads@.len()
                    &&& forall|i: int| 0 <= i < ids.len() ==> (#[trigger] ids[i]).len() == 21
                    &&& #[trigger] old(self)@.with_content(
                        repository@,
                        views_of(content_payloads@),
                        ids,
                    ) == final(self)@
                    &&& r is Ok <==> !old(self)@.refuses_content(
                        repository@,
                        views_of(content_payloads@),
                        ids,
                    )
                },
    {
        let mut ids: Vec<String> = Vec::new();
        let mut i: usize = 0;
        while i < content_payloads.len()
            invariant
                i <= content_payloads@.len(),
                ids@.len() == i,
                forall|j: int| 0 <= j < i ==> (#[trigger] ids@[j])@.len() == 21,
            decreases content_payloads@.len() - i,
        {
            ids.push(random_token());
            i += 1;
        }
        let ghost texts = ids_of(ids@);
        let r = self.add_content_with_ids(repository, content_payloads, ids);
        assert(old(self)@.with_content(repository@, views_of(content_payloads@), texts) == self@);
        r
    }
}

/// An ingestion keeps the store valid.
pub proof fn lemma_with_content_wf(
    s: RepositoryState,
    repository: Seq<char>,
    payloads: Seq<ContentPayloadView>,
    ids: Seq<Seq<char>>,
)
    requires
        s.wf(),
        ids.len() == payloads.len(),
    ensures
        s.with_content(repository, payloads, ids).wf(),
{
    if !s.refuses_content(repository, payloads, ids) {
        let events = content_events(s.contents, repository, payloads, ids);
        let used = used_ids(s.contents, repository, payloads, ids);
        lemma_ingested_extends(s.contents, repository, payloads);
        lemma_events_follow_rows(s.contents, repository, payloads, ids);
        assert forall|m: int| 0 <= m < events.len() implies (#[trigger] events[m]).event.id
            == used[m] by {}
        lemma_log_takes_events(s.extraction_events, events, used);
        lemma_content_stays_announced(s.contents, s.extraction_events, repository, payloads, ids);
    }
}

/// A batch of which the table holds every identifier brings nothing: nothing
/// is filed, no identifier is used and no event is logged.
pub proof fn lemma_known_batch_brings_nothing(
    rows: Seq<ContentRowView>,
    repository: Seq<char>,
    payloads: Seq<ContentPayloadView>,
    ids: Seq<Seq<char>>,
)
    requires
        forall|i: int| 0 <= i < payloads.len() ==> has_key(rows, (#[trigger] payloads[i]).id),
    ensures
        ingested(rows, repository, payloads) == rows,
        used_ids(rows, repository, payloads, ids) == Seq::<Seq<char>>::empty(),
        content_events(rows, repository, payloads, ids) == Seq::<ExtractionEventRowView>::empty(),
    decreases payloads.len(),
{
    if payloads.len() > 0 {
        let head = payloads.drop_last();
        assert forall|i: int| 0 <= i < head.len() implies has_key(rows, (#[trigger] head[i]).id) by {
            assert(has_key(rows, payloads[i].id));
        }
        lemma_known_batch_brings_nothing(rows, repository, head, ids.drop_last());
        assert(has_key(rows, payloads.last().id));
        assert(content_row_of(repository, payloads.last()).key() == payloads.last().id);
    }
}

} // verus!
