use crate::binding::{DataRepository, ExtractorBinding};
use crate::content::ContentPayloadView;
use crate::content_store::{
    content_events, lemma_events_follow_rows, lemma_ingested_extends,
    lemma_known_batch_brings_nothing, lemma_with_content_wf,
};
use crate::events::{ExtractionEventRowView, ExtractionEventView};
use crate::repository_store::{binding_events, upserted};
use crate::rows::{marker_of, ContentRowView};
use crate::selection::needs_processing;
use crate::store::{announces, is_announced, RepositoryState};
use crate::table::{distinct_keys, has_key, Key};
use crate::work::{Work, WorkState};
use crate::work_queue::{after_claim, after_claims, lemma_claim_keeps_keys};
use vstd::prelude::*;

verus! {

/// The table holds the key at one place and at no other.
pub open spec fn holds_once<R: Key>(rows: Seq<R>, key: Seq<char>) -> bool {
    exists|i: int|
        0 <= i < rows.len() && (#[trigger] rows[i]).key() == key && forall|j: int|
            0 <= j < rows.len() && (#[trigger] rows[j]).key() == key ==> j == i
}

/// A table with distinct keys that holds a key holds it once.
pub proof fn lemma_held_once<R: Key>(rows: Seq<R>, key: Seq<char>)
    requires
        distinct_keys(rows),
        has_key(rows, key),
    ensures
        holds_once(rows, key),
{
    let i = choose|i: int| 0 <= i < rows.len() && (#[trigger] rows[i]).key() == key;
    assert forall|j: int| 0 <= j < rows.len() && (#[trigger] rows[j]).key() == key implies j
        == i by {
        if i < j {
            assert(rows[i].key() != rows[j].key());
        } else if j < i {
            assert(rows[j].key() != rows[i].key());
        }
    }
}

/// Ingesting the same content twice leaves one row and one event. A batch
/// ingested into any store, and not refused, leaves the store holding the
/// identifier of each of its payloads once; ingesting the batch again, under
/// whatever event identifiers, changes nothing: no row is added and no event
/// is logged.
pub proof fn law_ingestion_is_idempotent(
    s: RepositoryState,
    repository: Seq<char>,
    payloads: Seq<ContentPayloadView>,
    first_ids: Seq<Seq<char>>,
    second_ids: Seq<Seq<char>>,
)
    requires
        s.wf(),
        first_ids.len() == payloads.len(),
        !s.refuses_content(repository, payloads, first_ids),
    ensures
        forall|k: int|
            0 <= k < payloads.len() ==> holds_once(
                s.with_content(repository, payloads, first_ids).contents,
                (#[trigger] payloads[k]).id,
            ),
        s.with_content(repository, payloads, first_ids).with_content(
            repository,
            payloads,
            second_ids,
        ) == s.with_content(repository, payloads, first_ids),
{
    let once = s.with_content(repository, payloads, first_ids);
    lemma_ingested_extends(s.contents, repository, payloads);
    assert forall|k: int| 0 <= k < payloads.len() implies holds_once(
        once.contents,
        (#[trigger] payloads[k]).id,
    ) by {
        lemma_held_once(once.contents, payloads[k].id);
    }
    lemma_known_batch_brings_nothing(once.contents, repository, payloads, second_ids);
    assert(once.extraction_events + Seq::<ExtractionEventRowView>::empty()
        =~= once.extraction_events);
}

/// Content and the events that announce it land together or not at all. An
/// ingestion into any valid store leaves a valid store: every content item is
/// announced by an event, every such event announces an item that the store
/// holds, and none is announced twice. A refused ingestion changes nothing.
/// One that is not refused keeps what the store held, files as many rows as
/// it logs events, and the event at a place announces the row at that place,
/// for the repository and unacknowledged; afterwards the store holds the
/// identifier of every payload of the batch.
pub proof fn law_content_and_events_land_together(
    s: RepositoryState,
    repository: Seq<char>,
    payloads: Seq<ContentPayloadView>,
    ids: Seq<Seq<char>>,
)
    requires
        s.wf(),
        ids.len() == payloads.len(),
    ensures
        ({
            let after = s.with_content(repository, payloads, ids);
            let rows = s.contents.len() as int;
            let events = s.extraction_events.len() as int;
            &&& after.wf()
            &&& s.refuses_content(repository, payloads, ids) ==> after == s
            &&& after.contents.len() - rows == after.extraction_events.len() - events
            &&& after.contents.len() >= rows
            &&& after.contents.take(rows) == s.contents
            &&& after.extraction_events.take(events) == s.extraction_events
            &&& forall|k: int|
                0 <= k < after.contents.len() - rows ==> {
                    &&& (#[trigger] after.contents[rows + k]).repository_id == repository
                    &&& announces(after.extraction_events[events + k], after.contents[rows + k].id)
                    &&& after.extraction_events[events + k].event.repository_id == repository
                    &&& after.extraction_events[events + k].processed_at is None
                }
            &&& !s.refuses_content(repository, payloads, ids) ==> forall|k: int|
                0 <= k < payloads.len() ==> has_key(after.contents, (#[trigger] payloads[k]).id)
        }),
{
    let after = s.with_content(repository, payloads, ids);
    lemma_with_content_wf(s, repository, payloads, ids);
    if s.refuses_content(repository, payloads, ids) {
        assert(after.contents.take(s.contents.len() as int) =~= s.contents);
        assert(after.extraction_events.take(s.extraction_events.len() as int)
            =~= s.extraction_events);
    } else {
        lemma_ingested_extends(s.contents, repository, payloads);
        lemma_events_follow_rows(s.contents, repository, payloads, ids);
        assert(after.extraction_events.take(s.extraction_events.len() as int)
            =~= s.extraction_events);
        let added = content_events(s.contents, repository, payloads, ids);
        assert forall|k: int| 0 <= k < after.contents.len() - s.contents.len() implies {
            &&& (#[trigger] after.contents[s.contents.len() + k]).repository_id == repository
            &&& announces(
                after.extraction_events[s.extraction_events.len() + k],
                after.contents[s.contents.len() + k].id,
            )
            &&& after.extraction_events[s.extraction_events.len() + k].event.repository_id
                == repository
            &&& after.extraction_events[s.extraction_events.len() + k].processed_at is None
        } by {
            assert(after.extraction_events[s.extraction_events.len() + k] == added[k]);
        }
    }
}

/// New content is announced once. Where a payload that is new to a valid
/// store is ingested and the ingestion is not refused, the store afterwards
/// holds a row for it under the repository, and the log holds one event, and
/// one only, that announces it: an event of the repository that no consumer
/// has acknowledged. A payload that the store held before is announced by no
/// event that the ingestion logs.
pub proof fn law_new_content_is_announced_once(
    s: RepositoryState,
    repository: Seq<char>,
    payloads: Seq<ContentPayloadView>,
    ids: Seq<Seq<char>>,
    k: int,
)
    requires
        s.wf(),
        ids.len() == payloads.len(),
        0 <= k < payloads.len(),
        !s.refuses_content(repository, payloads, ids),
    ensures
        ({
            let after = s.with_content(repository, payloads, ids);
            let id = payloads[k].id;
            &&& !has_key(s.contents, id) ==> exists|i: int|
                0 <= i < after.contents.len() && (#[trigger] after.contents[i]).id == id
                    && after.contents[i].repository_id == repository
            &&& !has_key(s.contents, id) ==> exists|j: int|
                {
                    &&& s.extraction_events.len() <= j < after.extraction_events.len()
                    &&& announces(#[trigger] after.extraction_events[j], id)
                    &&& after.extraction_events[j].event.repository_id == repository
                    &&& after.extraction_events[j].processed_at is None
                    &&& forall|other: int|
                        0 <= other < after.extraction_events.len() && announces(
                            #[trigger] after.extraction_events[other],
                            id,
                        ) ==> other == j
                }
            &&& has_key(s.contents, id) ==> forall|j: int|
                s.extraction_events.len() <= j < after.extraction_events.len() ==> !announces(
                    #[trigger] after.extraction_events[j],
                    id,
                )
        }),
{
    let after = s.with_content(repository, payloads, ids);
    let id = payloads[k].id;
    let rows = s.contents.len() as int;
    let events = s.extraction_events.len() as int;
    law_content_and_events_land_together(s, repository, payloads, ids);
    assert(has_key(after.contents, id));
    let i = choose|i: int| 0 <= i < after.contents.len() && (#[trigger] after.contents[i]).key() == id;
    if !has_key(s.contents, id) {
        if i < rows {
            assert(after.contents.take(rows)[i] == after.contents[i]);
            assert(s.contents[i].key() == id);
        }
        let m = i - rows;
        assert(after.contents[rows + m].repository_id == repository);
        let j = events + m;
        assert(announces(after.extraction_events[j], id));
        assert forall|other: int|
            0 <= other < after.extraction_events.len() && announces(
                #[trigger] after.extraction_events[other],
                id,
            ) implies other == j by {}
    } else {
        let held = choose|h: int| 0 <= h < s.contents.len() && (#[trigger] s.contents[h]).key() == id;
        assert(is_announced(s.extraction_events, s.contents[held].id));
        let old_event = choose|e: int|
            0 <= e < s.extraction_events.len() && announces(#[trigger] s.extraction_events[e], id);
        assert(after.extraction_events.take(events)[old_event]
            == after.extraction_events[old_event]);
        assert(announces(after.extraction_events[old_event], id));
        assert forall|j: int| events <= j < after.extraction_events.len() implies !announces(
            #[trigger] after.extraction_events[j],
            id,
        ) by {
            if announces(after.extraction_events[j], id) {
                assert(j == old_event);
            }
        }
    }
}

/// Acknowledging an event twice is harmless. In any store, a second
/// acknowledgment of an event, at whatever time, changes nothing: the event
/// keeps the time of its first acknowledgment. It does not fail either, for
/// an event that the log held at the first: the log holds the same events
/// after an acknowledgment as before.
pub proof fn law_acknowledgment_is_idempotent(
    s: RepositoryState,
    id: Seq<char>,
    first_time: u64,
    second_time: u64,
)
    ensures
        s.with_acknowledged(id, first_time).with_acknowledged(id, second_time)
            == s.with_acknowledged(id, first_time),
        has_key(s.with_acknowledged(id, first_time).extraction_events, id) == has_key(
            s.extraction_events,
            id,
        ),
        forall|i: int|
            0 <= i < s.extraction_events.len() && (#[trigger] s.extraction_events[i]).event.id == id
                ==> s.with_acknowledged(id, first_time).extraction_events[i].processed_at
                == Some(
                match s.extraction_events[i].processed_at {
                    Some(t) => t,
                    None => first_time,
                },
            ),
{
    let once = s.with_acknowledged(id, first_time);
    let twice = once.with_acknowledged(id, second_time);
    assert(twice.extraction_events =~= once.extraction_events);
    if has_key(s.extraction_events, id) {
        let i = choose|i: int|
            0 <= i < s.extraction_events.len() && (#[trigger] s.extraction_events[i]).key() == id;
        assert(once.extraction_events[i].key() == id);
    }
    if has_key(once.extraction_events, id) {
        let i = choose|i: int|
            0 <= i < once.extraction_events.len() && (#[trigger] once.extraction_events[i]).key()
                == id;
        assert(s.extraction_events[i].key() == id);
    }
}

/// Marking one binding leaves every other marker alone. After a binding has
/// processed a content item, in any store, the marker of any other binding on
/// any item is what it was, the marker of this binding on any other item is
/// what it was, and no item has changed in anything but its markers.
pub proof fn law_completion_markers_are_isolated(
    s: RepositoryState,
    content_id: Seq<char>,
    binding: Seq<char>,
)
    ensures
        ({
            let after = s.with_processed(content_id, binding);
            &&& after.contents.len() == s.contents.len()
            &&& forall|i: int, other: Seq<char>|
                0 <= i < s.contents.len() && other != binding ==> marker_of(
                    (#[trigger] after.contents[i]).markers,
                    other,
                ) == #[trigger] marker_of(s.contents[i].markers, other)
            &&& forall|i: int|
                0 <= i < s.contents.len() && (#[trigger] s.contents[i]).id != content_id
                    ==> after.contents[i] == s.contents[i]
            &&& forall|i: int|
                0 <= i < s.contents.len() && (#[trigger] s.contents[i]).id == content_id
                    ==> after.contents[i].is_processed_by(binding)
            &&& forall|i: int|
                0 <= i < s.contents.len() ==> (#[trigger] after.contents[i]) == (
                ContentRowView { markers: after.contents[i].markers, ..s.contents[i] })
        }),
{
}

/// Queueing the same unit of work twice leaves one unit. Two units with the
/// one identifier, queued one after the other into any store: the queue then
/// holds the identifier once, and the second queueing changes nothing.
pub proof fn law_work_creation_is_idempotent(s: RepositoryState, first: Work, second: Work)
    requires
        s.wf(),
        first.id@ == second.id@,
    ensures
        holds_once(s.with_work(first).work, first.id@),
        s.with_work(first).with_work(second) == s.with_work(first),
{
    let once = s.with_work(first);
    if !has_key(s.work, first.key()) {
        assert(once.work[s.work.len() as int].key() == first.id@);
        assert forall|a: int, b: int| 0 <= a < b < once.work.len() implies (#[trigger] once.work[a]).key()
            != (#[trigger] once.work[b]).key() by {
            if b < s.work.len() {
                assert(s.work[a].key() != s.work[b].key());
            } else {
                assert(s.work[a].key() != first.key());
            }
        }
    }
    assert(has_key(once.work, second.key()));
    lemma_held_once(once.work, first.id@);
}

/// The transition table. Work goes from pending to in progress and from there
/// to completed or failed; a pending unit may stay pending and a unit in
/// progress may stay in progress. Nothing leaves a completed or a failed
/// unit, and nothing reaches or leaves the unknown state.
pub proof fn law_transition_table(from: WorkState, to: WorkState)
    ensures
        WorkState::Pending.permits(WorkState::InProgress),
        WorkState::InProgress.permits(WorkState::Completed),
        WorkState::InProgress.permits(WorkState::Failed),
        !WorkState::Completed.permits(WorkState::Pending),
        from.is_terminal() ==> !from.permits(to),
        !from.permits(WorkState::Unknown),
        !WorkState::Unknown.permits(to),
        from.permits(to) ==> from == WorkState::Pending || from == WorkState::InProgress,
{
}

/// A claim takes no unit from the executor that holds it. After any round of
/// claims on any queue, a unit that did not wait for an executor before is
/// what it was, and a unit that did wait is what it was but for its executor.
pub proof fn law_claims_respect_holders(work: Seq<Work>, claims: Seq<(String, String)>)
    ensures
        after_claims(work, claims).len() == work.len(),
        forall|i: int|
            0 <= i < work.len() && !(#[trigger] work[i]).is_unallocated() ==> after_claims(
                work,
                claims,
            )[i] == work[i],
        forall|i: int|
            0 <= i < work.len() ==> (#[trigger] after_claims(work, claims)[i]) == (Work {
                executor_id: after_claims(work, claims)[i].executor_id,
                ..work[i]
            }),
    decreases claims.len(),
{
    if claims.len() > 0 {
        let mid = after_claims(work, claims.drop_last());
        law_claims_respect_holders(work, claims.drop_last());
        lemma_claim_keeps_keys(mid, claims.last());
        let after = after_claim(mid, claims.last());
        assert forall|i: int| 0 <= i < work.len() && !(#[trigger] work[i]).is_unallocated() implies after[i]
            == work[i] by {
            assert(mid[i] == work[i]);
        }
        assert forall|i: int| 0 <= i < work.len() implies (#[trigger] after[i]) == (Work {
            executor_id: after[i].executor_id,
            ..work[i]
        }) by {
            assert(mid[i] == (Work { executor_id: mid[i].executor_id, ..work[i] }));
        }
    }
}

/// Two lists of the same length, filtered by two predicates that agree place
/// by place, keep the same places: the filtered lists have the same length,
/// and what stands at a place of the one is related to what stands at that
/// place of the other as the lists themselves are related place by place.
pub proof fn lemma_filter_in_step<A, B>(
    a: Seq<A>,
    b: Seq<B>,
    p: spec_fn(A) -> bool,
    q: spec_fn(B) -> bool,
    related: spec_fn(A, B) -> bool,
)
    requires
        a.len() == b.len(),
        forall|i: int| 0 <= i < a.len() ==> p(#[trigger] a[i]) == q(b[i]),
        forall|i: int| 0 <= i < a.len() ==> related(#[trigger] a[i], b[i]),
    ensures
        a.filter(p).len() == b.filter(q).len(),
        forall|k: int| 0 <= k < a.filter(p).len() ==> related(#[trigger] a.filter(p)[k], b.filter(q)[k]),
    decreases a.len(),
{
    reveal(Seq::filter);
    if a.len() > 0 {
        let n = a.len() - 1;
        assert(p(a[n]) == q(b[n]));
        assert(related(a[n], b[n]));
        assert forall|i: int| 0 <= i < a.drop_last().len() implies p(#[trigger] a.drop_last()[i])
            == q(b.drop_last()[i]) by {
            assert(p(a[i]) == q(b[i]));
        }
        assert forall|i: int| 0 <= i < a.drop_last().len() implies related(
            #[trigger] a.drop_last()[i],
            b.drop_last()[i],
        ) by {
            assert(related(a[i], b[i]));
        }
        lemma_filter_in_step(a.drop_last(), b.drop_last(), p, q, related);
    }
}

/// Content that a binding has processed is no longer selected for it. After
/// a binding has processed a content item, in any store, no selection for
/// that binding returns the item, whatever the repository and whether or not
/// one item is asked for.
pub proof fn law_processed_content_is_not_selected(
    s: RepositoryState,
    repository: Seq<char>,
    binding: ExtractorBinding,
    content_id: Seq<char>,
    asked: Option<Seq<char>>,
)
    ensures
        forall|k: int|
            0 <= k < s.with_processed(content_id, binding.name@).content_with_unapplied_extractor(
                repository,
                binding,
                asked,
            ).len() ==> (#[trigger] s.with_processed(
                content_id,
                binding.name@,
            ).content_with_unapplied_extractor(repository, binding, asked)[k]).id != content_id,
{
    let after = s.with_processed(content_id, binding.name@);
    let p = |row: ContentRowView| needs_processing(row, repository, binding, asked);
    let found = after.contents.filter(p);
    assert forall|k: int| 0 <= k < found.len() implies (#[trigger] found[k]).id != content_id by {
        after.contents.lemma_filter_pred(p, k);
        assert(found.contains(found[k]));
        after.contents.lemma_filter_contains_rev(p, found[k]);
        let j = choose|j: int| 0 <= j < after.contents.len() && after.contents[j] == found[k];
        if found[k].id == content_id {
            assert(s.contents[j].id == content_id);
            assert(after.contents[j].is_processed_by(binding.name@));
        }
    }
}

/// Marking one binding does not change what is selected for another. After a
/// binding has processed a content item, in any store, a selection for a
/// binding of another name returns the items it returned before, each changed
/// in nothing but its markers.
pub proof fn law_selection_for_other_bindings_is_kept(
    s: RepositoryState,
    repository: Seq<char>,
    marked_binding: Seq<char>,
    other: ExtractorBinding,
    content_id: Seq<char>,
    asked: Option<Seq<char>>,
)
    requires
        other.name@ != marked_binding,
    ensures
        ({
            let before = s.content_with_unapplied_extractor(repository, other, asked);
            let after = s.with_processed(content_id, marked_binding).content_with_unapplied_extractor(
                repository,
                other,
                asked,
            );
            &&& after.len() == before.len()
            &&& forall|k: int|
                0 <= k < before.len() ==> (#[trigger] after[k]) == (ContentRowView {
                    markers: after[k].markers,
                    ..before[k]
                })
        }),
{
    let marked = s.with_processed(content_id, marked_binding);
    let p = |row: ContentRowView| needs_processing(row, repository, other, asked);
    let related = |a: ContentRowView, b: ContentRowView| a == (ContentRowView { markers: a.markers, ..b });
    assert forall|i: int| 0 <= i < marked.contents.len() implies p(#[trigger] marked.contents[i])
        == p(s.contents[i]) by {
        assert(marker_of(marked.contents[i].markers, other.name@) == marker_of(
            s.contents[i].markers,
            other.name@,
        ));
    }
    assert forall|i: int| 0 <= i < marked.contents.len() implies related(
        #[trigger] marked.contents[i],
        s.contents[i],
    ) by {}
    lemma_filter_in_step(marked.contents, s.contents, p, p, related);
    let before = s.contents.filter(p);
    let after = marked.contents.filter(p);
    assert forall|k: int| 0 <= k < before.len() implies (#[trigger] after[k]) == (ContentRowView {
        markers: after[k].markers,
        ..before[k]
    }) by {
        assert(related(after[k], before[k]));
    }
}

/// What a binding has processed stays processed. Marking, by any binding and
/// on any item, takes no marker away: an item that a binding had processed
/// before is processed by it afterwards.
pub proof fn law_completion_is_kept(
    s: RepositoryState,
    content_id: Seq<char>,
    binding: Seq<char>,
    i: int,
    any: Seq<char>,
)
    requires
        0 <= i < s.contents.len(),
        s.contents[i].is_processed_by(any),
    ensures
        s.with_processed(content_id, binding).contents[i].is_processed_by(any),
{
}

/// A binding without filters selects all the content of its repository that
/// it has not processed.
pub proof fn law_binding_without_filters_selects_all(
    row: ContentRowView,
    repository: Seq<char>,
    binding: ExtractorBinding,
)
    requires
        binding.filters@.len() == 0,
    ensures
        needs_processing(row, repository, binding, None) == (row.repository_id == repository
            && !row.is_processed_by(binding.name@)),
{
}

/// A repository and the events that announce its bindings land together or
/// not at all. A registration in any store either is refused and changes
/// nothing, or writes the repository and logs one event for each of its
/// bindings, in their order.
pub proof fn law_repository_and_events_land_together(
    s: RepositoryState,
    given: DataRepository,
    ids: Seq<Seq<char>>,
)
    requires
        ids.len() == given.extractor_bindings@.len(),
    ensures
        ({
            let after = s.with_repository(given, ids);
            &&& s.refuses_repository(given, ids) ==> after == s
            &&& !s.refuses_repository(given, ids) ==> {
                &&& has_key(after.repositories, given.name@)
                &&& after.repositories.len() >= s.repositories.len()
                &&& after.extraction_events.len() == s.extraction_events.len()
                    + given.extractor_bindings@.len()
                &&& forall|k: int|
                    0 <= k < given.extractor_bindings@.len()
                        ==> #[trigger] after.extraction_events[s.extraction_events.len() + k]
                        == (ExtractionEventRowView {
                        event: ExtractionEventView::binding_added(
                            ids[k],
                            given.name@,
                            given.extractor_bindings@[k].name@,
                        ),
                        processed_at: None,
                    })
            }
        }),
{
    let after = s.with_repository(given, ids);
    if !s.refuses_repository(given, ids) {
        let rows = upserted(s.repositories, given);
        if has_key(s.repositories, given.name@) {
            let i = choose|i: int|
                0 <= i < s.repositories.len() && (#[trigger] s.repositories[i]).key() == given.name@;
            assert(rows[i].key() == given.name@);
        } else {
            assert(rows[s.repositories.len() as int].key() == given.name@);
        }
        let added = binding_events(given.name@, given.extractor_bindings@, ids);
        assert forall|k: int| 0 <= k < given.extractor_bindings@.len() implies #[trigger] after.extraction_events[s.extraction_events.len()
            + k] == added[k] by {}
    }
}

} // verus!
