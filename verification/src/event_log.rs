use crate::error::RepositoryError;
use crate::events::{ExtractionEvent, ExtractionEventRow, ExtractionEventRowView, ExtractionEventView};
use crate::outside::{same_text, unix_seconds};
use crate::store::{lemma_announced_same_events, Repository, RepositoryState};
use crate::table::{
    distinct_keys, find_row, has_key, lemma_filter_next, lemma_key_once, lemma_views_keys, views_of,
    Key,
};
use vstd::prelude::*;

verus! {

/// The identifier at `i` is taken: the log holds it, or an identifier before
/// it in the list is the same.
pub open spec fn is_taken(log: Seq<ExtractionEventRowView>, ids: Seq<Seq<char>>, i: int) -> bool {
    has_key(log, ids[i]) || exists|j: int| 0 <= j < i && #[trigger] ids[j] == ids[i]
}

/// No identifier of the list is taken.
pub open spec fn all_free(log: Seq<ExtractionEventRowView>, ids: Seq<Seq<char>>) -> bool {
    forall|i: int| 0 <= i < ids.len() ==> !#[trigger] is_taken(log, ids, i)
}

/// The identifier at `i` is the first of the list that is taken.
pub open spec fn first_taken(log: Seq<ExtractionEventRowView>, ids: Seq<Seq<char>>, i: int) -> bool {
    &&& 0 <= i < ids.len()
    &&& is_taken(log, ids, i)
    &&& all_free(log, ids.take(i))
}

/// The texts of a list of strings.
pub open spec fn ids_of(strings: Seq<String>) -> Seq<Seq<char>> {
    strings.map_values(|s: String| s@)
}

/// Finds the first identifier of the list that is taken.
pub fn find_taken(log: &Vec<ExtractionEventRow>, ids: &Vec<String>) -> (r: Option<usize>)
    ensures
        match r {
            Some(i) => first_taken(views_of(log@), ids_of(ids@), i as int),
            None => all_free(views_of(log@), ids_of(ids@)),
        },
{
    let ghost rows = views_of(log@);
    let ghost texts = ids_of(ids@);
    proof {
        lemma_views_keys(log@);
    }
    let mut i: usize = 0;
    while i < ids.len()
        invariant
            i <= ids@.len(),
            rows == views_of(log@),
            texts == ids_of(ids@),
            forall|key: Seq<char>| has_key(rows, key) == has_key(log@, key),
            forall|k: int| 0 <= k < i ==> !#[trigger] is_taken(rows, texts, k),
        decreases ids@.len() - i,
    {
        let in_log = find_row(log, ids[i].as_str()).is_some();
        assert(texts[i as int] == ids@[i as int]@);
        assert(in_log == has_key(rows, texts[i as int]));
        let mut repeated = false;
        let mut j: usize = 0;
        while !repeated && j < i
            invariant
                j <= i < ids@.len(),
                texts == ids_of(ids@),
                !repeated ==> forall|k: int| 0 <= k < j ==> #[trigger] texts[k] != texts[i as int],
                repeated ==> exists|m: int| 0 <= m < i && #[trigger] texts[m] == texts[i as int],
            decreases i - j + (if repeated { 0int } else { 1int }),
        {
            if same_text(ids[j].as_str(), ids[i].as_str()) {
                assert(texts[j as int] == texts[i as int]);
                repeated = true;
            } else {
                j += 1;
            }
        }
        let taken = in_log || repeated;
        assert(taken == is_taken(rows, texts, i as int));
        if taken {
            proof {
                let head = texts.take(i as int);
                assert forall|k: int| 0 <= k < head.len() implies !#[trigger] is_taken(
                    rows,
                    head,
                    k,
                ) by {
                    assert(!is_taken(rows, texts, k));
                    if exists|m: int| 0 <= m < k && #[trigger] head[m] == head[k] {
                        let m = choose|m: int| 0 <= m < k && #[trigger] head[m] == head[k];
                        assert(texts[m] == texts[k]);
                    }
                }
            }
            return Some(i);
        }
        i += 1;
    }
    None
}

/// Once the identifiers are free, a log that takes an event under each of
/// them keeps its keys apart.
pub proof fn lemma_log_takes_events(
    log: Seq<ExtractionEventRowView>,
    added: Seq<ExtractionEventRowView>,
    ids: Seq<Seq<char>>,
)
    requires
        distinct_keys(log),
        all_free(log, ids),
        added.len() == ids.len(),
        forall|i: int| 0 <= i < added.len() ==> (#[trigger] added[i]).event.id == ids[i],
    ensures
        distinct_keys(log + added),
{
    let after = log + added;
    assert forall|a: int, b: int| 0 <= a < b < after.len() implies (#[trigger] after[a]).key() != (
    #[trigger] after[b]).key() by {
        if b < log.len() {
            assert(log[a].key() != log[b].key());
        } else {
            let i = b - log.len();
            assert(!is_taken(log, ids, i));
            assert(after[b].key() == ids[i]);
            if a < log.len() {
                assert(log[a].key() == after[a].key());
            } else {
                let j = a - log.len();
                assert(after[a].key() == ids[j]);
            }
        }
    }
}

/// The row once it is acknowledged at the time. A row that was acknowledged
/// before keeps the time of its first acknowledgment.
pub open spec fn acknowledged(row: ExtractionEventRowView, now: u64) -> ExtractionEventRowView {
    if row.processed_at is None {
        ExtractionEventRowView { processed_at: Some(now), ..row }
    } else {
        row
    }
}

impl RepositoryState {
    /// The events that no consumer has acknowledged, in the order in which
    /// they were logged.
    pub open spec fn unprocessed_extraction_events(self) -> Seq<ExtractionEventView> {
        self.extraction_events.filter(
            |row: ExtractionEventRowView| row.processed_at is None,
        ).map_values(|row: ExtractionEventRowView| row.event)
    }

    /// The store after the event with the identifier was acknowledged at the
    /// time.
    pub open spec fn with_acknowledged(self, id: Seq<char>, now: u64) -> RepositoryState {
        RepositoryState {
            extraction_events: self.extraction_events.map_values(
                |row: ExtractionEventRowView|
                    if row.event.id == id {
                        acknowledged(row, now)
                    } else {
                        row
                    },
            ),
            ..self
        }
    }
}

impl Repository {
    /// The events that no consumer has acknowledged. An event stays in this
    /// list until it is acknowledged, so a consumer that stops between
    /// reading and acknowledging reads it again.
    pub fn unprocessed_extraction_events(&self) -> (r: Result<Vec<ExtractionEvent>, RepositoryError>)
        ensures
            r is Ok,
            views_of(r->Ok_0@) == self@.unprocessed_extraction_events(),
    {
        let ghost rows = self@.extraction_events;
        let ghost p = |row: ExtractionEventRowView| row.processed_at is None;
        let ghost f = |row: ExtractionEventRowView| row.event;
        let mut found: Vec<ExtractionEvent> = Vec::new();
        let mut i: usize = 0;
        proof {
            reveal(Seq::filter);
            assert(rows.take(0).filter(p) =~= Seq::empty());
            assert(views_of(found@) =~= rows.take(0).filter(p).map_values(f));
        }
        while i < self.extraction_events.len()
            invariant
                i <= self.extraction_events@.len(),
                rows == views_of(self.extraction_events@),
                p == |row: ExtractionEventRowView| row.processed_at is None,
                f == |row: ExtractionEventRowView| row.event,
                views_of(found@) == rows.take(i as int).filter(p).map_values(f),
            decreases self.extraction_events@.len() - i,
        {
            proof {
                lemma_filter_next(rows, p, i as int);
            }
            let row = &self.extraction_events[i];
            assert(rows[i as int] == row@);
            if row.processed_at.is_none() {
                let ghost held = found@;
                found.push(row.event.clone());
                assert(views_of(found@) =~= views_of(held).push(row@.event));
                assert(rows.take(i + 1).filter(p).map_values(f) =~= rows.take(i as int).filter(
                    p,
                ).map_values(f).push(row@.event));
            }
            i += 1;
        }
        assert(rows.take(i as int) =~= rows);
        Ok(found)
    }

    /// Acknowledges an event at the time given. Acknowledging an event again
    /// is harmless: it keeps the time of its first acknowledgment. Where the
    /// log does not hold the event, nothing changes and the error names it.
    pub fn mark_extraction_event_as_processed_at(&mut self, extraction_id: &str, now: u64) -> (r:
        Result<(), RepositoryError>)
        requires
            old(self).wf(),
        ensures
            final(self).wf(),
            final(self)@ == old(self)@.with_acknowledged(extraction_id@, now),
            match r {
                Ok(_) => has_key(old(self)@.extraction_events, extraction_id@),
                Err(RepositoryError::ExtractionEventNotFound(key)) => !has_key(
                    old(self)@.extraction_events,
                    extraction_id@,
                ) && key@ == extraction_id@,
                Err(_) => false,
            },
    {
        let ghost before = self@;
        let ghost held = self.extraction_events@;
        proof {
            lemma_views_keys(held);
        }
        match find_row(&self.extraction_events, extraction_id) {
            Some(i) => {
                if self.extraction_events[i].processed_at.is_none() {
                    let mut row = self.extraction_events.remove(i);
                    row.processed_at = Some(now);
                    self.extraction_events.insert(i, row);
                }
                proof {
                    let after = views_of(self.extraction_events@);
                    let wanted = before.with_acknowledged(extraction_id@, now).extraction_events;
                    assert forall|j: int| 0 <= j < held.len() && (#[trigger] held[j]).key()
                        == extraction_id@ implies j == i by {
                        lemma_key_once(held, i as int, j);
                    }
                    assert(after.len() == wanted.len());
                    assert forall|j: int| 0 <= j < after.len() implies after[j] == wanted[j] by {
                        if j != i {
                            assert(self.extraction_events@[j] == held[j]);
                            assert(held[j].key() != extraction_id@);
                        }
                    }
                    assert(after =~= wanted);
                    assert forall|a: int, b: int| 0 <= a < b < after.len() implies (
                    #[trigger] after[a]).key() != (#[trigger] after[b]).key() by {
                        assert(before.extraction_events[a].key() != before.extraction_events[b].key());
                    }
                    lemma_announced_same_events(before.contents, before.extraction_events, after);
                    assert(before.extraction_events[i as int].key() == extraction_id@);
                }
                Ok(())
            },
            None => {
                proof {
                    let wanted = before.with_acknowledged(extraction_id@, now).extraction_events;
                    assert forall|j: int| 0 <= j < held.len() implies (#[trigger] held[j]).key()
                        != extraction_id@ by {}
                    assert(wanted =~= before.extraction_events);
                }
                Err(RepositoryError::ExtractionEventNotFound(extraction_id.to_owned()))
            },
        }
    }

    /// Acknowledges an event now. The time is read from the clock, in seconds
    /// since the epoch, and taken as 0 where the clock gives none; what is
    /// written is what `mark_extraction_event_as_processed_at` writes for
    /// that time.
    pub fn mark_extraction_event_as_processed(&mut self, extraction_id: &str) -> (r: Result<
        (),
        RepositoryError,
    >)
        requires
            old(self).wf(),
        ensures
            final(self).wf(),
            exists|now: u64| #[trigger] old(self)@.with_acknowledged(extraction_id@, now) == final(self)@,
            r is Ok <==> has_key(old(self)@.extraction_events, extraction_id@),
    {
        let now = match unix_seconds() {
            Some(t) => t,
            None => 0,
        };
        let r = self.mark_extraction_event_as_processed_at(extraction_id, now);
        assert(old(self)@.with_acknowledged(extraction_id@, now) == self@);
        r
    }
}

} // verus!
