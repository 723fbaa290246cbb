use crate::error::RepositoryError;
use crate::store::{Repository, RepositoryState};
use crate::table::{
    distinct_keys, find_row, insert_or_ignore, inserted_or_ignored, lemma_filter_next,
    lemma_key_once, lemma_row_with_key, row_with_key, Key,
};
use crate::work::{Work, WorkState};
use vstd::prelude::*;

verus! {

/// The unit in the hands of the executor.
pub open spec fn handed_to(w: Work, executor: String) -> Work {
    Work { executor_id: Some(executor), ..w }
}

/// The unit moved to the state.
pub open spec fn moved_to(w: Work, state: WorkState) -> Work {
    Work { work_state: state, ..w }
}

/// Whether a claim on the unit with the identifier succeeds: the unit is there
/// and still waits for an executor.
pub open spec fn claim_succeeds(work: Seq<Work>, work_id: Seq<char>) -> bool {
    exists|i: int| 0 <= i < work.len() && (#[trigger] work[i]).id@ == work_id && work[i].is_unallocated()
}

/// Whether a claim on the unit with the identifier is turned down: the unit is
/// there and no longer waits for an executor.
pub open spec fn claim_is_rejected(work: Seq<Work>, work_id: Seq<char>) -> bool {
    exists|i: int|
        0 <= i < work.len() && (#[trigger] work[i]).id@ == work_id && !work[i].is_unallocated()
}

/// The queue after one claim: the unit named in it, if it still waits for an
/// executor, is in the hands of the executor named in it.
pub open spec fn after_claim(work: Seq<Work>, claim: (String, String)) -> Seq<Work> {
    work.map_values(
        |w: Work|
            if w.id@ == claim.0@ && w.is_unallocated() {
                handed_to(w, claim.1)
            } else {
                w
            },
    )
}

/// The queue after the claims, made one after the other.
pub open spec fn after_claims(work: Seq<Work>, claims: Seq<(String, String)>) -> Seq<Work>
    decreases claims.len(),
{
    if claims.len() == 0 {
        work
    } else {
        after_claim(after_claims(work, claims.drop_last()), claims.last())
    }
}

/// The units that the claims, made one after the other, have won.
pub open spec fn won_by(work: Seq<Work>, claims: Seq<(String, String)>) -> Seq<Seq<char>>
    decreases claims.len(),
{
    if claims.len() == 0 {
        Seq::empty()
    } else {
        let earlier = won_by(work, claims.drop_last());
        if claim_succeeds(after_claims(work, claims.drop_last()), claims.last().0@) {
            earlier.push(claims.last().0@)
        } else {
            earlier
        }
    }
}

/// The units on which a claim, made after the ones before it, was turned down.
pub open spec fn lost_by(work: Seq<Work>, claims: Seq<(String, String)>) -> Seq<Seq<char>>
    decreases claims.len(),
{
    if claims.len() == 0 {
        Seq::empty()
    } else {
        let earlier = lost_by(work, claims.drop_last());
        if claim_is_rejected(after_claims(work, claims.drop_last()), claims.last().0@) {
            earlier.push(claims.last().0@)
        } else {
            earlier
        }
    }
}

/// What came of a round of claims: the units won and the units on which a
/// claim was turned down, each in the order of the claims.
#[derive(Debug)]
pub struct AssignmentReport {
    pub assigned: Vec<String>,
    pub rejected: Vec<String>,
}

/// The texts of a list of strings.
pub open spec fn texts_of(strings: Seq<String>) -> Seq<Seq<char>> {
    strings.map_values(|s: String| s@)
}

impl RepositoryState {
    /// The store after a unit of work was offered to it: a unit whose
    /// identifier is new is queued, any other is dropped.
    pub open spec fn with_work(self, w: Work) -> RepositoryState {
        RepositoryState { work: inserted_or_ignored(self.work, w), ..self }
    }

    /// The unit with the identifier, if the queue holds it.
    pub open spec fn work_by_id(self, id: Seq<char>) -> Option<Work> {
        row_with_key(self.work, id)
    }

    /// The units that wait for an executor.
    pub open spec fn unallocated_work(self) -> Seq<Work> {
        self.work.filter(|w: Work| w.is_unallocated())
    }

    /// The units that are pending in the hands of the executor.
    pub open spec fn work_for_worker(self, executor: Seq<char>) -> Seq<Work> {
        self.work.filter(|w: Work| w.is_pending_for(executor))
    }

    /// The store after the claims, made one after the other.
    pub open spec fn with_claims(self, claims: Seq<(String, String)>) -> RepositoryState {
        RepositoryState { work: after_claims(self.work, claims), ..self }
    }

    /// The store after the unit with the identifier moved to the state.
    pub open spec fn with_work_state(self, id: Seq<char>, state: WorkState) -> RepositoryState {
        RepositoryState {
            work: self.work.map_values(
                |w: Work|
                    if w.id@ == id {
                        moved_to(w, state)
                    } else {
                        w
                    },
            ),
            ..self
        }
    }
}

/// A claim keeps the identifiers of the queue, each at its place.
pub proof fn lemma_claim_keeps_keys(work: Seq<Work>, claim: (String, String))
    ensures
        after_claim(work, claim).len() == work.len(),
        forall|i: int| 0 <= i < work.len() ==> (#[trigger] after_claim(work, claim)[i]).id == work[i].id,
        distinct_keys(work) ==> distinct_keys(after_claim(work, claim)),
{
    let after = after_claim(work, claim);
    if distinct_keys(work) {
        assert forall|i: int, j: int| 0 <= i < j < after.len() implies (#[trigger] after[i]).key() != (
        #[trigger] after[j]).key() by {
            assert(work[i].key() != work[j].key());
        }
    }
}

impl Repository {
    /// Queues a unit of work. A unit whose identifier the queue holds already
    /// is dropped: queueing the same unit again changes nothing.
    pub fn insert_work(&mut self, work: &Work) -> (r: Result<(), RepositoryError>)
        requires
            old(self).wf(),
        ensures
            final(self).wf(),
            r is Ok,
            final(self)@ == old(self)@.with_work(*work),
    {
        insert_or_ignore(&mut self.work, work.clone());
        Ok(())
    }

    /// The unit with the identifier.
    pub fn work_by_id(&self, id: &str) -> (r: Result<Work, RepositoryError>)
        requires
            self.wf(),
        ensures
            match r {
                Ok(w) => self@.work_by_id(id@) == Some(w),
                Err(RepositoryError::WorkNotFound(key)) => self@.work_by_id(id@) is None && key@
                    == id@,
                Err(_) => false,
            },
    {
        match find_row(&self.work, id) {
            Some(i) => {
                proof {
                    lemma_row_with_key(self.work@, i as int);
                }
                Ok(self.work[i].clone())
            },
            None => Err(RepositoryError::WorkNotFound(id.to_owned())),
        }
    }

    /// The units that wait for an executor, in the order in which they were
    /// queued.
    pub fn unallocated_work(&self) -> (r: Result<Vec<Work>, RepositoryError>)
        ensures
            r is Ok,
            r->Ok_0@ == self@.unallocated_work(),
    {
        let ghost p = |w: Work| w.is_unallocated();
        let mut found: Vec<Work> = Vec::new();
        let mut i: usize = 0;
        proof {
            reveal(Seq::filter);
            assert(self.work@.take(0).filter(p) =~= Seq::empty());
        }
        while i < self.work.len()
            invariant
                i <= self.work@.len(),
                p == |w: Work| w.is_unallocated(),
                found@ == self.work@.take(i as int).filter(p),
            decreases self.work@.len() - i,
        {
            proof {
                lemma_filter_next(self.work@, p, i as int);
            }
            let w = &self.work[i];
            let waits = match w.work_state {
                WorkState::Pending => w.executor_id.is_none(),
                _ => false,
            };
            if waits {
                found.push(w.clone());
            }
            i += 1;
        }
        assert(self.work@.take(i as int) =~= self.work@);
        Ok(found)
    }

    /// The units that are pending in the hands of the executor, in the order
    /// in which they were queued.
    pub fn work_for_worker(&self, worker_id: &str) -> (r: Result<Vec<Work>, RepositoryError>)
        ensures
            r is Ok,
            r->Ok_0@ == self@.work_for_worker(worker_id@),
    {
        let ghost p = |w: Work| w.is_pending_for(worker_id@);
        let mut found: Vec<Work> = Vec::new();
        let mut i: usize = 0;
        proof {
            reveal(Seq::filter);
            assert(self.work@.take(0).filter(p) =~= Seq::empty());
        }
        while i < self.work.len()
            invariant
                i <= self.work@.len(),
                p == |w: Work| w.is_pending_for(worker_id@),
                found@ == self.work@.take(i as int).filter(p),
            decreases self.work@.len() - i,
        {
            proof {
                lemma_filter_next(self.work@, p, i as int);
            }
            let w = &self.work[i];
            let held = match (&w.work_state, &w.executor_id) {
                (WorkState::Pending, Some(e)) => crate::outside::same_text(e.as_str(), worker_id),
                _ => false,
            };
            if held {
                found.push(w.clone());
            }
            i += 1;
        }
        assert(self.work@.take(i as int) =~= self.work@);
        Ok(found)
    }
}

impl Repository {
    /// Hands units of work to executors. Each claim names a unit and an
    /// executor, and the claims are made one after the other: a claim wins the
    /// unit only if the unit still waits for an executor, so no claim takes a
    /// unit from the executor that holds it. The report lists the units won
    /// and the units on which a claim was turned down; a claim on a unit that
    /// the queue does not hold is in neither list.
    pub fn assign_work(&mut self, allocation: Vec<(String, String)>) -> (r: Result<
        AssignmentReport,
        RepositoryError,
    >)
        requires
            old(self).wf(),
        ensures
            final(self).wf(),
            final(self)@ == old(self)@.with_claims(allocation@),
            r is Ok,
            texts_of(r->Ok_0.assigned@) == won_by(old(self)@.work, allocation@),
            texts_of(r->Ok_0.rejected@) == lost_by(old(self)@.work, allocation@),
    {
        let ghost before = self@;
        let mut assigned: Vec<String> = Vec::new();
        let mut rejected: Vec<String> = Vec::new();
        let mut k: usize = 0;
        assert(texts_of(assigned@) =~= Seq::empty());
        assert(texts_of(rejected@) =~= Seq::empty());
        assert(allocation@.take(0) =~= Seq::empty());
        while k < allocation.len()
            invariant
                k <= allocation@.len(),
                before.wf(),
                self@ == (RepositoryState { work: self.work@, ..before }),
                distinct_keys(self.work@),
                self.work@ == after_claims(before.work, allocation@.take(k as int)),
                texts_of(assigned@) == won_by(before.work, allocation@.take(k as int)),
                texts_of(rejected@) == lost_by(before.work, allocation@.take(k as int)),
            decreases allocation@.len() - k,
        {
            let ghost claims = allocation@.take(k + 1);
            let ghost queue = self.work@;
            let ghost claim = allocation@[k as int];
            assert(claims.drop_last() =~= allocation@.take(k as int));
            assert(claims.last() == claim);
            match find_row(&self.work, allocation[k].0.as_str()) {
                Some(i) => {
                    let waits = match self.work[i].work_state {
                        WorkState::Pending => self.work[i].executor_id.is_none(),
                        _ => false,
                    };
                    assert forall|j: int| 0 <= j < queue.len() && (#[trigger] queue[j]).id@
                        == claim.0@ implies j == i by {
                        lemma_key_once(queue, i as int, j);
                    }
                    if waits {
                        let mut w = self.work[i].clone();
                        w.executor_id = Some(allocation[k].1.clone());
                        self.work.set(i, w);
                        assigned.push(allocation[k].0.clone());
                        assert(self.work@ =~= after_claim(queue, claim));
                        assert(claim_succeeds(queue, claim.0@));
                        assert(texts_of(assigned@) =~= won_by(before.work, claims));
                    } else {
                        rejected.push(allocation[k].0.clone());
                        assert(self.work@ =~= after_claim(queue, claim));
                        assert(claim_is_rejected(queue, claim.0@));
                        assert(texts_of(rejected@) =~= lost_by(before.work, claims));
                    }
                },
                None => {
                    assert(self.work@ =~= after_claim(queue, claim));
                },
            }
            proof {
                lemma_claim_keeps_keys(queue, claim);
            }
            k += 1;
        }
        assert(allocation@.take(k as int) =~= allocation@);
        Ok(AssignmentReport { assigned, rejected })
    }

    /// Moves a unit of work to a new state, if the transition table has an
    /// arrow from the state it is in, and gives the unit back as it then
    /// stands. A move that the table does not have is refused and changes
    /// nothing, and so is a move of a unit that the queue does not hold.
    pub fn update_work_state(&mut self, work_id: &str, state: &WorkState) -> (r: Result<
        Work,
        RepositoryError,
    >)
        requires
            old(self).wf(),
        ensures
            final(self).wf(),
            match old(self)@.work_by_id(work_id@) {
                None => final(self)@ == old(self)@ && (r matches Err(
                    RepositoryError::WorkNotFound(key),
                ) && key@ == work_id@),
                Some(w) => if w.work_state.permits(*state) {
                    &&& final(self)@ == old(self)@.with_work_state(work_id@, *state)
                    &&& r == Ok::<Work, RepositoryError>(moved_to(w, *state))
                } else {
                    &&& final(self)@ == old(self)@
                    &&& r matches Err(RepositoryError::IllegalTransition { work_id: key, from, to })
                    &&& key@ == work_id@
                    &&& from == w.work_state
                    &&& to == *state
                },
            },
    {
        let ghost queue = self.work@;
        match find_row(&self.work, work_id) {
            Some(i) => {
                proof {
                    lemma_row_with_key(queue, i as int);
                    assert forall|j: int| 0 <= j < queue.len() && (#[trigger] queue[j]).id@
                        == work_id@ implies j == i by {
                        lemma_key_once(queue, i as int, j);
                    }
                }
                let from = self.work[i].work_state;
                if from.can_transition_to(*state) {
                    let mut w = self.work[i].clone();
                    w.work_state = *state;
                    let moved = w.clone();
                    self.work.set(i, w);
                    proof {
                        assert(self.work@ =~= old(self)@.with_work_state(work_id@, *state).work);
                        assert forall|a: int, b: int| 0 <= a < b < self.work@.len() implies (
                        #[trigger] self.work@[a]).key() != (#[trigger] self.work@[b]).key() by {
                            assert(queue[a].key() != queue[b].key());
                        }
                    }
                    Ok(moved)
                } else {
                    Err(
                        RepositoryError::IllegalTransition {
                            work_id: work_id.to_owned(),
                            from,
                            to: *state,
                        },
                    )
                }
            },
            None => Err(RepositoryError::WorkNotFound(work_id.to_owned())),
        }
    }
}

} // verus!
