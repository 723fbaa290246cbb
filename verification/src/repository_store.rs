use crate::binding::{all_well_formed, DataRepository, ExtractorBinding};
use crate::error::RepositoryError;
use crate::event_log::{all_free, find_taken, first_taken, ids_of, is_taken, lemma_log_takes_events};
use crate::events::{ExtractionEvent, ExtractionEventRow, ExtractionEventRowView, ExtractionEventView};
use crate::outside::{random_token, same_text};
use crate::store::{lemma_announced_with_other_events, Repository, RepositoryState};
use crate::table::{
    distinct_keys, find_row, has_key, lemma_key_once, lemma_row_with_key, row_with_key, views_of, Key,
};
use vstd::prelude::*;

verus! {

/// Whether every filter of every binding of the list compares with a string.
pub open spec fn all_registrable(bindings: Seq<ExtractorBinding>) -> bool {
    forall|k: int| 0 <= k < bindings.len() ==> all_well_formed((#[trigger] bindings[k]).filters@)
}

/// The binding at `k` is the first of the list with a filter that is not well
/// formed.
pub open spec fn first_unregistrable(bindings: Seq<ExtractorBinding>, k: int) -> bool {
    &&& 0 <= k < bindings.len()
    &&& !all_well_formed(bindings[k].filters@)
    &&& all_registrable(bindings.take(k))
}

/// The binding at `k` is the first of the list whose name an earlier one
/// carries.
pub open spec fn first_repeated(bindings: Seq<ExtractorBinding>, k: int) -> bool {
    &&& 0 <= k < bindings.len()
    &&& exists|j: int| 0 <= j < k && (#[trigger] bindings[j]).name@ == bindings[k].name@
    &&& distinct_keys(bindings.take(k))
}

/// Finds the first binding of the list whose name an earlier one carries.
pub fn find_repeated_name(bindings: &Vec<ExtractorBinding>) -> (r: Option<usize>)
    ensures
        match r {
            Some(k) => first_repeated(bindings@, k as int),
            None => distinct_keys(bindings@),
        },
{
    let mut k: usize = 0;
    while k < bindings.len()
        invariant
            k <= bindings@.len(),
            distinct_keys(bindings@.take(k as int)),
        decreases bindings@.len() - k,
    {
        let mut j: usize = 0;
        while j < k
            invariant
                j <= k < bindings@.len(),
                distinct_keys(bindings@.take(k as int)),
                forall|m: int| 0 <= m < j ==> (#[trigger] bindings@[m]).name@ != bindings@[k as int].name@,
            decreases k - j,
        {
            if same_text(bindings[j].name.as_str(), bindings[k].name.as_str()) {
                assert(bindings@[j as int].name@ == bindings@[k as int].name@);
                assert(first_repeated(bindings@, k as int));
                return Some(k);
            }
            j += 1;
        }
        proof {
            let seen = bindings@.take(k + 1);
            assert forall|a: int, b: int| 0 <= a < b < seen.len() implies (#[trigger] seen[a]).key() != (
            #[trigger] seen[b]).key() by {
                if b < k {
                    assert(bindings@.take(k as int)[a].key() != bindings@.take(k as int)[b].key());
                } else {
                    assert(bindings@[a].name@ != bindings@[k as int].name@);
                }
            }
        }
        k += 1;
    }
    assert(bindings@.take(k as int) =~= bindings@);
    None
}

/// The stored repository once `given` is written over it: the bindings and
/// the metadata are those given, the data connectors stay.
pub open spec fn overwritten(stored: DataRepository, given: DataRepository) -> DataRepository {
    DataRepository {
        extractor_bindings: given.extractor_bindings,
        metadata: given.metadata,
        ..stored
    }
}

/// The table of repositories after one was written to it, over the one of
/// the same name if there is one.
pub open spec fn upserted(rows: Seq<DataRepository>, given: DataRepository) -> Seq<DataRepository> {
    if has_key(rows, given.name@) {
        rows.map_values(
            |stored: DataRepository|
                if stored.name@ == given.name@ {
                    overwritten(stored, given)
                } else {
                    stored
                },
        )
    } else {
        rows.push(given)
    }
}

/// The events that announce the bindings, each under its identifier, none
/// acknowledged.
pub open spec fn binding_events(
    repository: Seq<char>,
    bindings: Seq<ExtractorBinding>,
    ids: Seq<Seq<char>>,
) -> Seq<ExtractionEventRowView> {
    Seq::new(
        bindings.len(),
        |i: int|
            ExtractionEventRowView {
                event: ExtractionEventView::binding_added(ids[i], repository, bindings[i].name@),
                processed_at: None,
            },
    )
}

/// The binding that a list holds under a name: the last one of that name.
pub open spec fn last_named(bindings: Seq<ExtractorBinding>, name: Seq<char>) -> Option<
    ExtractorBinding,
>
    decreases bindings.len(),
{
    if bindings.len() == 0 {
        None
    } else if bindings.last().name@ == name {
        Some(bindings.last())
    } else {
        last_named(bindings.drop_last(), name)
    }
}

/// No binding from `k` on carries the name: the list holds under the name
/// what its first `k` bindings hold.
pub proof fn lemma_last_named_skips(bindings: Seq<ExtractorBinding>, name: Seq<char>, k: int)
    requires
        0 <= k <= bindings.len(),
        forall|j: int| k <= j < bindings.len() ==> (#[trigger] bindings[j]).name@ != name,
    ensures
        last_named(bindings, name) == last_named(bindings.take(k), name),
    decreases bindings.len() - k,
{
    if k == bindings.len() {
        assert(bindings.take(k) =~= bindings);
    } else {
        let head = bindings.drop_last();
        assert(bindings.last().name@ != name);
        lemma_last_named_skips(head, name, k);
        assert(head.take(k) =~= bindings.take(k));
    }
}

impl RepositoryState {
    /// Whether a registration is refused: a binding has a filter that is not
    /// well formed, two bindings go by one name, or the log cannot take the
    /// events under the identifiers given.
    pub open spec fn refuses_repository(self, given: DataRepository, ids: Seq<Seq<char>>) -> bool {
        ||| !all_registrable(given.extractor_bindings@)
        ||| !distinct_keys(given.extractor_bindings@)
        ||| !all_free(self.extraction_events, ids)
    }

    /// The store after a registration. A registration that is refused changes
    /// nothing. Otherwise the repository is written and an event for each of
    /// its bindings is logged: repository and events land together.
    pub open spec fn with_repository(self, given: DataRepository, ids: Seq<Seq<char>>) -> RepositoryState {
        if self.refuses_repository(given, ids) {
            self
        } else {
            RepositoryState {
                repositories: upserted(self.repositories, given),
                extraction_events: self.extraction_events + binding_events(
                    given.name@,
                    given.extractor_bindings@,
                    ids,
                ),
                ..self
            }
        }
    }

    /// The repository of the name, if the store holds it.
    pub open spec fn repository_by_name(self, name: Seq<char>) -> Option<DataRepository> {
        row_with_key(self.repositories, name)
    }

    /// The binding of the name in the repository named, if the store holds
    /// the repository and the repository holds such a binding.
    pub open spec fn binding_by_id(self, repository: Seq<char>, name: Seq<char>) -> Option<
        ExtractorBinding,
    > {
        match self.repository_by_name(repository) {
            Some(holder) => last_named(holder.extractor_bindings@, name),
            None => None,
        }
    }
}

/// The error that a registration gives for the repository and identifiers.
pub open spec fn registration_error(
    log: Seq<ExtractionEventRowView>,
    given: DataRepository,
    ids: Seq<Seq<char>>,
    e: RepositoryError,
) -> bool {
    if !all_registrable(given.extractor_bindings@) {
        exists|k: int| #[trigger]
            first_unregistrable(given.extractor_bindings@, k)
                && given.extractor_bindings@[k].rejected_with(e)
    } else if !distinct_keys(given.extractor_bindings@) {
        exists|k: int| #[trigger]
            first_repeated(given.extractor_bindings@, k) && e.is_duplicate_binding(
                given.name@,
                given.extractor_bindings@[k].name@,
            )
    } else {
        exists|i: int| #[trigger]
            first_taken(log, ids, i) && e.is_database_error(ids[i])
    }
}

/// Checks the bindings before they are registered. The error is that of the
/// first binding with a filter that is not well formed.
pub fn validate_bindings(bindings: &Vec<ExtractorBinding>) -> (r: Result<(), RepositoryError>)
    ensures
        r is Ok <==> all_registrable(bindings@),
        r is Err ==> exists|k: int| #[trigger]
            first_unregistrable(bindings@, k) && bindings@[k].rejected_with(r->Err_0),
{
    let mut k: usize = 0;
    while k < bindings.len()
        invariant
            k <= bindings@.len(),
            all_registrable(bindings@.take(k as int)),
        decreases bindings@.len() - k,
    {
        match bindings[k].validate() {
            Ok(_) => {},
            Err(e) => {
                assert(first_unregistrable(bindings@, k as int));
                return Err(e);
            },
        }
        assert forall|j: int| 0 <= j < k + 1 implies all_well_formed(
            (#[trigger] bindings@.take(k + 1)[j]).filters@,
        ) by {
            if j < k {
                assert(all_well_formed(bindings@.take(k as int)[j].filters@));
            }
        }
        k += 1;
    }
    assert(bindings@.take(k as int) =~= bindings@);
    Ok(())
}

/// Finds the binding that the list holds under the name.
pub fn find_last_named<'a>(bindings: &'a Vec<ExtractorBinding>, name: &str) -> (r: Option<
    &'a ExtractorBinding,
>)
    ensures
        match r {
            Some(b) => last_named(bindings@, name@) == Some(*b),
            None => last_named(bindings@, name@) is None,
        },
{
    let mut k: usize = bindings.len();
    while k > 0
        invariant
            k <= bindings@.len(),
            forall|j: int| k <= j < bindings@.len() ==> (#[trigger] bindings@[j]).name@ != name@,
        decreases k,
    {
        if same_text(bindings[k - 1].name.as_str(), name) {
            proof {
                lemma_last_named_skips(bindings@, name@, k as int);
                assert(bindings@.take(k as int).last() == bindings@[k - 1]);
            }
            return Some(&bindings[k - 1]);
        }
        k -= 1;
    }
    proof {
        lemma_last_named_skips(bindings@, name@, 0);
        assert(bindings@.take(0) =~= Seq::empty());
    }
    None
}

impl Repository {
    /// Registers a repository with its bindings, with the events that
    /// announce the bindings logged under the identifiers given, one for each
    /// binding. A repository of the same name keeps its data connectors and
    /// takes the bindings and the metadata given. Every filter must compare
    /// with a string, no two bindings may go by one name, and every
    /// identifier must be free: else nothing is written, and the error names
    /// the first filter, the first binding or the first identifier at fault.
    pub fn upsert_repository_with_ids(&mut self, repository: DataRepository, ids: Vec<String>) -> (r:
        Result<(), RepositoryError>)
        requires
            old(self).wf(),
            ids@.len() == repository.extractor_bindings@.len(),
        ensures
            final(self).wf(),
            final(self)@ == old(self)@.with_repository(repository, ids_of(ids@)),
            r is Ok <==> !old(self)@.refuses_repository(repository, ids_of(ids@)),
            r is Err ==> registration_error(
                old(self)@.extraction_events,
                repository,
                ids_of(ids@),
                r->Err_0,
            ),
    {
        let ghost before = self@;
        let ghost texts = ids_of(ids@);
        let ghost bindings = repository.extractor_bindings@;
        match validate_bindings(&repository.extractor_bindings) {
            Ok(_) => {},
            Err(e) => {
                return Err(e);
            },
        }
        match find_repeated_name(&repository.extractor_bindings) {
            Some(k) => {
                let e = RepositoryError::DuplicateBinding {
                    repository: repository.name.clone(),
                    binding: repository.extractor_bindings[k].name.clone(),
                };
                proof {
                    let j = choose|j: int|
                        0 <= j < k && (#[trigger] bindings[j]).name@ == bindings[k as int].name@;
                    assert(bindings[j].key() == bindings[k as int].key());
                    assert(e.is_duplicate_binding(repository.name@, bindings[k as int].name@));
                }
                return Err(e);
            },
            None => {},
        }
        match find_taken(&self.extraction_events, &ids) {
            Some(i) => {
                assert(is_taken(before.extraction_events, texts, i as int));
                let e = RepositoryError::DatabaseError(ids[i].clone());
                assert(e.is_database_error(texts[i as int]));
                return Err(e);
            },
            None => {},
        }
        let ghost log = self.extraction_events@;
        let mut k: usize = 0;
        while k < repository.extractor_bindings.len()
            invariant
                k <= bindings.len(),
                ids@.len() == bindings.len(),
                bindings == repository.extractor_bindings@,
                texts == ids_of(ids@),
                views_of(log) == before.extraction_events,
                views_of(self.extraction_events@) == views_of(log) + binding_events(
                    repository.name@,
                    bindings,
                    texts,
                ).take(k as int),
                self@ == (RepositoryState {
                    extraction_events: views_of(self.extraction_events@),
                    ..before
                }),
            decreases bindings.len() - k,
        {
            let event = ExtractionEvent::binding_added(
                ids[k].clone(),
                repository.name.as_str(),
                repository.extractor_bindings[k].name.as_str(),
            );
            let ghost held = self.extraction_events@;
            self.extraction_events.push(ExtractionEventRow { event, processed_at: None });
            proof {
                let all = binding_events(repository.name@, bindings, texts);
                assert(texts[k as int] == ids@[k as int]@);
                assert(all.take(k + 1) =~= all.take(k as int).push(all[k as int]));
                assert(views_of(self.extraction_events@) =~= views_of(held).push(all[k as int]));
            }
            k += 1;
        }
        proof {
            let all = binding_events(repository.name@, bindings, texts);
            assert(all.take(k as int) =~= all);
            lemma_log_takes_events(before.extraction_events, all, texts);
            lemma_announced_with_other_events(before.contents, before.extraction_events, all);
        }
        let ghost held = self.repositories@;
        match find_row(&self.repositories, repository.name.as_str()) {
            Some(i) => {
                let stored = self.repositories.remove(i);
                let written = DataRepository {
                    name: stored.name,
                    data_connectors: stored.data_connectors,
                    extractor_bindings: repository.extractor_bindings,
                    metadata: repository.metadata,
                };
                self.repositories.insert(i, written);
                proof {
                    let after = self.repositories@;
                    let wanted = upserted(held, repository);
                    assert forall|j: int| 0 <= j < held.len() && (#[trigger] held[j]).key()
                        == repository.name@ implies j == i by {
                        lemma_key_once(held, i as int, j);
                    }
                    assert(held[i as int].key() == repository.name@);
                    assert(after.len() == wanted.len());
                    assert forall|j: int| 0 <= j < after.len() implies after[j] == wanted[j] by {
                        if j != i {
                            assert(after[j] == held[j]);
                            assert(held[j].key() != repository.name@);
                        }
                    }
                    assert(after =~= wanted);
                    assert forall|a: int, b: int| 0 <= a < b < after.len() implies (
                    #[trigger] after[a]).key() != (#[trigger] after[b]).key() by {
                        assert(held[a].key() != held[b].key());
                    }
                }
            },
            None => {
                self.repositories.push(repository);
            },
        }
        Ok(())
    }

    /// Registers a repository with its bindings and logs, under fresh random
    /// identifiers, the events that announce the bindings. What is written is
    /// what `upsert_repository_with_ids` writes for the identifiers drawn.
    pub fn upsert_repository(&mut self, repository: DataRepository) -> (r: Result<
        (),
        RepositoryError,
    >)
        requires
            old(self).wf(),
        ensures
            final(self).wf(),
            exists|ids: Seq<Seq<char>>|
                {
                    &&& ids.len() == repository.extractor_bindings@.len()
                    &&& forall|i: int| 0 <= i < ids.len() ==> (#[trigger] ids[i]).len() == 21
                    &&& #[trigger] old(self)@.with_repository(repository, ids) == final(self)@
                    &&& r is Ok <==> !old(self)@.refuses_repository(repository, ids)
                    &&& r is Err ==> registration_error(
                        old(self)@.extraction_events,
                        repository,
                        ids,
                        r->Err_0,
                    )
                },
    {
        let mut ids: Vec<String> = Vec::new();
        let mut i: usize = 0;
        while i < repository.extractor_bindings.len()
            invariant
                i <= repository.extractor_bindings@.len(),
                ids@.len() == i,
                forall|j: int| 0 <= j < i ==> (#[trigger] ids@[j])@.len() == 21,
            decreases repository.extractor_bindings@.len() - i,
        {
            ids.push(random_token());
            i += 1;
        }
        let ghost texts = ids_of(ids@);
        let r = self.upsert_repository_with_ids(repository, ids);
        assert(old(self)@.with_repository(repository, texts) == self@);
        r
    }

    /// The repositories, in the order in which they were first registered.
    pub fn repositories(&self) -> (r: Result<Vec<&DataRepository>, RepositoryError>)
        ensures
            r is Ok,
            r->Ok_0@.map_values(|row: &DataRepository| *row) == self@.repositories,
    {
        let mut found: Vec<&DataRepository> = Vec::new();
        let mut i: usize = 0;
        assert(found@.map_values(|row: &DataRepository| *row) =~= self.repositories@.take(0));
        while i < self.repositories.len()
            invariant
                i <= self.repositories@.len(),
                found@.map_values(|row: &DataRepository| *row) == self.repositories@.take(i as int),
            decreases self.repositories@.len() - i,
        {
            let ghost held = found@;
            found.push(&self.repositories[i]);
            assert(found@.map_values(|row: &DataRepository| *row) =~= held.map_values(
                |row: &DataRepository| *row,
            ).push(self.repositories@[i as int]));
            assert(self.repositories@.take(i + 1) =~= self.repositories@.take(i as int).push(
                self.repositories@[i as int],
            ));
            i += 1;
        }
        assert(self.repositories@.take(i as int) =~= self.repositories@);
        Ok(found)
    }

    /// The repository of the name.
    pub fn repository_by_name(&self, name: &str) -> (r: Result<&DataRepository, RepositoryError>)
        requires
            self.wf(),
        ensures
            match r {
                Ok(found) => self@.repository_by_name(name@) == Some(*found),
                Err(RepositoryError::RepositoryNotFound(key)) => self@.repository_by_name(name@)
                    is None && key@ == name@,
                Err(_) => false,
            },
    {
        match find_row(&self.repositories, name) {
            Some(i) => {
                proof {
                    lemma_row_with_key(self.repositories@, i as int);
                }
                Ok(&self.repositories[i])
            },
            None => Err(RepositoryError::RepositoryNotFound(name.to_owned())),
        }
    }

    /// The binding of the name in the repository named. A binding belongs to
    /// one repository, and its name tells it apart there only: what other
    /// repositories hold under the name does not count. The error names the
    /// repository where the store does not hold it, else the binding.
    pub fn binding_by_id(&self, repository: &str, id: &str) -> (r: Result<
        &ExtractorBinding,
        RepositoryError,
    >)
        requires
            self.wf(),
        ensures
            match r {
                Ok(b) => self@.binding_by_id(repository@, id@) == Some(*b),
                Err(RepositoryError::RepositoryNotFound(key)) => self@.repository_by_name(
                    repository@,
                ) is None && key@ == repository@,
                Err(RepositoryError::BindingNotFound { repository: holder, binding }) => {
                    &&& self@.repository_by_name(repository@) is Some
                    &&& self@.binding_by_id(repository@, id@) is None
                    &&& holder@ == repository@
                    &&& binding@ == id@
                },
                Err(_) => false,
            },
    {
        match find_row(&self.repositories, repository) {
            Some(i) => {
                proof {
                    lemma_row_with_key(self.repositories@, i as int);
                }
                match find_last_named(&self.repositories[i].extractor_bindings, id) {
                    Some(b) => Ok(b),
                    None => Err(
                        RepositoryError::BindingNotFound {
                            repository: repository.to_owned(),
                            binding: id.to_owned(),
                        },
                    ),
                }
            },
            None => Err(RepositoryError::RepositoryNotFound(repository.to_owned())),
        }
    }
}

} // verus!
