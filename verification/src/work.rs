use crate::identity::{fingerprint_four, fingerprint_of_four};
use crate::json::JsonValue;
use crate::outside::same_text;
use crate::table::{Key, Keyed};
use vstd::prelude::*;

verus! {

/// Where a unit of extraction stands in its life.
#[derive(Clone, Copy, Debug, PartialEq, Eq, Structural)]
pub enum WorkState {
    Unknown,
    Pending,
    InProgress,
    Completed,
    Failed,
}

impl WorkState {
    /// Whether the queue's transition table has an arrow from `self` to `next`.
    pub open spec fn permits(self, next: WorkState) -> bool {
        ||| (self == WorkState::Pending && next == WorkState::Pending)
        ||| (self == WorkState::Pending && next == WorkState::InProgress)
        ||| (self == WorkState::InProgress && next == WorkState::InProgress)
        ||| (self == WorkState::InProgress && next == WorkState::Completed)
        ||| (self == WorkState::InProgress && next == WorkState::Failed)
    }

    /// Decides whether a unit in state `self` may move to `next`.
    pub fn can_transition_to(self, next: WorkState) -> (r: bool)
        ensures
            r == self.permits(next),
    {
        match (self, next) {
            (WorkState::Pending, WorkState::Pending) => true,
            (WorkState::Pending, WorkState::InProgress) => true,
            (WorkState::InProgress, WorkState::InProgress) => true,
            (WorkState::InProgress, WorkState::Completed) => true,
            (WorkState::InProgress, WorkState::Failed) => true,
            _ => false,
        }
    }
}

impl Default for WorkState {
    fn default() -> (r: Self)
        ensures
            r == WorkState::Unknown,
    {
        WorkState::Unknown
    }
}

impl WorkState {
    /// The name under which the state is stored.
    pub open spec fn stored_name(self) -> Seq<char> {
        match self {
            WorkState::Unknown => "Unknown"@,
            WorkState::Pending => "Pending"@,
            WorkState::InProgress => "InProgress"@,
            WorkState::Completed => "Completed"@,
            WorkState::Failed => "Failed"@,
        }
    }

    /// The state that a stored name stands for. A name that stands for none is
    /// read as `Unknown`.
    pub open spec fn named(text: Seq<char>) -> WorkState {
        if text == "Pending"@ {
            WorkState::Pending
        } else if text == "InProgress"@ {
            WorkState::InProgress
        } else if text == "Completed"@ {
            WorkState::Completed
        } else if text == "Failed"@ {
            WorkState::Failed
        } else {
            WorkState::Unknown
        }
    }

    /// No arrow of the transition table leaves the state.
    pub open spec fn is_terminal(self) -> bool {
        self == WorkState::Completed || self == WorkState::Failed
    }

    /// The name under which the state is stored.
    pub fn to_string(&self) -> (r: String)
        ensures
            r@ == self.stored_name(),
    {
        match self {
            WorkState::Unknown => "Unknown".to_owned(),
            WorkState::Pending => "Pending".to_owned(),
            WorkState::InProgress => "InProgress".to_owned(),
            WorkState::Completed => "Completed".to_owned(),
            WorkState::Failed => "Failed".to_owned(),
        }
    }

    /// Reads a stored name back. An unrecognized name is read as `Unknown`.
    pub fn from_str(text: &str) -> (r: WorkState)
        ensures
            r == WorkState::named(text@),
    {
        if same_text(text, "Pending") {
            WorkState::Pending
        } else if same_text(text, "InProgress") {
            WorkState::InProgress
        } else if same_text(text, "Completed") {
            WorkState::Completed
        } else if same_text(text, "Failed") {
            WorkState::Failed
        } else {
            WorkState::Unknown
        }
    }
}

/// One unit of extraction: a content item to be run through an extractor on
/// behalf of a binding.
#[derive(Debug)]
pub struct Work {
    pub id: String,
    pub content_id: String,
    pub repository_id: String,
    pub extractor: String,
    pub extractor_binding: String,
    pub extractor_params: JsonValue,
    pub work_state: WorkState,
    pub executor_id: Option<String>,
}

impl Work {
    /// The identifier of a unit: a function of the content item, the
    /// repository, the extractor and the binding.
    pub open spec fn id_of(
        content_id: Seq<char>,
        repository: Seq<char>,
        extractor: Seq<char>,
        extractor_binding: Seq<char>,
    ) -> Seq<char> {
        fingerprint_of_four(content_id, repository, extractor, extractor_binding)
    }

    /// The unit waits for an executor: it is pending and none is assigned.
    pub open spec fn is_unallocated(self) -> bool {
        self.executor_id is None && self.work_state == WorkState::Pending
    }

    /// The unit is pending in the hands of the executor.
    pub open spec fn is_pending_for(self, executor: Seq<char>) -> bool {
        self.work_state == WorkState::Pending && self.executor_id is Some
            && self.executor_id->Some_0@ == executor
    }

    /// A new unit. It starts pending and without an executor, whatever
    /// worker is named: an executor is set by assignment only.
    pub fn new(
        content_id: &str,
        repository: &str,
        extractor: &str,
        extractor_binding: &str,
        extractor_params: &JsonValue,
        worker_id: Option<&str>,
    ) -> (r: Self)
        ensures
            r.id@ == Self::id_of(content_id@, repository@, extractor@, extractor_binding@),
            r.content_id@ == content_id@,
            r.repository_id@ == repository@,
            r.extractor@ == extractor@,
            r.extractor_binding@ == extractor_binding@,
            r.extractor_params == *extractor_params,
            r.work_state == WorkState::Pending,
            r.executor_id is None,
    {
        let _ = worker_id;
        Work {
            id: fingerprint_four(content_id, repository, extractor, extractor_binding),
            content_id: content_id.to_owned(),
            repository_id: repository.to_owned(),
            extractor: extractor.to_owned(),
            extractor_binding: extractor_binding.to_owned(),
            extractor_params: extractor_params.clone(),
            work_state: WorkState::Pending,
            executor_id: None,
        }
    }
}

impl Clone for Work {
    fn clone(&self) -> (r: Self)
        ensures
            r == *self,
    {
        let executor_id = match &self.executor_id {
            Some(w) => Some(w.clone()),
            None => None,
        };
        Work {
            id: self.id.clone(),
            content_id: self.content_id.clone(),
            repository_id: self.repository_id.clone(),
            extractor: self.extractor.clone(),
            extractor_binding: self.extractor_binding.clone(),
            extractor_params: self.extractor_params.clone(),
            work_state: self.work_state,
            executor_id,
        }
    }
}

impl Key for Work {
    open spec fn key(&self) -> Seq<char> {
        self.id@
    }
}

impl Keyed for Work {
    fn key_text(&self) -> (r: &str) {
        self.id.as_str()
    }
}

} // verus!
