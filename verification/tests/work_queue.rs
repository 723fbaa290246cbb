use extraction_store::error::RepositoryError;
use extraction_store::json::JsonValue;
use extraction_store::store::Repository;
use extraction_store::work::{Work, WorkState};

fn unit(content: &str) -> Work {
    Work::new(content, "repo", "extractor1", "binding1", &JsonValue::Nested("{}".to_string()), None)
}

#[test]
fn work_creation_is_idempotent() {
    let mut repository = Repository::new();
    let params = JsonValue::Nested("{}".to_string());
    let first = Work::new("c1", "repo", "extractor1", "binding1", &params, None);
    let second = Work::new("c1", "repo", "extractor1", "binding1", &params, None);
    assert_eq!(first.id, second.id);
    repository.insert_work(&first).unwrap();
    repository.insert_work(&second).unwrap();
    assert_eq!(repository.work.len(), 1);
    assert_eq!(repository.work[0].id, first.id);
    assert_eq!(repository.work[0].work_state, WorkState::Pending);
    assert_eq!(repository.work[0].executor_id, None);
}

#[test]
fn work_is_found_by_its_id_or_reported_missing() {
    let mut repository = Repository::new();
    let w = unit("c1");
    repository.insert_work(&w).unwrap();
    let found = repository.work_by_id(&w.id).unwrap();
    assert_eq!(found.id, w.id);
    assert_eq!(found.content_id, "c1");
    match repository.work_by_id("missing") {
        Err(RepositoryError::WorkNotFound(key)) => assert_eq!(key, "missing"),
        other => panic!("unexpected: {:?}", other),
    }
}

#[test]
fn unallocated_work_is_pending_work_without_executor() {
    let mut repository = Repository::new();
    let a = unit("a");
    let b = unit("b");
    let c = unit("c");
    repository.insert_work(&a).unwrap();
    repository.insert_work(&b).unwrap();
    repository.insert_work(&c).unwrap();
    repository
        .assign_work(vec![(b.id.clone(), "worker1".to_string())])
        .unwrap();
    repository.update_work_state(&c.id, &WorkState::InProgress).unwrap();
    let waiting = repository.unallocated_work().unwrap();
    assert_eq!(waiting.len(), 1);
    assert_eq!(waiting[0].id, a.id);
    let mine = repository.work_for_worker("worker1").unwrap();
    assert_eq!(mine.len(), 1);
    assert_eq!(mine[0].id, b.id);
    assert_eq!(mine[0].executor_id, Some("worker1".to_string()));
    assert_eq!(mine[0].work_state, WorkState::Pending);
    assert!(repository.work_for_worker("worker2").unwrap().is_empty());
}

#[test]
fn a_second_claim_on_a_unit_is_rejected_and_keeps_the_first_executor() {
    let mut repository = Repository::new();
    let a = unit("a");
    let b = unit("b");
    repository.insert_work(&a).unwrap();
    repository.insert_work(&b).unwrap();
    let first = repository
        .assign_work(vec![(a.id.clone(), "worker1".to_string())])
        .unwrap();
    assert_eq!(first.assigned, vec![a.id.clone()]);
    assert!(first.rejected.is_empty());
    let second = repository
        .assign_work(vec![
            (a.id.clone(), "worker2".to_string()),
            (b.id.clone(), "worker2".to_string()),
            ("missing".to_string(), "worker2".to_string()),
        ])
        .unwrap();
    assert_eq!(second.assigned, vec![b.id.clone()]);
    assert_eq!(second.rejected, vec![a.id.clone()]);
    assert_eq!(
        repository.work_by_id(&a.id).unwrap().executor_id,
        Some("worker1".to_string())
    );
    assert_eq!(
        repository.work_by_id(&b.id).unwrap().executor_id,
        Some("worker2".to_string())
    );
    assert_eq!(repository.work.len(), 2);
}

#[test]
fn of_two_claims_on_one_unit_in_one_round_the_first_wins() {
    let mut repository = Repository::new();
    let a = unit("a");
    repository.insert_work(&a).unwrap();
    let report = repository
        .assign_work(vec![
            (a.id.clone(), "worker1".to_string()),
            (a.id.clone(), "worker2".to_string()),
        ])
        .unwrap();
    assert_eq!(report.assigned, vec![a.id.clone()]);
    assert_eq!(report.rejected, vec![a.id.clone()]);
    assert_eq!(
        repository.work_by_id(&a.id).unwrap().executor_id,
        Some("worker1".to_string())
    );
}

#[test]
fn a_unit_in_progress_cannot_be_claimed() {
    let mut repository = Repository::new();
    let a = unit("a");
    repository.insert_work(&a).unwrap();
    repository.update_work_state(&a.id, &WorkState::InProgress).unwrap();
    let report = repository
        .assign_work(vec![(a.id.clone(), "worker1".to_string())])
        .unwrap();
    assert!(report.assigned.is_empty());
    assert_eq!(report.rejected, vec![a.id.clone()]);
    assert_eq!(repository.work_by_id(&a.id).unwrap().executor_id, None);
}

#[test]
fn transition_table_accepts_the_legal_path() {
    let mut repository = Repository::new();
    let a = unit("a");
    repository.insert_work(&a).unwrap();
    let started = repository.update_work_state(&a.id, &WorkState::InProgress).unwrap();
    assert_eq!(started.work_state, WorkState::InProgress);
    assert_eq!(started.id, a.id);
    let done = repository.update_work_state(&a.id, &WorkState::Completed).unwrap();
    assert_eq!(done.work_state, WorkState::Completed);
    assert_eq!(repository.work_by_id(&a.id).unwrap().work_state, WorkState::Completed);
}

#[test]
fn transition_table_rejects_completed_to_pending() {
    let mut repository = Repository::new();
    let a = unit("a");
    repository.insert_work(&a).unwrap();
    repository.update_work_state(&a.id, &WorkState::InProgress).unwrap();
    repository.update_work_state(&a.id, &WorkState::Completed).unwrap();
    match repository.update_work_state(&a.id, &WorkState::Pending) {
        Err(RepositoryError::IllegalTransition { work_id, from, to }) => {
            assert_eq!(work_id, a.id);
            assert_eq!(from, WorkState::Completed);
            assert_eq!(to, WorkState::Pending);
        }
        other => panic!("unexpected: {:?}", other),
    }
    assert_eq!(repository.work_by_id(&a.id).unwrap().work_state, WorkState::Completed);
}

#[test]
fn transition_table_has_exactly_five_arrows() {
    let states = [
        WorkState::Unknown,
        WorkState::Pending,
        WorkState::InProgress,
        WorkState::Completed,
        WorkState::Failed,
    ];
    let mut arrows = Vec::new();
    for from in states {
        for to in states {
            if from.can_transition_to(to) {
                arrows.push((from, to));
            }
        }
    }
    assert_eq!(
        arrows,
        vec![
            (WorkState::Pending, WorkState::Pending),
            (WorkState::Pending, WorkState::InProgress),
            (WorkState::InProgress, WorkState::InProgress),
            (WorkState::InProgress, WorkState::Completed),
            (WorkState::InProgress, WorkState::Failed),
        ]
    );
}

#[test]
fn a_failed_unit_stays_failed() {
    let mut repository = Repository::new();
    let a = unit("a");
    repository.insert_work(&a).unwrap();
    repository.update_work_state(&a.id, &WorkState::InProgress).unwrap();
    let failed = repository.update_work_state(&a.id, &WorkState::Failed).unwrap();
    assert_eq!(failed.work_state, WorkState::Failed);
    assert!(matches!(
        repository.update_work_state(&a.id, &WorkState::InProgress),
        Err(RepositoryError::IllegalTransition { .. })
    ));
    assert!(matches!(
        repository.update_work_state(&a.id, &WorkState::Completed),
        Err(RepositoryError::IllegalTransition { .. })
    ));
}

#[test]
fn a_pending_unit_cannot_jump_to_completed() {
    let mut repository = Repository::new();
    let a = unit("a");
    repository.insert_work(&a).unwrap();
    assert!(matches!(
        repository.update_work_state(&a.id, &WorkState::Completed),
        Err(RepositoryError::IllegalTransition { .. })
    ));
    assert_eq!(repository.work_by_id(&a.id).unwrap().work_state, WorkState::Pending);
}

#[test]
fn moving_a_missing_unit_is_reported() {
    let mut repository = Repository::new();
    match repository.update_work_state("missing", &WorkState::InProgress) {
        Err(RepositoryError::WorkNotFound(key)) => assert_eq!(key, "missing"),
        other => panic!("unexpected: {:?}", other),
    }
}

#[test]
fn work_state_names_round_trip_and_unknown_is_the_fallback() {
    assert_eq!(WorkState::Pending.to_string(), "Pending");
    assert_eq!(WorkState::InProgress.to_string(), "InProgress");
    assert_eq!(WorkState::Completed.to_string(), "Completed");
    assert_eq!(WorkState::Failed.to_string(), "Failed");
    assert_eq!(WorkState::Unknown.to_string(), "Unknown");
    assert_eq!(WorkState::from_str("Pending"), WorkState::Pending);
    assert_eq!(WorkState::from_str("InProgress"), WorkState::InProgress);
    assert_eq!(WorkState::from_str("Completed"), WorkState::Completed);
    assert_eq!(WorkState::from_str("Failed"), WorkState::Failed);
    assert_eq!(WorkState::from_str("Unknown"), WorkState::Unknown);
    assert_eq!(WorkState::from_str("pending"), WorkState::Unknown);
    assert_eq!(WorkState::from_str(""), WorkState::Unknown);
    assert_eq!(WorkState::default(), WorkState::Unknown);
}
