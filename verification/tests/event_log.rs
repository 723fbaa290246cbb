use extraction_store::binding::{DataConnector, DataRepository, ExtractorBinding, ExtractorFilter, SourceType};
use extraction_store::content::ContentPayload;
use extraction_store::error::RepositoryError;
use extraction_store::events::ExtractionEventPayload;
use extraction_store::json::{JsonValue, Metadata};
use extraction_store::store::Repository;

fn logged(ids: &[&str]) -> Repository {
    let mut repository = Repository::new();
    let payloads = ids
        .iter()
        .map(|id| ContentPayload::from_text("r", id, Metadata::new()))
        .collect();
    let ids = ids.iter().map(|id| id.to_string()).collect();
    repository.add_content_with_ids("r", payloads, ids).unwrap();
    repository
}

fn binding_with(name: &str, value: JsonValue) -> ExtractorBinding {
    ExtractorBinding::new(
        name,
        "r",
        "extractor1".to_string(),
        vec![ExtractorFilter::Eq { field: "topic".to_string(), value }],
        JsonValue::Nested("{}".to_string()),
    )
}

fn repository_named(name: &str, bindings: Vec<ExtractorBinding>) -> DataRepository {
    DataRepository {
        name: name.to_string(),
        data_connectors: vec![],
        extractor_bindings: bindings,
        metadata: Metadata::new(),
    }
}

#[test]
fn unprocessed_events_are_those_not_acknowledged() {
    let mut repository = logged(&["e1", "e2", "e3"]);
    repository.mark_extraction_event_as_processed_at("e2", 100).unwrap();
    let open: Vec<String> = repository
        .unprocessed_extraction_events()
        .unwrap()
        .into_iter()
        .map(|e| e.id)
        .collect();
    assert_eq!(open, vec!["e1".to_string(), "e3".to_string()]);
    assert_eq!(repository.extraction_events[1].processed_at, Some(100));
}

#[test]
fn an_event_is_read_again_until_it_is_acknowledged() {
    let mut repository = logged(&["e1"]);
    assert_eq!(repository.unprocessed_extraction_events().unwrap().len(), 1);
    assert_eq!(repository.unprocessed_extraction_events().unwrap().len(), 1);
    repository.mark_extraction_event_as_processed("e1").unwrap();
    assert!(repository.unprocessed_extraction_events().unwrap().is_empty());
}

#[test]
fn acknowledging_twice_keeps_the_first_time() {
    let mut repository = logged(&["e1", "e2"]);
    repository.mark_extraction_event_as_processed_at("e1", 100).unwrap();
    repository.mark_extraction_event_as_processed_at("e1", 200).unwrap();
    assert_eq!(repository.extraction_events[0].processed_at, Some(100));
    assert_eq!(repository.extraction_events[1].processed_at, None);
    assert_eq!(repository.extraction_events.len(), 2);
}

#[test]
fn acknowledging_now_sets_a_time_once() {
    let mut repository = logged(&["e1"]);
    repository.mark_extraction_event_as_processed("e1").unwrap();
    let first = repository.extraction_events[0].processed_at;
    assert!(first.is_some());
    assert!(first.unwrap() > 1_600_000_000);
    repository.mark_extraction_event_as_processed_at("e1", 5).unwrap();
    assert_eq!(repository.extraction_events[0].processed_at, first);
}

#[test]
fn acknowledging_a_missing_event_is_reported() {
    let mut repository = logged(&["e1"]);
    match repository.mark_extraction_event_as_processed_at("missing", 1) {
        Err(RepositoryError::ExtractionEventNotFound(key)) => assert_eq!(key, "missing"),
        other => panic!("unexpected: {:?}", other),
    }
    assert_eq!(repository.extraction_events[0].processed_at, None);
    assert!(matches!(
        repository.mark_extraction_event_as_processed("missing"),
        Err(RepositoryError::ExtractionEventNotFound(_))
    ));
}

#[test]
fn registering_a_repository_logs_an_event_for_each_binding() {
    let mut repository = Repository::new();
    let given = repository_named(
        "r",
        vec![
            binding_with("b1", JsonValue::Text("pipe".to_string())),
            binding_with("b2", JsonValue::Text("baz".to_string())),
        ],
    );
    repository
        .upsert_repository_with_ids(given, vec!["e1".to_string(), "e2".to_string()])
        .unwrap();
    assert_eq!(repository.repositories.len(), 1);
    assert_eq!(repository.repositories[0].name, "r");
    assert_eq!(repository.extraction_events.len(), 2);
    assert_eq!(repository.extraction_events[0].event.id, "e1");
    assert_eq!(repository.extraction_events[0].event.repository_id, "r");
    assert!(matches!(
        &repository.extraction_events[1].event.payload,
        ExtractionEventPayload::ExtractorBindingAdded { repository, id } if repository == "r" && id == "b2"
    ));
}

#[test]
fn registering_again_replaces_bindings_and_metadata_and_keeps_connectors() {
    let mut repository = Repository::new();
    let mut first = repository_named("r", vec![binding_with("b1", JsonValue::Text("x".to_string()))]);
    first.data_connectors =
        vec![DataConnector { source: SourceType::Gmail { metadata: Some("m".to_string()) } }];
    repository.upsert_repository(first).unwrap();
    repository.upsert_repository(repository_named("other", vec![])).unwrap();
    let mut second = repository_named("r", vec![binding_with("b2", JsonValue::Text("y".to_string()))]);
    second.metadata.insert("k".to_string(), JsonValue::Bool(true));
    repository.upsert_repository(second).unwrap();
    assert_eq!(repository.repositories.len(), 2);
    let stored = repository.repository_by_name("r").unwrap();
    assert_eq!(stored.extractor_bindings.len(), 1);
    assert_eq!(stored.extractor_bindings[0].name, "b2");
    assert_eq!(stored.metadata.get("k"), Some(&JsonValue::Bool(true)));
    assert_eq!(stored.data_connectors.len(), 1);
    assert!(matches!(
        &stored.data_connectors[0].source,
        SourceType::Gmail { metadata: Some(m) } if m == "m"
    ));
    let all = repository.repositories().unwrap();
    assert_eq!(all.len(), 2);
    assert_eq!(all[0].name, "r");
    assert_eq!(all[1].name, "other");
    assert_eq!(repository.extraction_events.len(), 2);
}

#[test]
fn a_filter_that_compares_with_no_string_is_refused_at_registration() {
    let mut repository = Repository::new();
    let given = repository_named(
        "r",
        vec![
            binding_with("good", JsonValue::Text("pipe".to_string())),
            binding_with("bad", JsonValue::Number("1".to_string())),
        ],
    );
    match repository.upsert_repository(given) {
        Err(RepositoryError::InvalidFilter { binding, field }) => {
            assert_eq!(binding, "bad");
            assert_eq!(field, "topic");
        }
        other => panic!("unexpected: {:?}", other),
    }
    assert!(repository.repositories.is_empty());
    assert!(repository.extraction_events.is_empty());
}

#[test]
fn two_bindings_of_one_name_are_refused_at_registration() {
    let mut repository = Repository::new();
    let given = repository_named(
        "r",
        vec![
            binding_with("a", JsonValue::Text("1".to_string())),
            binding_with("b", JsonValue::Text("2".to_string())),
            binding_with("a", JsonValue::Text("3".to_string())),
        ],
    );
    match repository.upsert_repository(given) {
        Err(RepositoryError::DuplicateBinding { repository, binding }) => {
            assert_eq!(repository, "r");
            assert_eq!(binding, "a");
        }
        other => panic!("unexpected: {:?}", other),
    }
    assert!(repository.repositories.is_empty());
    assert!(repository.extraction_events.is_empty());
}

#[test]
fn a_taken_event_identifier_refuses_the_registration() {
    let mut repository = logged(&["e1"]);
    let given = repository_named("r", vec![binding_with("b1", JsonValue::Text("x".to_string()))]);
    match repository.upsert_repository_with_ids(given, vec!["e1".to_string()]) {
        Err(RepositoryError::DatabaseError(key)) => assert_eq!(key, "e1"),
        other => panic!("unexpected: {:?}", other),
    }
    assert!(repository.repositories.is_empty());
    assert_eq!(repository.extraction_events.len(), 1);
}

#[test]
fn a_missing_repository_is_reported() {
    let repository = Repository::new();
    match repository.repository_by_name("nowhere") {
        Err(RepositoryError::RepositoryNotFound(key)) => assert_eq!(key, "nowhere"),
        other => panic!("unexpected: {:?}", other.map(|r| r.name.clone())),
    }
}

#[test]
fn a_binding_is_found_by_its_name() {
    let mut repository = Repository::new();
    repository
        .upsert_repository(repository_named(
            "r1",
            vec![binding_with("b1", JsonValue::Text("one".to_string()))],
        ))
        .unwrap();
    repository
        .upsert_repository(repository_named(
            "r2",
            vec![
                binding_with("b2", JsonValue::Text("two".to_string())),
                binding_with("b3", JsonValue::Text("three".to_string())),
            ],
        ))
        .unwrap();
    let b1 = repository.binding_by_id("r1", "b1").unwrap();
    assert_eq!(b1.name, "b1");
    let b3 = repository.binding_by_id("r2", "b3").unwrap();
    assert!(matches!(
        &b3.filters[0],
        ExtractorFilter::Eq { value: JsonValue::Text(v), .. } if v == "three"
    ));
    match repository.binding_by_id("r1", "b9") {
        Err(RepositoryError::BindingNotFound { repository, binding }) => {
            assert_eq!(repository, "r1");
            assert_eq!(binding, "b9");
        }
        other => panic!("unexpected: {:?}", other.map(|b| b.name.clone())),
    }
}

#[test]
fn a_binding_is_looked_up_in_the_repository_named_only() {
    let mut repository = Repository::new();
    repository
        .upsert_repository(repository_named(
            "r1",
            vec![binding_with("b1", JsonValue::Text("one".to_string()))],
        ))
        .unwrap();
    repository.upsert_repository(repository_named("r2", vec![])).unwrap();
    assert_eq!(repository.binding_by_id("r1", "b1").unwrap().name, "b1");
    match repository.binding_by_id("r2", "b1") {
        Err(RepositoryError::BindingNotFound { repository, binding }) => {
            assert_eq!(repository, "r2");
            assert_eq!(binding, "b1");
        }
        other => panic!("unexpected: {:?}", other.map(|b| b.name.clone())),
    }
    match repository.binding_by_id("r3", "b1") {
        Err(RepositoryError::RepositoryNotFound(key)) => assert_eq!(key, "r3"),
        other => panic!("unexpected: {:?}", other.map(|b| b.name.clone())),
    }
}

#[test]
fn bindings_of_one_name_in_two_repositories_are_told_apart() {
    let mut repository = Repository::new();
    repository
        .upsert_repository(repository_named(
            "r1",
            vec![binding_with("b", JsonValue::Text("one".to_string()))],
        ))
        .unwrap();
    repository
        .upsert_repository(repository_named(
            "r2",
            vec![binding_with("b", JsonValue::Text("two".to_string()))],
        ))
        .unwrap();
    assert!(matches!(
        &repository.binding_by_id("r1", "b").unwrap().filters[0],
        ExtractorFilter::Eq { value: JsonValue::Text(v), .. } if v == "one"
    ));
    assert!(matches!(
        &repository.binding_by_id("r2", "b").unwrap().filters[0],
        ExtractorFilter::Eq { value: JsonValue::Text(v), .. } if v == "two"
    ));
}

#[test]
fn validation_names_the_first_malformed_filter() {
    let b = ExtractorBinding::new(
        "b",
        "r",
        "extractor1".to_string(),
        vec![
            ExtractorFilter::Eq { field: "a".to_string(), value: JsonValue::Text("x".to_string()) },
            ExtractorFilter::Neq { field: "b".to_string(), value: JsonValue::Null },
            ExtractorFilter::Eq { field: "c".to_string(), value: JsonValue::Bool(true) },
        ],
        JsonValue::Null,
    );
    match b.validate() {
        Err(RepositoryError::InvalidFilter { binding, field }) => {
            assert_eq!(binding, "b");
            assert_eq!(field, "b");
        }
        other => panic!("unexpected: {:?}", other),
    }
    let fine = binding_with("fine", JsonValue::Text("x".to_string()));
    assert!(fine.validate().is_ok());
    assert!(binding_with("none", JsonValue::Null).validate().is_err());
}
