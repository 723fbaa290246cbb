use extraction_store::binding::{DataRepository, ExtractorBinding, ExtractorFilter};
use extraction_store::content::{ContentPayload, PayloadType};
use extraction_store::error::RepositoryError;
use extraction_store::events::ExtractionEventPayload;
use extraction_store::json::{JsonValue, Metadata};
use extraction_store::schema::{Extractor, ExtractorOutputSchema, ExtractorSchema, IndexDistance};
use extraction_store::store::Repository;

fn empty_object() -> JsonValue {
    JsonValue::Nested("{}".to_string())
}

fn topic(value: &str) -> Metadata {
    let mut m = Metadata::new();
    m.insert("topic".to_string(), JsonValue::Text(value.to_string()));
    m
}

fn binding(name: &str, filters: Vec<ExtractorFilter>) -> ExtractorBinding {
    ExtractorBinding::new(name, "r", "extractor1".into(), filters, empty_object())
}

fn topic_is(value: &str) -> ExtractorFilter {
    ExtractorFilter::Eq { field: "topic".to_string(), value: JsonValue::Text(value.to_string()) }
}

fn topic_is_not(value: &str) -> ExtractorFilter {
    ExtractorFilter::Neq { field: "topic".to_string(), value: JsonValue::Text(value.to_string()) }
}

fn store_with_hello_and_world() -> Repository {
    let mut repository = Repository::new();
    repository
        .add_content(
            "r",
            vec![
                ContentPayload::from_text("r", "hello", topic("pipe")),
                ContentPayload::from_text("r", "world", topic("baz")),
            ],
        )
        .unwrap();
    repository
}

#[test]
fn test_extractors_for_repository() {
    let extractor1 = Extractor {
        name: "extractor1".into(),
        description: "extractor1".into(),
        input_params: empty_object(),
        schemas: ExtractorSchema::from_output_schema(
            "embedding",
            ExtractorOutputSchema::embedding(10, IndexDistance::Cosine),
        ),
    };
    let extractor_binding1 = ExtractorBinding::new(
        "extractor_binding1",
        "repository",
        "extractor1".into(),
        vec![ExtractorFilter::Eq {
            field: "topic".to_string(),
            value: JsonValue::Text("pipe".to_string()),
        }],
        empty_object(),
    );
    let extractor_binding1_registered = ExtractorBinding::new(
        "extractor_binding1",
        "repository",
        "extractor1".into(),
        vec![ExtractorFilter::Eq {
            field: "topic".to_string(),
            value: JsonValue::Text("pipe".to_string()),
        }],
        empty_object(),
    );
    let extractor_binding2 = ExtractorBinding::new(
        "extractor_binding2",
        "repository1",
        "extractor1".into(),
        vec![ExtractorFilter::Neq {
            field: "topic".to_string(),
            value: JsonValue::Text("pipe".to_string()),
        }],
        empty_object(),
    );
    let repo = DataRepository {
        name: "test".to_owned(),
        data_connectors: vec![],
        extractor_bindings: vec![extractor_binding1_registered],
        metadata: Metadata::new(),
    };

    let mut repository = Repository::new();
    repository.record_extractors(vec![extractor1]).unwrap();
    repository.upsert_repository(repo).unwrap();

    repository
        .add_content(
            "test",
            vec![
                ContentPayload::from_text("test", "hello", topic("pipe")),
                ContentPayload::from_text("test", "world", topic("baz")),
            ],
        )
        .unwrap();

    let content_list1 = repository
        .content_with_unapplied_extractor("test", &extractor_binding1, None)
        .unwrap();
    assert_eq!(1, content_list1.len());

    let content_list2 = repository
        .content_with_unapplied_extractor("test", &extractor_binding2, None)
        .unwrap();
    assert_eq!(1, content_list2.len());
    assert_ne!(content_list1[0].id, content_list2[0].id);
}

#[test]
fn equality_filter_selects_the_matching_item_only() {
    let repository = store_with_hello_and_world();
    let hello = ContentPayload::from_text("r", "hello", Metadata::new()).id;
    let found = repository
        .content_with_unapplied_extractor("r", &binding("b1", vec![topic_is("pipe")]), None)
        .unwrap();
    assert_eq!(found.len(), 1);
    assert_eq!(found[0].id, hello);
    assert_eq!(found[0].payload, "hello");
    assert_eq!(found[0].repository_id, "r");
    assert_eq!(found[0].content_type, "text/plain");
    assert_eq!(found[0].payload_type, PayloadType::EmbeddedStorage);
}

#[test]
fn inequality_filter_selects_the_other_item_only() {
    let repository = store_with_hello_and_world();
    let world = ContentPayload::from_text("r", "world", Metadata::new()).id;
    let found = repository
        .content_with_unapplied_extractor("r", &binding("b2", vec![topic_is_not("pipe")]), None)
        .unwrap();
    assert_eq!(found.len(), 1);
    assert_eq!(found[0].id, world);
}

#[test]
fn binding_without_filters_selects_all_content_of_its_repository() {
    let mut repository = store_with_hello_and_world();
    repository
        .add_content("other", vec![ContentPayload::from_text("other", "else", topic("pipe"))])
        .unwrap();
    let found = repository
        .content_with_unapplied_extractor("r", &binding("b", vec![]), None)
        .unwrap();
    assert_eq!(found.len(), 2);
    assert_eq!(found[0].payload, "hello");
    assert_eq!(found[1].payload, "world");
}

#[test]
fn missing_or_null_field_passes_no_filter() {
    let mut repository = Repository::new();
    let mut null_topic = Metadata::new();
    null_topic.insert("topic".to_string(), JsonValue::Null);
    repository
        .add_content(
            "r",
            vec![
                ContentPayload::from_text("r", "bare", Metadata::new()),
                ContentPayload::from_text("r", "null", null_topic),
            ],
        )
        .unwrap();
    for filter in [topic_is("pipe"), topic_is_not("pipe")] {
        let found = repository
            .content_with_unapplied_extractor("r", &binding("b", vec![filter]), None)
            .unwrap();
        assert!(found.is_empty());
    }
}

#[test]
fn filters_are_combined_with_and() {
    let mut repository = Repository::new();
    let mut both = topic("pipe");
    both.insert("lang".to_string(), JsonValue::Text("en".to_string()));
    let mut one = topic("pipe");
    one.insert("lang".to_string(), JsonValue::Text("de".to_string()));
    repository
        .add_content(
            "r",
            vec![
                ContentPayload::from_text("r", "both", both),
                ContentPayload::from_text("r", "one", one),
            ],
        )
        .unwrap();
    let lang_en = ExtractorFilter::Eq {
        field: "lang".to_string(),
        value: JsonValue::Text("en".to_string()),
    };
    let found = repository
        .content_with_unapplied_extractor("r", &binding("b", vec![topic_is("pipe"), lang_en]), None)
        .unwrap();
    assert_eq!(found.len(), 1);
    assert_eq!(found[0].payload, "both");
}

#[test]
fn number_in_metadata_is_compared_by_its_text() {
    let mut repository = Repository::new();
    let mut m = Metadata::new();
    m.insert("page".to_string(), JsonValue::Number("5".to_string()));
    repository
        .add_content("r", vec![ContentPayload::from_text("r", "page five", m)])
        .unwrap();
    let five = ExtractorFilter::Eq {
        field: "page".to_string(),
        value: JsonValue::Text("5".to_string()),
    };
    let six = ExtractorFilter::Eq {
        field: "page".to_string(),
        value: JsonValue::Text("6".to_string()),
    };
    assert_eq!(
        repository
            .content_with_unapplied_extractor("r", &binding("b", vec![five]), None)
            .unwrap()
            .len(),
        1
    );
    assert!(repository
        .content_with_unapplied_extractor("r", &binding("b", vec![six]), None)
        .unwrap()
        .is_empty());
}

#[test]
fn selection_with_a_malformed_filter_finds_nothing_and_does_not_fail() {
    let repository = store_with_hello_and_world();
    let malformed = ExtractorFilter::Eq {
        field: "topic".to_string(),
        value: JsonValue::Number("1".to_string()),
    };
    let found = repository
        .content_with_unapplied_extractor("r", &binding("b", vec![malformed]), None)
        .unwrap();
    assert!(found.is_empty());
}

#[test]
fn selection_can_be_narrowed_to_one_content_item() {
    let repository = store_with_hello_and_world();
    let hello = ContentPayload::from_text("r", "hello", Metadata::new()).id;
    let world = ContentPayload::from_text("r", "world", Metadata::new()).id;
    let all = binding("b", vec![]);
    let one = repository
        .content_with_unapplied_extractor("r", &all, Some(&world))
        .unwrap();
    assert_eq!(one.len(), 1);
    assert_eq!(one[0].id, world);
    let filtered_out = repository
        .content_with_unapplied_extractor("r", &binding("b", vec![topic_is("baz")]), Some(&hello))
        .unwrap();
    assert!(filtered_out.is_empty());
    assert!(repository
        .content_with_unapplied_extractor("r", &all, Some("missing"))
        .unwrap()
        .is_empty());
}

#[test]
fn end_to_end_hello_is_selected_until_it_is_marked() {
    let mut repository = Repository::new();
    let registered = DataRepository {
        name: "r".to_string(),
        data_connectors: vec![],
        extractor_bindings: vec![binding("b1", vec![topic_is("pipe")])],
        metadata: Metadata::new(),
    };
    repository.upsert_repository(registered).unwrap();
    repository
        .add_content(
            "r",
            vec![
                ContentPayload::from_text("r", "hello", topic("pipe")),
                ContentPayload::from_text("r", "world", topic("baz")),
            ],
        )
        .unwrap();
    let hello = ContentPayload::from_text("r", "hello", Metadata::new()).id;
    let b1 = binding("b1", vec![topic_is("pipe")]);
    let before: Vec<String> = repository
        .content_with_unapplied_extractor("r", &b1, None)
        .unwrap()
        .iter()
        .map(|row| row.id.clone())
        .collect();
    assert_eq!(before, vec![hello.clone()]);
    repository.mark_content_as_processed(&hello, "b1").unwrap();
    assert!(repository
        .content_with_unapplied_extractor("r", &b1, None)
        .unwrap()
        .is_empty());
    let events = repository.unprocessed_extraction_events().unwrap();
    assert_eq!(events.len(), 3);
    assert!(matches!(
        &events[0].payload,
        ExtractionEventPayload::ExtractorBindingAdded { repository, id } if repository == "r" && id == "b1"
    ));
    assert!(matches!(
        &events[1].payload,
        ExtractionEventPayload::CreateContent { content_id } if *content_id == hello
    ));
}

#[test]
fn marking_one_binding_leaves_the_other_binding_alone() {
    let mut repository = store_with_hello_and_world();
    let hello = ContentPayload::from_text("r", "hello", Metadata::new()).id;
    let a = binding("a", vec![]);
    let b = binding("b", vec![]);
    repository.mark_content_as_processed(&hello, "a").unwrap();
    let for_a = repository.content_with_unapplied_extractor("r", &a, None).unwrap();
    assert_eq!(for_a.len(), 1);
    assert_eq!(for_a[0].payload, "world");
    let for_b = repository.content_with_unapplied_extractor("r", &b, None).unwrap();
    assert_eq!(for_b.len(), 2);
    assert_eq!(repository.contents[0].bindings_state.get("a"), Some(&1));
    assert_eq!(repository.contents[0].bindings_state.get("b"), None);
    assert_eq!(repository.contents[1].bindings_state.get("a"), None);
    repository.mark_content_as_processed(&hello, "b").unwrap();
    assert_eq!(repository.contents[0].bindings_state.get("a"), Some(&1));
    assert_eq!(repository.contents[0].bindings_state.get("b"), Some(&1));
    assert_eq!(repository.contents[0].payload, "hello");
    assert_eq!(
        repository.contents[0].metadata.get("topic"),
        Some(&JsonValue::Text("pipe".to_string()))
    );
}

#[test]
fn marking_missing_content_changes_nothing() {
    let mut repository = store_with_hello_and_world();
    repository.mark_content_as_processed("missing", "a").unwrap();
    assert_eq!(repository.contents.len(), 2);
    assert!(repository.contents[0].bindings_state.is_empty());
    assert!(repository.contents[1].bindings_state.is_empty());
}

#[test]
fn ingesting_the_same_text_twice_leaves_one_row() {
    let mut repository = Repository::new();
    repository
        .add_content("r", vec![ContentPayload::from_text("r", "hello", topic("pipe"))])
        .unwrap();
    repository
        .add_content("r", vec![ContentPayload::from_text("r", "hello", topic("other"))])
        .unwrap();
    assert_eq!(repository.contents.len(), 1);
    assert_eq!(
        repository.contents[0].metadata.get("topic"),
        Some(&JsonValue::Text("pipe".to_string()))
    );
    assert_eq!(repository.extraction_events.len(), 1);
}

#[test]
fn a_payload_repeated_within_a_batch_is_filed_once() {
    let mut repository = Repository::new();
    repository
        .add_content_with_ids(
            "r",
            vec![
                ContentPayload::from_text("r", "hello", Metadata::new()),
                ContentPayload::from_text("r", "hello", Metadata::new()),
            ],
            vec!["e1".to_string(), "e2".to_string()],
        )
        .unwrap();
    assert_eq!(repository.contents.len(), 1);
    assert_eq!(repository.extraction_events.len(), 1);
    assert_eq!(repository.extraction_events[0].event.id, "e1");
}

#[test]
fn a_known_payload_in_a_batch_is_not_announced_again() {
    let mut repository = Repository::new();
    let known = ContentPayload::from_text("r", "hello", Metadata::new());
    let known_id = known.id.clone();
    repository
        .add_content_with_ids("r", vec![known], vec!["e1".to_string()])
        .unwrap();
    let fresh = ContentPayload::from_text("r", "world", Metadata::new());
    let fresh_id = fresh.id.clone();
    repository
        .add_content_with_ids(
            "r",
            vec![ContentPayload::from_text("r", "hello", Metadata::new()), fresh],
            vec!["e1".to_string(), "e2".to_string()],
        )
        .unwrap();
    assert_eq!(repository.contents.len(), 2);
    assert_eq!(repository.contents[0].id, known_id);
    assert_eq!(repository.contents[1].id, fresh_id);
    assert_eq!(repository.extraction_events.len(), 2);
    assert_eq!(repository.extraction_events[1].event.id, "e2");
    assert_eq!(repository.extraction_events[1].event.repository_id, "r");
    assert_eq!(repository.extraction_events[1].processed_at, None);
    assert!(matches!(
        &repository.extraction_events[1].event.payload,
        ExtractionEventPayload::CreateContent { content_id } if *content_id == fresh_id
    ));
    let announcing_known = repository
        .extraction_events
        .iter()
        .filter(|row| {
            matches!(
                &row.event.payload,
                ExtractionEventPayload::CreateContent { content_id } if *content_id == known_id
            )
        })
        .count();
    assert_eq!(announcing_known, 1);
}

#[test]
fn every_content_item_is_announced_by_one_event() {
    let mut repository = Repository::new();
    repository
        .add_content(
            "r",
            vec![
                ContentPayload::from_text("r", "a", Metadata::new()),
                ContentPayload::from_text("r", "b", Metadata::new()),
                ContentPayload::from_text("r", "a", Metadata::new()),
            ],
        )
        .unwrap();
    repository
        .add_content(
            "r",
            vec![
                ContentPayload::from_text("r", "b", Metadata::new()),
                ContentPayload::from_text("r", "c", Metadata::new()),
            ],
        )
        .unwrap();
    assert_eq!(repository.contents.len(), 3);
    assert_eq!(repository.extraction_events.len(), 3);
    for (row, logged) in repository.contents.iter().zip(repository.extraction_events.iter()) {
        assert!(matches!(
            &logged.event.payload,
            ExtractionEventPayload::CreateContent { content_id } if *content_id == row.id
        ));
        assert_eq!(logged.event.repository_id, "r");
    }
}

#[test]
fn an_empty_batch_changes_nothing() {
    let mut repository = Repository::new();
    repository.add_content("r", vec![]).unwrap();
    assert!(repository.contents.is_empty());
    assert!(repository.extraction_events.is_empty());
}

#[test]
fn content_and_event_are_written_together() {
    let mut repository = Repository::new();
    let p = ContentPayload::from_text("r", "hello", Metadata::new());
    let id = p.id.clone();
    repository
        .add_content_with_ids("r", vec![p], vec!["event1".to_string()])
        .unwrap();
    assert_eq!(repository.contents.len(), 1);
    assert_eq!(repository.contents[0].id, id);
    assert_eq!(repository.extraction_events.len(), 1);
    let row = &repository.extraction_events[0];
    assert_eq!(row.event.id, "event1");
    assert_eq!(row.event.repository_id, "r");
    assert_eq!(row.processed_at, None);
    assert!(matches!(
        &row.event.payload,
        ExtractionEventPayload::CreateContent { content_id } if *content_id == id
    ));
}

#[test]
fn a_refused_event_leaves_no_orphan_content() {
    let mut repository = Repository::new();
    repository
        .add_content_with_ids(
            "r",
            vec![ContentPayload::from_text("r", "hello", Metadata::new())],
            vec!["event1".to_string()],
        )
        .unwrap();
    let r = repository.add_content_with_ids(
        "r",
        vec![
            ContentPayload::from_text("r", "world", Metadata::new()),
            ContentPayload::from_text("r", "again", Metadata::new()),
        ],
        vec!["event2".to_string(), "event1".to_string()],
    );
    match r {
        Err(RepositoryError::DatabaseError(key)) => assert_eq!(key, "event1"),
        other => panic!("unexpected: {:?}", other),
    }
    assert_eq!(repository.contents.len(), 1);
    assert_eq!(repository.contents[0].payload, "hello");
    assert_eq!(repository.extraction_events.len(), 1);
}

#[test]
fn event_identifiers_repeated_within_a_batch_are_refused() {
    let mut repository = Repository::new();
    let r = repository.add_content_with_ids(
        "r",
        vec![
            ContentPayload::from_text("r", "a", Metadata::new()),
            ContentPayload::from_text("r", "b", Metadata::new()),
        ],
        vec!["same".to_string(), "same".to_string()],
    );
    assert!(matches!(r, Err(RepositoryError::DatabaseError(key)) if key == "same"));
    assert!(repository.contents.is_empty());
    assert!(repository.extraction_events.is_empty());
}

#[test]
fn a_batch_of_known_content_is_accepted_whatever_the_event_identifiers() {
    let mut repository = Repository::new();
    repository
        .add_content_with_ids(
            "r",
            vec![ContentPayload::from_text("r", "hello", Metadata::new())],
            vec!["event1".to_string()],
        )
        .unwrap();
    repository
        .add_content_with_ids(
            "r",
            vec![ContentPayload::from_text("r", "hello", Metadata::new())],
            vec!["event1".to_string()],
        )
        .unwrap();
    assert_eq!(repository.contents.len(), 1);
    assert_eq!(repository.extraction_events.len(), 1);
}

#[test]
fn content_is_read_back_from_its_repository() {
    let repository = store_with_hello_and_world();
    let hello = ContentPayload::from_text("r", "hello", Metadata::new()).id;
    let p = repository.content_from_repo(&hello, "r").unwrap();
    assert_eq!(p.id, hello);
    assert_eq!(p.payload, "hello");
    assert_eq!(p.content_type, "text/plain");
    assert_eq!(p.payload_type, PayloadType::EmbeddedStorage);
    assert_eq!(p.metadata.get("topic"), Some(&JsonValue::Text("pipe".to_string())));
    match repository.content_from_repo(&hello, "other") {
        Err(RepositoryError::ContentNotFound(key)) => assert_eq!(key, hello),
        other => panic!("unexpected: {:?}", other),
    }
    assert!(matches!(
        repository.content_from_repo("missing", "r"),
        Err(RepositoryError::ContentNotFound(key)) if key == "missing"
    ));
}

#[test]
fn content_with_an_unreadable_media_type_is_read_as_octet_stream() {
    let mut repository = Repository::new();
    let mut p = ContentPayload::from_text("r", "hello", Metadata::new());
    p.content_type = "no media type".to_string();
    let id = p.id.clone();
    repository.add_content("r", vec![p]).unwrap();
    let read = repository.content_from_repo(&id, "r").unwrap();
    assert_eq!(read.content_type, "application/octet-stream");
}
