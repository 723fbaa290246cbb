use extraction_store::binding::{ExtractorBinding, ExtractorFilter};
use extraction_store::json::JsonValue;
use extraction_store::statement::{binding_statement, completion_statement, selection_statement};

const HEAD: &str = "select * from content where repository_id=$1 and COALESCE(cast(extractor_bindings_state->'state'->>$2 as int),0) < 1";

fn eq(field: &str, value: &str) -> ExtractorFilter {
    ExtractorFilter::Eq { field: field.to_string(), value: JsonValue::Text(value.to_string()) }
}

fn neq(field: &str, value: &str) -> ExtractorFilter {
    ExtractorFilter::Neq { field: field.to_string(), value: JsonValue::Text(value.to_string()) }
}

fn binding(filters: Vec<ExtractorFilter>) -> ExtractorBinding {
    ExtractorBinding::new("b1", "r", "extractor1".to_string(), filters, JsonValue::Null)
}

#[test]
fn selection_statement_without_filters_has_two_values() {
    let s = selection_statement("r", &binding(vec![]), None);
    assert_eq!(s.text, HEAD);
    assert_eq!(s.values, vec!["r".to_string(), "b1".to_string()]);
}

#[test]
fn selection_statement_numbers_the_values_of_a_filter() {
    let s = selection_statement("r", &binding(vec![eq("topic", "pipe")]), None);
    assert_eq!(s.text, format!("{} and metadata->>$3 = $4", HEAD));
    assert_eq!(
        s.values,
        vec!["r".to_string(), "b1".to_string(), "topic".to_string(), "pipe".to_string()]
    );
}

#[test]
fn selection_statement_for_one_item_shifts_the_filters_by_one() {
    let s = selection_statement("r", &binding(vec![neq("topic", "pipe")]), Some("c1"));
    assert_eq!(s.text, format!("{} and id = $3 and metadata->>$4 != $5", HEAD));
    assert_eq!(
        s.values,
        vec![
            "r".to_string(),
            "b1".to_string(),
            "c1".to_string(),
            "topic".to_string(),
            "pipe".to_string()
        ]
    );
}

#[test]
fn selection_statement_reaches_placeholders_of_two_digits() {
    let filters = vec![eq("a", "1"), neq("b", "2"), eq("c", "3"), neq("d", "4")];
    let s = selection_statement("r", &binding(filters), Some("c1"));
    assert_eq!(
        s.text,
        format!(
            "{} and id = $3 and metadata->>$4 = $5 and metadata->>$6 != $7 and metadata->>$8 = $9 and metadata->>$10 != $11",
            HEAD
        )
    );
    assert_eq!(s.values.len(), 11);
    assert_eq!(s.values[9], "d");
    assert_eq!(s.values[10], "4");
}

#[test]
fn selection_statement_writes_no_value_into_its_text() {
    let s = selection_statement(
        "r'; drop table content; --",
        &binding(vec![eq("x' or '1'='1", "y\"")]),
        Some("c'"),
    );
    assert_eq!(s.text, format!("{} and id = $3 and metadata->>$4 = $5", HEAD));
    assert_eq!(s.values[0], "r'; drop table content; --");
    assert_eq!(s.values[3], "x' or '1'='1");
}

#[test]
fn selection_statement_turns_a_malformed_filter_into_false() {
    let malformed =
        ExtractorFilter::Eq { field: "topic".to_string(), value: JsonValue::Number("1".to_string()) };
    let s = selection_statement("r", &binding(vec![malformed, eq("topic", "pipe")]), None);
    assert_eq!(s.text, format!("{} and false and metadata->>$3 = $4", HEAD));
    assert_eq!(
        s.values,
        vec!["r".to_string(), "b1".to_string(), "topic".to_string(), "pipe".to_string()]
    );
}

#[test]
fn completion_statement_sets_the_marker_of_one_binding() {
    let s = completion_statement("c1", "b1");
    assert_eq!(
        s.text,
        "update content set extractor_bindings_state['state'][$2] = '1' where id=$1"
    );
    assert_eq!(s.values, vec!["c1".to_string(), "b1".to_string()]);
}

#[test]
fn binding_statement_looks_for_the_key_in_the_repository_named() {
    let s = binding_statement("r", "b1");
    assert_eq!(
        s.text,
        "select name, metadata, data_connectors, extractor_bindings  from data_repository, jsonb_each(data_repository.extractor_bindings) binding_ids where data_repository.name = $1 and binding_ids.key = $2"
    );
    assert_eq!(s.values, vec!["r".to_string(), "b1".to_string()]);
}
