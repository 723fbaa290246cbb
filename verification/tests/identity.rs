use extraction_store::content::{
    read_media_type, settle_media_type, Chunk, ContentPayload, ExtractedAttributes, PayloadType,
};
use extraction_store::events::Event;
use extraction_store::identity::{fingerprint_four, fingerprint_pair};
use extraction_store::json::{JsonValue, Metadata};
use extraction_store::work::{Work, WorkState};
use std::collections::hash_map::DefaultHasher;
use std::hash::{Hash, Hasher};

fn hashed(parts: &[&str]) -> String {
    let mut s = DefaultHasher::new();
    for p in parts {
        p.hash(&mut s);
    }
    format!("{:x}", s.finish())
}

#[test]
fn fingerprint_of_two_parts_is_the_hash_in_lower_hex() {
    assert_eq!(fingerprint_pair("test", "hello"), hashed(&["test", "hello"]));
    assert_eq!(fingerprint_pair("", ""), hashed(&["", ""]));
    let id = fingerprint_pair("test", "hello");
    assert!(!id.is_empty() && id.len() <= 16);
    assert!(id.chars().all(|c| c.is_ascii_digit() || ('a'..='f').contains(&c)));
}

#[test]
fn fingerprint_depends_on_each_part_and_on_their_order() {
    assert_ne!(fingerprint_pair("test", "hello"), fingerprint_pair("test", "world"));
    assert_ne!(fingerprint_pair("test", "hello"), fingerprint_pair("other", "hello"));
    assert_ne!(fingerprint_pair("ab", "c"), fingerprint_pair("a", "bc"));
    assert_ne!(fingerprint_pair("a", "b"), fingerprint_pair("b", "a"));
}

#[test]
fn fingerprint_of_four_parts_is_the_hash_in_lower_hex() {
    assert_eq!(fingerprint_four("c", "r", "e", "b"), hashed(&["c", "r", "e", "b"]));
    assert_ne!(fingerprint_four("c", "r", "e", "b"), fingerprint_four("c", "r", "e", "x"));
}

#[test]
fn identifying_the_same_text_twice_gives_the_same_id() {
    let a = ContentPayload::from_text("repo", "hello", Metadata::new());
    let b = ContentPayload::from_text("repo", "hello", Metadata::new());
    assert_eq!(a.id, b.id);
    assert_eq!(a.id, hashed(&["repo", "hello"]));
    let other_repository = ContentPayload::from_text("repo2", "hello", Metadata::new());
    assert_ne!(a.id, other_repository.id);
}

#[test]
fn inline_text_is_plain_text_in_embedded_storage() {
    let mut metadata = Metadata::new();
    metadata.insert("topic".to_string(), JsonValue::Text("pipe".to_string()));
    let p = ContentPayload::from_text("repo", "hello", metadata);
    assert_eq!(p.content_type, "text/plain");
    assert_eq!(p.payload, "hello");
    assert_eq!(p.payload_type, PayloadType::EmbeddedStorage);
    assert_eq!(p.metadata.get("topic"), Some(&JsonValue::Text("pipe".to_string())));
    assert_eq!(p.metadata.get("other"), None);
}

#[test]
fn blob_link_is_identified_by_its_name_and_typed_by_its_extension() {
    let p = ContentPayload::from_file("repo", "picture.png", "/blobs/1");
    assert_eq!(p.id, hashed(&["repo", "picture.png"]));
    assert_eq!(p.content_type, "image/png");
    assert_eq!(p.payload, "/blobs/1");
    assert_eq!(p.payload_type, PayloadType::BlobStorageLink);
    assert!(p.metadata.is_empty());
    let same_name = ContentPayload::from_file("repo", "picture.png", "/blobs/2");
    assert_eq!(p.id, same_name.id);
}

#[test]
fn blob_link_of_unknown_extension_is_an_octet_stream() {
    let p = ContentPayload::from_file("repo", "data.zzzunknown", "/blobs/1");
    assert_eq!(p.content_type, "application/octet-stream");
    let bare = ContentPayload::from_file("repo", "noextension", "/blobs/1");
    assert_eq!(bare.content_type, "application/octet-stream");
}

#[test]
fn stored_media_type_is_read_or_falls_back() {
    assert_eq!(read_media_type("text/plain"), "text/plain");
    assert_eq!(read_media_type("image/png"), "image/png");
    assert_eq!(read_media_type("not a media type"), "application/octet-stream");
    assert_eq!(read_media_type(""), "application/octet-stream");
    assert_eq!(settle_media_type(Some("a/b".to_string())), "a/b");
    assert_eq!(settle_media_type(None), "application/octet-stream");
}

#[test]
fn payload_type_names_round_trip() {
    assert_eq!(PayloadType::EmbeddedStorage.to_string(), "embedded_storage");
    assert_eq!(PayloadType::BlobStorageLink.to_string(), "blob_storage_link");
    assert_eq!(PayloadType::from_str("embedded_storage"), Some(PayloadType::EmbeddedStorage));
    assert_eq!(PayloadType::from_str("blob_storage_link"), Some(PayloadType::BlobStorageLink));
    assert_eq!(PayloadType::from_str("EmbeddedStorage"), None);
    assert_eq!(PayloadType::default(), PayloadType::EmbeddedStorage);
}

#[test]
fn chunk_is_identified_by_content_and_text() {
    let c = Chunk::new("some text".to_string(), "content1".to_string());
    assert_eq!(c.chunk_id, hashed(&["content1", "some text"]));
    assert_eq!(c.text, "some text");
    assert_eq!(c.content_id, "content1");
}

#[test]
fn extracted_attributes_are_identified_by_content_and_extractor() {
    let a = ExtractedAttributes::new("content1", JsonValue::Number("3".to_string()), "ex");
    assert_eq!(a.id, hashed(&["content1", "ex"]));
    assert_eq!(a.content_id, "content1");
    assert_eq!(a.extractor_name, "ex");
    assert_eq!(a.attributes, JsonValue::Number("3".to_string()));
}

#[test]
fn work_is_identified_by_its_four_parts_and_starts_pending_without_executor() {
    let params = JsonValue::Nested("{}".to_string());
    let w = Work::new("c1", "repo", "extractor1", "binding1", &params, None);
    assert_eq!(w.id, hashed(&["c1", "repo", "extractor1", "binding1"]));
    assert_eq!(w.content_id, "c1");
    assert_eq!(w.repository_id, "repo");
    assert_eq!(w.extractor, "extractor1");
    assert_eq!(w.extractor_binding, "binding1");
    assert_eq!(w.extractor_params, params);
    assert_eq!(w.work_state, WorkState::Pending);
    assert_eq!(w.executor_id, None);
    let named = Work::new("c1", "repo", "extractor1", "binding1", &params, Some("worker7"));
    assert_eq!(named.id, w.id);
    assert_eq!(named.executor_id, None);
    assert_eq!(named.work_state, WorkState::Pending);
}

#[test]
fn event_takes_the_time_given_or_the_clock() {
    let e = Event::new("started", Some(42), Metadata::new());
    assert_eq!(e.message, "started");
    assert_eq!(e.unix_timestamp, 42);
    assert_eq!(e.id.chars().count(), 21);
    let now = Event::new("started", None, Metadata::new());
    assert!(now.unix_timestamp > 1_600_000_000);
    assert_ne!(e.id, now.id);
    let fixed = Event::assemble("id1".to_string(), "m", None, Some(7), Metadata::new());
    assert_eq!(fixed.id, "id1");
    assert_eq!(fixed.unix_timestamp, 7);
    let no_clock = Event::assemble("id2".to_string(), "m", None, None, Metadata::new());
    assert_eq!(no_clock.unix_timestamp, 0);
    let given = Event::assemble("id3".to_string(), "m", Some(9), Some(7), Metadata::new());
    assert_eq!(given.unix_timestamp, 9);
}

#[test]
fn metadata_keeps_the_last_value_set_for_a_key() {
    let mut m = Metadata::new();
    assert!(m.is_empty());
    m.insert("a".to_string(), JsonValue::Bool(true));
    m.insert("b".to_string(), JsonValue::Null);
    m.insert("a".to_string(), JsonValue::Text("x".to_string()));
    assert!(!m.is_empty());
    assert_eq!(m.get("a"), Some(&JsonValue::Text("x".to_string())));
    assert_eq!(m.get("b"), Some(&JsonValue::Null));
    assert_eq!(m.get("c"), None);
    let copy = m.clone();
    assert_eq!(copy.get("a"), Some(&JsonValue::Text("x".to_string())));
    assert_eq!(copy.get("b"), Some(&JsonValue::Null));
}

#[test]
fn json_value_gives_its_string_and_its_text() {
    assert_eq!(JsonValue::Text("pipe".to_string()).as_str(), Some("pipe"));
    assert_eq!(JsonValue::Number("5".to_string()).as_str(), None);
    assert_eq!(JsonValue::Null.as_str(), None);
    assert_eq!(JsonValue::Text("pipe".to_string()).as_extracted_text(), Some("pipe"));
    assert_eq!(JsonValue::Number("5".to_string()).as_extracted_text(), Some("5"));
    assert_eq!(JsonValue::Bool(true).as_extracted_text(), Some("true"));
    assert_eq!(JsonValue::Bool(false).as_extracted_text(), Some("false"));
    assert_eq!(JsonValue::Nested("[1, 2]".to_string()).as_extracted_text(), Some("[1, 2]"));
    assert_eq!(JsonValue::Null.as_extracted_text(), None);
}
