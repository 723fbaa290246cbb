use crate::assoc::Dictionary;
use vstd::prelude::*;

verus! {

/// A JSON value as the coordination layer sees it. Scalars are held by their
/// content; a number by its decimal text; an array or an object by its JSON
/// text, which this layer carries and never looks into. A filter compares
/// with these texts, so whoever builds a value gives a number and a nested
/// value in the text that the store extracts for it.
#[derive(Debug, PartialEq, Eq)]
pub enum JsonValue {
    Null,
    Bool(bool),
    Number(String),
    Text(String),
    Nested(String),
}

impl JsonValue {
    /// The string that the value holds, if it is a JSON string.
    pub open spec fn string_content(self) -> Option<Seq<char>> {
        match self {
            JsonValue::Text(s) => Some(s@),
            _ => None,
        }
    }

    /// The text that a store's text extraction yields for the value: a
    /// string's content, the JSON text of anything else, nothing for `null`.
    pub open spec fn extracted_text(self) -> Option<Seq<char>> {
        match self {
            JsonValue::Null => None,
            JsonValue::Bool(b) => Some(if b { "true"@ } else { "false"@ }),
            JsonValue::Number(n) => Some(n@),
            JsonValue::Text(s) => Some(s@),
            JsonValue::Nested(t) => Some(t@),
        }
    }

    /// The string that the value holds, if it is a JSON string.
    pub fn as_str(&self) -> (r: Option<&str>)
        ensures
            match r {
                Some(s) => self.string_content() == Some(s@),
                None => self.string_content() is None,
            },
    {
        match self {
            JsonValue::Text(s) => Some(s.as_str()),
            _ => None,
        }
    }

    /// The text by which the value is compared in a filter.
    pub fn as_extracted_text(&self) -> (r: Option<&str>)
        ensures
            match r {
                Some(s) => self.extracted_text() == Some(s@),
                None => self.extracted_text() is None,
            },
    {
        match self {
            JsonValue::Null => None,
            JsonValue::Bool(b) => if *b { Some("true") } else { Some("false") },
            JsonValue::Number(n) => Some(n.as_str()),
            JsonValue::Text(s) => Some(s.as_str()),
            JsonValue::Nested(t) => Some(t.as_str()),
        }
    }
}

impl Clone for JsonValue {
    fn clone(&self) -> (r: Self)
        ensures
            r == *self,
    {
        match self {
            JsonValue::Null => JsonValue::Null,
            JsonValue::Bool(b) => JsonValue::Bool(*b),
            JsonValue::Number(n) => JsonValue::Number(n.clone()),
            JsonValue::Text(s) => JsonValue::Text(s.clone()),
            JsonValue::Nested(t) => JsonValue::Nested(t.clone()),
        }
    }
}

/// The metadata of a content item or an event: a mapping from keys to JSON
/// values.
pub type Metadata = Dictionary<JsonValue>;

impl Clone for Dictionary<JsonValue> {
    fn clone(&self) -> (r: Self)
        ensures
            r@ == self@,
    {
        let source = self.entries();
        let mut entries: Vec<(String, JsonValue)> = Vec::new();
        let mut i: usize = 0;
        while i < source.len()
            invariant
                i <= source@.len(),
                entries@ == source@.take(i as int),
            decreases source@.len() - i,
        {
            let pair = (source[i].0.clone(), source[i].1.clone());
            entries.push(pair);
            assert(entries@ =~= source@.take(i + 1));
            i += 1;
        }
        assert(source@.take(i as int) =~= source@);
        let r = Dictionary::from_entries(entries);
        assert(r@ =~= self@);
        r
    }
}

} // verus!
