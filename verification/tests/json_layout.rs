use dictosaurus::dictionary::{compact_json, pretty_json, DictionaryDocument, DictionaryEntry};
use serde::ser::{Serialize, SerializeStruct, Serializer};

/// The document as serde sees it: the same fields in the same order.
struct SerdeDocument<'a>(&'a DictionaryDocument);
struct SerdeEntry<'a>(&'a DictionaryEntry);

impl Serialize for SerdeEntry<'_> {
    fn serialize<S: Serializer>(&self, serializer: S) -> Result<S::Ok, S::Error> {
        let mut s = serializer.serialize_struct("DictionaryEntry", 4)?;
        s.serialize_field("id", &self.0.id)?;
        s.serialize_field("term", &self.0.term)?;
        s.serialize_field("aliases", &self.0.aliases)?;
        s.serialize_field("enabled", &self.0.enabled)?;
        s.end()
    }
}

impl Serialize for SerdeDocument<'_> {
    fn serialize<S: Serializer>(&self, serializer: S) -> Result<S::Ok, S::Error> {
        let entries: Vec<SerdeEntry> = self.0.entries.iter().map(SerdeEntry).collect();
        let mut s = serializer.serialize_struct("DictionaryDocument", 3)?;
        s.serialize_field("version", &self.0.version)?;
        s.serialize_field("enabled", &self.0.enabled)?;
        s.serialize_field("entries", &entries)?;
        s.end()
    }
}

fn sample_documents() -> Vec<DictionaryDocument> {
    let entry = |id: &str, term: &str, aliases: &[&str], enabled: bool| DictionaryEntry {
        id: id.into(),
        term: term.into(),
        aliases: aliases.iter().map(|a| (*a).to_string()).collect(),
        enabled,
    };
    vec![
        DictionaryDocument::default(),
        DictionaryDocument {
            version: 7,
            enabled: false,
            entries: vec![entry("1", "Rust", &[], true)],
        },
        DictionaryDocument {
            version: 1,
            enabled: true,
            entries: vec![
                entry("a\"b", "Quote \" and \\ slash", &["tab\there", "line\nbreak"], true),
                entry("ctl", "bell\u{7} escape\u{1b} nul-free", &["\u{1f}", "ёжик", "日本語", "😀"], false),
                entry("3", "C++", &["c plus plus", "сиплюсплюс"], true),
            ],
        },
    ]
}

#[test]
fn compact_json_matches_serde_json() {
    for doc in sample_documents() {
        let expected = serde_json::to_vec(&SerdeDocument(&doc)).unwrap();
        assert_eq!(
            String::from_utf8(compact_json(&doc)).unwrap(),
            String::from_utf8(expected).unwrap()
        );
    }
}

#[test]
fn pretty_json_matches_serde_json() {
    for doc in sample_documents() {
        let expected = serde_json::to_vec_pretty(&SerdeDocument(&doc)).unwrap();
        assert_eq!(
            String::from_utf8(pretty_json(&doc)).unwrap(),
            String::from_utf8(expected).unwrap()
        );
    }
}
