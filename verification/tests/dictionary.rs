use dictosaurus::compiled::DictionarySnapshot;
use dictosaurus::dictionary::{
    compact_json, pretty_json, DictionaryDocument, DictionaryEntry, DictionaryError,
    DICTIONARY_VERSION, MAX_ALIASES_PER_ENTRY, MAX_DICTIONARY_BYTES, MAX_DICTIONARY_ENTRIES,
};

fn entry(id: &str, canonical_term: &str, aliases: &[&str]) -> DictionaryEntry {
    DictionaryEntry {
        id: id.into(),
        term: canonical_term.into(),
        aliases: aliases.iter().map(|alias| (*alias).into()).collect(),
        enabled: true,
    }
}

fn document(entries: Vec<DictionaryEntry>) -> DictionaryDocument {
    DictionaryDocument {
        version: DICTIONARY_VERSION,
        enabled: true,
        entries,
    }
}

fn snapshot(entries: Vec<DictionaryEntry>) -> DictionarySnapshot {
    DictionarySnapshot::compile(&document(entries)).unwrap()
}

#[test]
fn replaces_cyrillic_case_insensitively() {
    let snapshot = snapshot(vec![entry("1", "Ёлка", &["елочка"])]);

    assert_eq!(snapshot.apply("ЕЛОЧКА и ёлка"), "Ёлка и Ёлка");
}

#[test]
fn replaces_latin_mixed_case() {
    let snapshot = snapshot(vec![entry("1", "Rust", &[])]);

    assert_eq!(snapshot.apply("rUsT"), "Rust");
}

#[test]
fn respects_punctuation_boundaries() {
    let snapshot = snapshot(vec![entry("1", "Rust", &[])]);

    assert_eq!(snapshot.apply("(rust), rust!"), "(Rust), Rust!");
}

#[test]
fn punctuation_ending_alias_respects_unicode_word_boundaries() {
    let snapshot = snapshot(vec![entry("1", "C plus plus", &["C++"])]);

    assert_eq!(
        snapshot.apply("C++ C++x C++я xC++ яC++ (c++)"),
        "C plus plus C++x C++я xC++ яC++ (C plus plus)"
    );
}

#[test]
fn accepts_flexible_whitespace_in_multiword_aliases() {
    let snapshot = snapshot(vec![entry("1", "New York", &["new york"])]);

    assert_eq!(snapshot.apply("new\t \n york"), "New York");
}

#[test]
fn longest_overlapping_match_wins() {
    let snapshot = snapshot(vec![
        entry("1", "Big Apple", &["new york"]),
        entry("2", "New", &["new"]),
    ]);

    assert_eq!(snapshot.apply("new york"), "Big Apple");
}

#[test]
fn longer_match_wins_when_overlap_starts_later() {
    let snapshot = snapshot(vec![
        entry("1", "First", &["new york"]),
        entry("2", "Second", &["york city center"]),
    ]);

    assert_eq!(snapshot.apply("new york city center"), "new Second");
}

#[test]
fn does_not_replace_inside_another_word() {
    let snapshot = snapshot(vec![entry("1", "Cat", &["cat"])]);

    assert_eq!(snapshot.apply("concatenate cat"), "concatenate Cat");
}

#[test]
fn replacements_do_not_cascade() {
    let snapshot = snapshot(vec![
        entry("1", "Beta value", &["alpha"]),
        entry("2", "Gamma", &["beta"]),
    ]);

    assert_eq!(snapshot.apply("alpha"), "Beta value");
}

#[test]
fn disabled_dictionary_and_entries_are_ignored() {
    let disabled_entry = DictionaryEntry {
        enabled: false,
        ..entry("1", "Rust", &["rust"])
    };
    let entry_disabled = snapshot(vec![disabled_entry]);
    let globally_disabled = DictionarySnapshot::compile(&DictionaryDocument {
        enabled: false,
        ..document(vec![entry("2", "Python", &["python"])])
    })
    .unwrap();

    assert_eq!(entry_disabled.apply("rust"), "rust");
    assert_eq!(globally_disabled.apply("python"), "python");
}

#[test]
fn rejects_alias_conflicts_between_canonical_terms() {
    let result = DictionarySnapshot::compile(&document(vec![
        entry("1", "PostgreSQL", &["postgres"]),
        entry("2", "Postgres", &["POSTGRES"]),
    ]));

    assert!(matches!(result, Err(DictionaryError::AliasConflict { .. })));
}

#[test]
fn rejects_alias_conflicts_under_unicode_simple_case_folding() {
    let result = DictionarySnapshot::compile(&document(vec![
        entry("1", "First", &["S"]),
        entry("2", "Second", &["ſ"]),
    ]));

    assert!(matches!(result, Err(DictionaryError::AliasConflict { .. })));
}

#[test]
fn allows_duplicate_alias_for_the_same_canonical_term() {
    let snapshot = snapshot(vec![
        entry("1", "Rust", &["rustlang"]),
        entry("2", "Rust", &["RUSTLANG"]),
    ]);

    assert_eq!(snapshot.apply("rustlang"), "Rust");
    assert_eq!(snapshot.build_hints(100), "Rust, rustlang");
}

#[test]
fn normalizes_values_and_deduplicates_aliases() {
    let normalized = document(vec![entry(
        "  database  ",
        "  New   York ",
        &[" nyc ", "NYC", "New\tYork"],
    )])
    .normalized()
    .unwrap();

    assert_eq!(normalized.entries[0].id, "database");
    assert_eq!(normalized.entries[0].term, "New York");
    assert_eq!(normalized.entries[0].aliases, vec!["nyc"]);
}

#[test]
fn rejects_empty_terms_and_aliases() {
    let empty_term = document(vec![entry("1", " \t ", &[])]);
    let empty_alias = document(vec![entry("1", "Rust", &[" \n "])]);

    assert!(matches!(
        empty_term.normalized(),
        Err(DictionaryError::EmptyCanonicalTerm { .. })
    ));
    assert!(matches!(
        empty_alias.normalized(),
        Err(DictionaryError::EmptyAlias { .. })
    ));
}

#[test]
fn rejects_empty_id() {
    let result = document(vec![entry(" \t ", "Rust", &[])]).normalized();

    assert!(matches!(result, Err(DictionaryError::EmptyId { .. })));
}

#[test]
fn rejects_duplicate_ids_after_whitespace_normalization() {
    let result =
        document(vec![entry("a", "Rust", &[]), entry(" a ", "Python", &[])]).normalized();

    assert!(matches!(
        result,
        Err(DictionaryError::DuplicateId { id }) if id == "a"
    ));
}

#[test]
fn rejects_null_byte_in_id() {
    let result = document(vec![entry("ru\0st", "Rust", &[])]).normalized();

    assert!(matches!(
        result,
        Err(DictionaryError::NullByte { field }) if field == "entries[0].id"
    ));
}

#[test]
fn rejects_null_byte_in_term() {
    let result = document(vec![entry("1", "Ru\0st", &[])]).normalized();

    assert!(matches!(
        result,
        Err(DictionaryError::NullByte { field }) if field == "entries[0].term"
    ));
}

#[test]
fn rejects_null_byte_in_alias() {
    let result = document(vec![entry("1", "Rust", &["ru\0st"])]).normalized();

    assert!(matches!(
        result,
        Err(DictionaryError::NullByte { field }) if field == "entries[0].aliases[0]"
    ));
}

#[test]
fn rejects_excessively_large_documents() {
    let oversized = "a".repeat(MAX_DICTIONARY_BYTES);
    let result = document(vec![entry("1", &oversized, &[])]).normalized();

    assert!(matches!(
        result,
        Err(DictionaryError::DocumentTooLarge { .. })
    ));
}

#[test]
fn rejects_too_many_entries() {
    let entries = (0..=MAX_DICTIONARY_ENTRIES)
        .map(|index| entry(&index.to_string(), &format!("Term {index}"), &[]))
        .collect();

    let result = document(entries).normalized();

    assert!(matches!(
        result,
        Err(DictionaryError::TooManyEntries {
            count: 501,
            max: 500
        })
    ));
}

#[test]
fn rejects_too_many_aliases_per_entry() {
    let aliases = (0..=MAX_ALIASES_PER_ENTRY)
        .map(|index| format!("alias {index}"))
        .collect();
    let document = document(vec![DictionaryEntry {
        id: "1".into(),
        term: "Rust".into(),
        aliases,
        enabled: true,
    }]);

    let result = document.normalized();

    assert!(matches!(
        result,
        Err(DictionaryError::TooManyAliases {
            count: 33,
            max: 32,
            ..
        })
    ));
}

#[test]
fn serialization_errors_are_distinct_from_corrupt_input() {
    let error = DictionaryError::Serialization {
        message: "failed".into(),
    };

    assert_eq!(error.message(), "serialize dictionary: failed");
    assert!(!matches!(error, DictionaryError::CorruptJson { .. }));
}

#[test]
fn json_round_trip_uses_public_term_field() {
    let document = document(vec![entry("1", "New York", &["NYC"])]);

    let json = String::from_utf8(compact_json(&document)).unwrap();

    assert!(json.contains("\"term\""));
    assert!(!json.contains("\"canonicalTerm\""));
    assert_eq!(
        json,
        r#"{"version":1,"enabled":true,"entries":[{"id":"1","term":"New York","aliases":["NYC"],"enabled":true}]}"#
    );
}

#[test]
fn hints_follow_document_order_and_skip_disabled_values() {
    let disabled = DictionaryEntry {
        enabled: false,
        ..entry("2", "Hidden", &["secret"])
    };
    let snapshot = snapshot(vec![
        entry("1", "Alpha", &["A"]),
        disabled,
        entry("3", "Beta", &["B"]),
    ]);

    assert_eq!(snapshot.build_hints(100), "Alpha, A, Beta, B");
}

#[test]
fn hints_respect_total_length_limit() {
    let snapshot = snapshot(vec![entry("1", "Alpha", &["A", "Beta"])]);

    let hints = snapshot.build_hints(8);

    assert_eq!(hints, "Alpha, A");
    assert!(hints.len() <= 8);
}

#[test]
fn normalizing_twice_changes_nothing() {
    let once = document(vec![
        entry(" x ", " Big   Apple ", &["big apple", " NYC ", "nyc", "new\u{a0}york"]),
        entry("y", "Rust", &[]),
    ])
    .normalized()
    .unwrap();

    assert_eq!(once.clone().normalized().unwrap(), once);
    assert_eq!(once.entries[0].aliases, vec!["NYC", "new york"]);
}

#[test]
fn pretty_json_is_the_stored_layout() {
    let doc = document(vec![entry("1", "Rust \"lang\"", &["a\\b"])]);

    let text = String::from_utf8(pretty_json(&doc)).unwrap();

    assert_eq!(
        text,
        "{\n  \"version\": 1,\n  \"enabled\": true,\n  \"entries\": [\n    {\n      \"id\": \"1\",\n      \"term\": \"Rust \\\"lang\\\"\",\n      \"aliases\": [\n        \"a\\\\b\"\n      ],\n      \"enabled\": true\n    }\n  ]\n}"
    );
    let empty = String::from_utf8(pretty_json(&DictionaryDocument::default())).unwrap();
    assert_eq!(empty, "{\n  \"version\": 1,\n  \"enabled\": true,\n  \"entries\": []\n}");
}

#[test]
fn error_messages_read_as_before() {
    let cases = [
        (
            DictionaryError::AliasConflict {
                alias: "ny".into(),
                first_canonical_term: "New York".into(),
                second_canonical_term: "Nyan".into(),
            },
            "alias \"ny\" belongs to both \"New York\" and \"Nyan\"",
        ),
        (
            DictionaryError::CorruptJson { message: "eof".into() },
            "invalid dictionary JSON: eof",
        ),
        (
            DictionaryError::DocumentTooLarge { size: 1048577, max: 1048576 },
            "dictionary is 1048577 bytes; maximum is 1048576",
        ),
        (
            DictionaryError::DuplicateId { id: "a\"b".into() },
            "duplicate dictionary entry id \"a\\\"b\"",
        ),
        (
            DictionaryError::EmptyAlias { entry_id: "1".into(), alias_index: 2 },
            "entry \"1\" has an empty alias at 2",
        ),
        (
            DictionaryError::EmptyCanonicalTerm { entry_id: "1".into() },
            "entry \"1\" has an empty canonical term",
        ),
        (DictionaryError::EmptyId { entry_index: 0 }, "entry at index 0 has an empty id"),
        (
            DictionaryError::Storage { operation: "read dictionary".into(), message: "denied".into() },
            "read dictionary: denied",
        ),
        (
            DictionaryError::TooManyAliases { entry_index: 3, count: 33, max: 32 },
            "entry at index 3 has 33 aliases; maximum is 32",
        ),
        (
            DictionaryError::TooManyEntries { count: 501, max: 500 },
            "dictionary has 501 entries; maximum is 500",
        ),
        (
            DictionaryError::Unavailable { message: "no dir".into() },
            "dictionary unavailable: no dir",
        ),
        (
            DictionaryError::NullByte { field: "entries[0].id".into() },
            "entries[0].id contains a null byte",
        ),
        (
            DictionaryError::Regex { message: "bad".into() },
            "failed to compile dictionary: bad",
        ),
        (
            DictionaryError::UnsupportedVersion { version: 2 },
            "unsupported dictionary version 2",
        ),
    ];
    for (error, expected) in cases {
        assert_eq!(error.message(), expected);
    }
}

#[test]
fn alias_conflict_names_both_terms() {
    let result = document(vec![
        entry("1", "PostgreSQL", &["postgres"]),
        entry("2", "Postgres", &[]),
    ])
    .normalized();

    assert_eq!(
        result,
        Err(DictionaryError::AliasConflict {
            alias: "postgres".into(),
            first_canonical_term: "PostgreSQL".into(),
            second_canonical_term: "Postgres".into(),
        })
    );
}

#[test]
fn unsupported_version_is_rejected_first() {
    let result = DictionaryDocument {
        version: 2,
        ..document(vec![entry("", "", &[])])
    }
    .normalized();

    assert_eq!(result, Err(DictionaryError::UnsupportedVersion { version: 2 }));
}

#[test]
fn replacement_preserves_surrounding_text_and_multiple_matches() {
    let snapshot = snapshot(vec![entry("1", "Kubernetes", &["kube", "k eight s"])]);

    assert_eq!(
        snapshot.apply("kube and K  EIGHT s, kubectl"),
        "Kubernetes and Kubernetes, kubectl"
    );
    assert_eq!(snapshot.apply(""), "");
}

#[test]
fn normalized_documents_are_clean() {
    let n = document(vec![
        entry(" a ", " Rust ", &["rust", " RUST lang ", "rust  lang"]),
        entry("b", "Go", &["golang"]),
    ])
    .normalized()
    .unwrap();

    assert_eq!(n.version, DICTIONARY_VERSION);
    assert_ne!(n.entries[0].id, n.entries[1].id);
    for e in &n.entries {
        for text in std::iter::once(&e.id).chain(std::iter::once(&e.term)).chain(e.aliases.iter()) {
            assert!(!text.is_empty());
            assert_eq!(text.split_whitespace().collect::<Vec<_>>().join(" "), *text);
            assert!(!text.contains('\0'));
        }
    }
    assert_eq!(n.entries[0].aliases, vec!["RUST lang"]);
}
