use dictosaurus::commands::{get_dictionary_from, DictionaryCommandError, DictionaryErrorCode};
use dictosaurus::dictionary::{DictionaryDocument, DictionaryEntry, DictionaryError, DICTIONARY_VERSION};
use dictosaurus::store::{dictionary_path, storage_error, DictionaryStore};

fn new_entry(id: &str, canonical_term: &str, aliases: &[&str]) -> DictionaryEntry {
    DictionaryEntry {
        id: id.into(),
        term: canonical_term.into(),
        aliases: aliases.iter().map(|alias| (*alias).into()).collect(),
        enabled: true,
    }
}

fn new_document(entries: Vec<DictionaryEntry>) -> DictionaryDocument {
    DictionaryDocument {
        version: DICTIONARY_VERSION,
        enabled: true,
        entries,
    }
}

fn corrupt() -> DictionaryError {
    DictionaryError::CorruptJson {
        message: "key must be a string at line 1 column 2".into(),
    }
}

/// The store for a file whose content did not parse.
fn corrupt_store() -> DictionaryStore {
    DictionaryStore::from_loaded("/data/dictionary.json".into(), Err(corrupt()))
}

#[test]
fn unavailable_store_reports_path_error_and_uses_disabled_snapshot() {
    let store = DictionaryStore::unavailable("app data directory unavailable".into());

    assert!(matches!(
        store.load_error(),
        Some(DictionaryError::Unavailable { message })
            if message == "app data directory unavailable"
    ));
    assert_eq!(store.current(), &DictionaryDocument::default());
    assert_eq!(store.snapshot().apply("rust"), "rust");
}

#[test]
fn unavailable_store_rejects_update_and_reset_without_changing_state() {
    let store = DictionaryStore::unavailable("app data directory unavailable".into());
    let path_error = store.load_error().cloned().unwrap();

    assert_eq!(
        store
            .prepare_update(&new_document(vec![new_entry("1", "Rust", &["rustlang"])]))
            .err(),
        Some(path_error.clone())
    );
    assert_eq!(store.prepare_reset().err(), Some(path_error.clone()));
    assert_eq!(store.load_error(), Some(&path_error));
    assert_eq!(store.current(), &DictionaryDocument::default());
    assert_eq!(store.snapshot().apply("rustlang"), "rustlang");
}

#[test]
fn unavailable_store_rejects_reload_with_its_typed_path_error() {
    let mut store = DictionaryStore::unavailable("app data directory unavailable".into());
    let path_error = store.load_error().cloned().unwrap();

    assert_eq!(store.reload(Ok(DictionaryDocument::default())), Err(path_error.clone()));
    assert_eq!(store.load_error(), Some(&path_error));
    assert_eq!(store.snapshot().apply("rust"), "rust");
}

#[test]
fn directory_path_is_a_fail_closed_storage_error() {
    let store = DictionaryStore::from_loaded(
        "/data".into(),
        Err(storage_error("read dictionary", "Is a directory (os error 21)".into())),
    );

    assert!(matches!(
        store.load_error(),
        Some(DictionaryError::Storage { .. })
    ));
    assert_eq!(store.snapshot().apply("rust"), "rust");
}

#[test]
fn corrupt_json_disables_matcher() {
    let store = corrupt_store();

    assert!(matches!(store.load_error(), Some(DictionaryError::CorruptJson { .. })));
    assert_eq!(store.snapshot().apply("rust"), "rust");
    assert_eq!(store.current(), &DictionaryDocument::default());
}

#[test]
fn unsupported_version_disables_matcher() {
    let store = DictionaryStore::from_loaded(
        "/data/dictionary.json".into(),
        Ok(DictionaryDocument { version: 2, enabled: true, entries: Vec::new() }),
    );

    assert!(matches!(
        store.load_error(),
        Some(DictionaryError::UnsupportedVersion { version: 2 })
    ));
    assert_eq!(store.snapshot().apply("rust"), "rust");
}

#[test]
fn missing_file_loads_the_default_document() {
    let store = DictionaryStore::from_loaded(
        "/data/dictionary.json".into(),
        Ok(DictionaryDocument::default()),
    );

    assert!(store.load_error().is_none());
    assert_eq!(store.current(), &DictionaryDocument::default());
    assert_eq!(store.path().map(|p| p.as_str()), Some("/data/dictionary.json"));
}

#[test]
fn reload_recovers_after_external_file_repair() {
    let mut store = corrupt_store();
    let repaired = new_document(vec![new_entry("rust", "Rust", &["rustlang"])]);

    let reloaded = store.reload(Ok(repaired.clone())).unwrap();

    assert_eq!(reloaded, repaired);
    assert!(store.load_error().is_none());
    assert_eq!(store.snapshot().apply("rustlang"), "Rust");
}

#[test]
fn reload_failure_is_fail_closed() {
    let initial = new_document(vec![new_entry("rust", "Rust", &["rustlang"])]);
    let mut store = DictionaryStore::from_loaded("/data/dictionary.json".into(), Ok(initial.clone()));
    assert_eq!(store.snapshot().apply("rustlang"), "Rust");

    let error = store.reload(Err(corrupt())).unwrap_err();

    assert!(matches!(error, DictionaryError::CorruptJson { .. }));
    assert!(matches!(store.load_error(), Some(DictionaryError::CorruptJson { .. })));
    assert_eq!(store.snapshot().apply("rustlang"), "rustlang");
    assert_eq!(store.current(), &initial);
}

#[test]
fn invalid_update_preserves_load_error() {
    let sources = [
        Err(corrupt()),
        Ok(DictionaryDocument { version: 2, enabled: true, entries: Vec::new() }),
    ];
    for read in sources {
        let store = DictionaryStore::from_loaded("/data/dictionary.json".into(), read);
        let initial_error = store.load_error().cloned().unwrap();

        let result = store.prepare_update(&new_document(vec![new_entry("1", " ", &[])]));

        assert!(matches!(result, Err(DictionaryError::EmptyCanonicalTerm { .. })));
        assert_eq!(store.load_error(), Some(&initial_error));
        assert_eq!(store.snapshot().apply("rust"), "rust");
    }
}

#[test]
fn reset_clears_load_error_and_writes_default_document() {
    let mut store = corrupt_store();
    assert!(store.load_error().is_some());

    let pending = store.prepare_reset().unwrap();
    assert_eq!(pending.path(), "/data/dictionary.json");
    assert_eq!(
        String::from_utf8(pending.bytes().clone()).unwrap(),
        "{\n  \"version\": 1,\n  \"enabled\": true,\n  \"entries\": []\n}"
    );
    store.commit_update(pending, Ok(())).unwrap();

    assert!(store.load_error().is_none());
    assert_eq!(store.current(), &DictionaryDocument::default());
}

#[test]
fn valid_update_clears_load_error() {
    let mut store = corrupt_store();
    assert!(store.load_error().is_some());

    let pending = store
        .prepare_update(&new_document(vec![new_entry("1", "Rust", &["rustlang"])]))
        .unwrap();
    store.commit_update(pending, Ok(())).unwrap();

    assert!(store.load_error().is_none());
    assert_eq!(store.snapshot().apply("rustlang"), "Rust");
}

#[test]
fn update_dictionary_returns_the_canonical_saved_document() {
    let mut store = DictionaryStore::from_loaded("/data/dictionary.json".into(), Ok(DictionaryDocument::default()));
    let input = DictionaryDocument {
        entries: vec![DictionaryEntry {
            id: "  rust  ".into(),
            term: "  Rust   Language  ".into(),
            aliases: vec![" rustlang ".into(), "RUSTLANG".into()],
            enabled: true,
        }],
        ..DictionaryDocument::default()
    };

    let pending = store.prepare_update(&input).unwrap();
    let saved = store.commit_update(pending, Ok(())).unwrap();

    assert_eq!(
        saved,
        DictionaryDocument {
            entries: vec![DictionaryEntry {
                id: "rust".into(),
                term: "Rust Language".into(),
                aliases: vec!["rustlang".into()],
                enabled: true,
            }],
            ..DictionaryDocument::default()
        }
    );
    assert_eq!(get_dictionary_from(&store).unwrap(), saved);
    let again = store.prepare_update(&saved).unwrap();
    assert_eq!(again.document(), &saved);
}

#[test]
fn oversized_pretty_text_is_rejected_before_writing() {
    let store = DictionaryStore::from_loaded("/data/dictionary.json".into(), Ok(DictionaryDocument::default()));
    let entries = (0..400)
        .map(|index| DictionaryEntry {
            id: index.to_string(),
            term: format!("T{index}{}", "x".repeat(2560)),
            aliases: Vec::new(),
            enabled: true,
        })
        .collect();

    let result = store.prepare_update(&new_document(entries));

    assert!(matches!(result, Err(DictionaryError::DocumentTooLarge { .. })));
}

#[test]
fn get_dictionary_reports_load_error() {
    let store = corrupt_store();

    let error = get_dictionary_from(&store).unwrap_err();

    assert_eq!(error.code, DictionaryErrorCode::CorruptJson);
    assert!(error.message.contains("invalid dictionary JSON"));
}

#[test]
fn dictionary_error_codes_are_stable_and_centralized() {
    let cases = [
        (
            DictionaryError::CorruptJson {
                message: "bad json".into(),
            },
            DictionaryErrorCode::CorruptJson,
        ),
        (
            DictionaryError::UnsupportedVersion { version: 2 },
            DictionaryErrorCode::UnsupportedVersion,
        ),
        (
            DictionaryError::Storage {
                operation: "read dictionary".into(),
                message: "denied".into(),
            },
            DictionaryErrorCode::Storage,
        ),
        (
            DictionaryError::Unavailable {
                message: "missing".into(),
            },
            DictionaryErrorCode::Unavailable,
        ),
        (
            DictionaryError::DuplicateId { id: "same".into() },
            DictionaryErrorCode::Validation,
        ),
        (
            DictionaryError::Serialization {
                message: "failed".into(),
            },
            DictionaryErrorCode::Internal,
        ),
    ];

    for (error, expected_code) in cases {
        assert_eq!(DictionaryCommandError::from_error(error).code, expected_code);
    }
    let internal = DictionaryCommandError::internal("dictionary state is unavailable".into());
    assert_eq!(internal.code, DictionaryErrorCode::Internal);
    assert_eq!(internal.message, "dictionary state is unavailable");
}

#[test]
fn dictionary_file_sits_in_the_app_data_directory() {
    assert_eq!(dictionary_path(&"/data".to_string()), "/data/dictionary.json");
    assert_eq!(dictionary_path(&"/data/".to_string()), "/data/dictionary.json");
}

#[test]
fn failed_write_leaves_the_store_as_it_was() {
    let mut store = corrupt_store();
    let initial_error = store.load_error().cloned().unwrap();

    let pending = store
        .prepare_update(&new_document(vec![new_entry("1", "Rust", &["rustlang"])]))
        .unwrap();
    let failure = storage_error("write dictionary", "disk full".into());
    let result = store.commit_update(pending, Err(failure.clone()));

    assert_eq!(result, Err(failure));
    assert_eq!(store.load_error(), Some(&initial_error));
    assert_eq!(store.current(), &DictionaryDocument::default());
    assert_eq!(store.snapshot().apply("rustlang"), "rustlang");
}

#[test]
fn successful_write_stores_the_canonical_document() {
    let mut store = DictionaryStore::from_loaded("/data/dictionary.json".into(), Ok(DictionaryDocument::default()));

    let pending = store
        .prepare_update(&new_document(vec![new_entry(" 1 ", "  Rust ", &["rustlang", "RUSTLANG"])]))
        .unwrap();
    let saved = store.commit_update(pending, Ok(())).unwrap();

    assert_eq!(saved, new_document(vec![new_entry("1", "Rust", &["rustlang"])]));
    assert_eq!(store.current(), &saved);
    assert!(store.load_error().is_none());
    assert_eq!(store.snapshot().apply("I write RUSTLANG daily"), "I write Rust daily");
}
