use dictosaurus::compiled::DictionarySnapshot;
use dictosaurus::dictation::{
    clip_too_short, model_uses_native_vocabulary_hints, native_vocabulary_hints,
    post_process_transcription, Dictation, Phase, PressOutcome, MAX_NATIVE_VOCABULARY_HINT_BYTES,
};
use dictosaurus::dictionary::{DictionaryDocument, DictionaryEntry, DICTIONARY_VERSION};

fn snapshot(enabled: bool, entries: Vec<DictionaryEntry>) -> DictionarySnapshot {
    DictionarySnapshot::compile(&DictionaryDocument {
        version: DICTIONARY_VERSION,
        enabled,
        entries,
    })
    .unwrap()
}

fn alias_entry() -> DictionaryEntry {
    DictionaryEntry {
        id: "rust".into(),
        term: "Rust".into(),
        aliases: vec!["rust lang".into()],
        enabled: true,
    }
}

#[test]
fn empty_and_disabled_dictionary_leave_normalized_text_unchanged() {
    let empty = snapshot(true, Vec::new());
    let disabled = snapshot(false, vec![alias_entry()]);

    assert_eq!(
        post_process_transcription("  rust   lang  ", Some(&empty)),
        Some("rust lang".into())
    );
    assert_eq!(
        post_process_transcription("  rust   lang  ", Some(&disabled)),
        Some("rust lang".into())
    );
}

#[test]
fn enabled_alias_corrects_returned_text_after_whitespace_normalization() {
    let dictionary = snapshot(true, vec![alias_entry()]);

    assert_eq!(
        post_process_transcription("  hello \n rust   lang  ", Some(&dictionary)),
        Some("hello Rust".into())
    );
}

#[test]
fn native_hints_are_bounded_and_come_from_the_dictation_snapshot() {
    let dictionary = snapshot(true, vec![alias_entry()]);

    let hints = native_vocabulary_hints("tiny", Some(&dictionary));

    assert_eq!(hints, "Rust, rust lang");
    assert!(hints.len() <= MAX_NATIVE_VOCABULARY_HINT_BYTES);
    assert_eq!(dictionary.apply("rust lang"), "Rust");
}

#[test]
fn whisper_request_hints_respect_the_1024_byte_bound() {
    let entries = (0..200)
        .map(|index| DictionaryEntry {
            id: index.to_string(),
            term: format!("Term{index:03}"),
            aliases: Vec::new(),
            enabled: true,
        })
        .collect();
    let dictionary = snapshot(true, entries);

    let hints = native_vocabulary_hints("tiny", Some(&dictionary));

    assert!(hints.len() > 900);
    assert!(hints.len() <= 1024);
}

#[test]
fn disabled_or_missing_dictionary_has_no_native_hints() {
    let disabled = snapshot(false, vec![alias_entry()]);

    assert_eq!(native_vocabulary_hints("tiny", Some(&disabled)), "");
    assert_eq!(native_vocabulary_hints("tiny", None), "");
}

#[test]
fn sherpa_models_do_not_receive_native_hints() {
    let dictionary = snapshot(true, vec![alias_entry()]);

    assert_eq!(
        native_vocabulary_hints("parakeet-tdt-0.6b-v3", Some(&dictionary)),
        ""
    );
    assert_eq!(
        native_vocabulary_hints("gigaam-v3-e2e-ctc", Some(&dictionary)),
        ""
    );
}

#[test]
fn empty_transcription_returns_nothing_after_post_processing() {
    let dictionary = snapshot(true, vec![alias_entry()]);

    assert_eq!(
        post_process_transcription(" \n\t ", Some(&dictionary)),
        None
    );
}

#[test]
fn missing_dictionary_only_normalizes() {
    assert_eq!(
        post_process_transcription("  rust   lang  ", None),
        Some("rust lang".into())
    );
}

#[test]
fn only_catalog_whisper_models_take_hints() {
    assert!(model_uses_native_vocabulary_hints("tiny"));
    assert!(model_uses_native_vocabulary_hints("whisper-podlodka-turbo"));
    assert!(!model_uses_native_vocabulary_hints("gigaam-v3-e2e-ctc"));
    assert!(!model_uses_native_vocabulary_hints("unknown"));
}

#[test]
fn short_clips_are_dropped() {
    assert!(clip_too_short(4_799, 16_000));
    assert!(!clip_too_short(4_800, 16_000));
    assert!(!clip_too_short(0, 0));
}

#[test]
fn session_walks_through_its_phases() {
    let mut d = Dictation::default();
    assert_eq!(d.press(false), PressOutcome::NoModel);
    assert_eq!(d.press(true), PressOutcome::StartRecording);

    let shown = d.recording_started();
    assert_eq!(shown, 1);
    assert_eq!(d.phase(), Phase::Recording);
    assert!(d.is_recording());
    assert_eq!(d.press(true), PressOutcome::Ignored);

    assert!(d.release());
    assert_eq!(d.phase(), Phase::Transcribing);
    assert!(!d.release());

    let hide_under = d.finish();
    assert_eq!(hide_under, 1);
    assert_eq!(d.phase(), Phase::Idle);
    assert!(d.hide_is_current(hide_under));
}

#[test]
fn a_new_session_outdates_a_pending_hide() {
    let mut d = Dictation::default();
    d.recording_started();
    d.release();
    let pending = d.finish();

    d.recording_started();

    assert!(!d.hide_is_current(pending));
    let flashed = d.flash();
    assert_eq!(flashed, 3);
    assert!(d.hide_is_current(flashed));
}
