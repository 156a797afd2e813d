use dictosaurus::models::{
    any_model_downloaded, catalog_status, curated, def_by_id, download_plan, files_to_delete,
    is_downloaded, language_supported, pick_preview_model, resolve_paths, resolve_preview_model,
    streaming_speed_rank, vad_model_path, DownloadPlan, Engine, ModelStorage,
};

fn rank(model_id: &str) -> Option<u32> {
    streaming_speed_rank(&def_by_id(model_id).unwrap())
}

fn storage(files: &[&str]) -> ModelStorage {
    ModelStorage {
        dir: Some("/models".into()),
        present: files.iter().map(|f| (*f).to_string()).collect(),
    }
}

#[test]
fn curated_catalog_does_not_include_streaming_models() {
    assert!(
        curated().iter().all(|model| !model.id.contains("streaming")),
        "live/streaming ASR models should not be part of the curated catalog"
    );
}

#[test]
fn sherpa_models_rank_faster_than_whisper_for_preview() {
    assert_eq!(rank("gigaam-v3-e2e-ctc"), Some(0));
    assert_eq!(rank("parakeet-tdt-0.6b-v3"), Some(1));
    assert!(rank("tiny") > rank("gigaam-v3-e2e-ctc"));
}

#[test]
fn heavy_whisper_models_are_not_eligible_for_preview() {
    assert_eq!(rank("medium"), None);
    assert_eq!(rank("large-v3-turbo"), None);
    assert_eq!(rank("whisper-podlodka-turbo"), None);
}

#[test]
fn light_whisper_models_are_eligible_for_preview() {
    assert_eq!(rank("tiny"), Some(2));
    assert_eq!(rank("base"), Some(2));
    assert_eq!(rank("small"), Some(3));
    assert_eq!(rank("large-v3-turbo-q5_0"), Some(3));
}

#[test]
fn language_support_matches_multilingual_auto_and_exact_codes() {
    let gigaam = def_by_id("gigaam-v3-e2e-ctc").unwrap(); // "ru"
    let parakeet = def_by_id("parakeet-tdt-0.6b-v3").unwrap(); // "multilingual"

    assert!(language_supported(&gigaam, "ru"));
    assert!(!language_supported(&gigaam, "en"));
    assert!(language_supported(&gigaam, "auto"));
    assert!(language_supported(&parakeet, "en"));
    assert!(language_supported(&parakeet, "ru"));
}

#[test]
fn pick_preview_model_rejects_language_incompatible_candidates() {
    let gigaam = def_by_id("gigaam-v3-e2e-ctc").unwrap();
    let candidates = vec![gigaam];
    assert!(pick_preview_model(&candidates, "en").is_none());
    assert_eq!(
        pick_preview_model(&candidates, "ru").map(|d| d.id.as_str()),
        Some("gigaam-v3-e2e-ctc")
    );
}

#[test]
fn pick_preview_model_prefers_faster_compatible_engine() {
    let gigaam = def_by_id("gigaam-v3-e2e-ctc").unwrap();
    let parakeet = def_by_id("parakeet-tdt-0.6b-v3").unwrap();
    let tiny = def_by_id("tiny").unwrap();
    let candidates = vec![gigaam, parakeet, tiny];
    let picked = pick_preview_model(&candidates, "ru").unwrap();
    assert_eq!(picked.id, "gigaam-v3-e2e-ctc");
}

#[test]
fn pick_preview_model_breaks_rank_ties_by_size() {
    let small = def_by_id("small").unwrap();
    let q5 = def_by_id("large-v3-turbo-q5_0").unwrap();
    let candidates = vec![q5, small];
    assert_eq!(pick_preview_model(&candidates, "en").unwrap().id, "small");
}

#[test]
fn language_lists_are_trimmed_comma_separated_codes() {
    let mut def = def_by_id("gigaam-v3-e2e-ctc").unwrap();
    def.languages = "de, en ,fr".into();

    assert!(language_supported(&def, "en"));
    assert!(language_supported(&def, "fr"));
    assert!(language_supported(&def, ""));
    assert!(!language_supported(&def, "e"));
    assert!(!language_supported(&def, "ru"));
}

#[test]
fn catalog_entries_keep_their_order_sizes_and_urls() {
    let ids: Vec<String> = curated().into_iter().map(|d| d.id).collect();
    assert_eq!(
        ids,
        [
            "gigaam-v3-e2e-ctc",
            "whisper-podlodka-turbo",
            "parakeet-tdt-0.6b-v3",
            "tiny",
            "base",
            "small",
            "medium",
            "large-v3-turbo-q5_0",
            "large-v3-turbo",
        ]
    );
    let parakeet = def_by_id("parakeet-tdt-0.6b-v3").unwrap();
    assert_eq!(parakeet.bytes_hint_total(), 670_478_772);
    assert_eq!(parakeet.engine, Engine::NemoTransducer);
    let gigaam = def_by_id("gigaam-v3-e2e-ctc").unwrap();
    assert_eq!(gigaam.feature_dim, Some(64));
    assert_eq!(gigaam.bytes_hint_total(), 224_895_668);
    let tiny = def_by_id("tiny").unwrap();
    assert_eq!(
        tiny.files[0].url,
        "https://huggingface.co/ggerganov/whisper.cpp/resolve/main/ggml-tiny.bin"
    );
    assert_eq!(tiny.languages, "multilingual");
    assert!(def_by_id("huge").is_none());
}

#[test]
fn files_resolve_only_when_all_are_present() {
    let parakeet = def_by_id("parakeet-tdt-0.6b-v3").unwrap();
    let partial = storage(&["parakeet-tdt-v3.encoder.int8.onnx", "parakeet-tdt-v3.tokens.txt"]);
    assert!(resolve_paths(&parakeet, &partial).is_none());

    let full = storage(&[
        "parakeet-tdt-v3.tokens.txt",
        "parakeet-tdt-v3.joiner.int8.onnx",
        "parakeet-tdt-v3.decoder.int8.onnx",
        "parakeet-tdt-v3.encoder.int8.onnx",
    ]);
    assert_eq!(
        resolve_paths(&parakeet, &full).unwrap(),
        vec![
            "/models/parakeet-tdt-v3.encoder.int8.onnx",
            "/models/parakeet-tdt-v3.decoder.int8.onnx",
            "/models/parakeet-tdt-v3.joiner.int8.onnx",
            "/models/parakeet-tdt-v3.tokens.txt",
        ]
    );
    let no_dir = ModelStorage { dir: None, present: full.present.clone() };
    assert!(resolve_paths(&parakeet, &no_dir).is_none());
}

#[test]
fn download_state_follows_the_files_on_disk() {
    let none = storage(&[]);
    assert!(!any_model_downloaded(&none));
    assert!(!is_downloaded("tiny", &none));

    let some = storage(&["ggml-tiny.bin", "ggml-medium.bin"]);
    assert!(any_model_downloaded(&some));
    assert!(is_downloaded("tiny", &some));
    assert!(!is_downloaded("base", &some));
    assert!(!is_downloaded("unknown", &some));

    let status = catalog_status(&some);
    assert_eq!(status.len(), 9);
    let downloaded: Vec<&str> = status
        .iter()
        .filter(|m| m.downloaded)
        .map(|m| m.id.as_str())
        .collect();
    assert_eq!(downloaded, ["tiny", "medium"]);
    assert_eq!(status[0].label, "GigaAM v3 (Sber)");
}

#[test]
fn preview_model_is_the_lightest_compatible_download() {
    let some = storage(&["ggml-tiny.bin", "ggml-medium.bin", "ggml-small.bin"]);
    assert_eq!(resolve_preview_model("en", &some).as_deref(), Some("tiny"));

    let heavy = storage(&["ggml-medium.bin"]);
    assert_eq!(resolve_preview_model("en", &heavy), None);

    let russian = storage(&[
        "gigaam-v3-e2e-ctc.int8.onnx",
        "gigaam-v3-e2e-ctc.tokens.txt",
        "ggml-base.bin",
    ]);
    assert_eq!(resolve_preview_model("ru", &russian).as_deref(), Some("gigaam-v3-e2e-ctc"));
    assert_eq!(resolve_preview_model("en", &russian).as_deref(), Some("base"));
}

#[test]
fn vad_model_path_requires_the_file() {
    assert_eq!(vad_model_path(&storage(&[])), None);
    assert_eq!(
        vad_model_path(&storage(&["silero_vad.onnx"])).as_deref(),
        Some("/models/silero_vad.onnx")
    );
}

#[test]
fn deleting_needs_a_known_downloaded_model() {
    let some = storage(&["ggml-tiny.bin"]);
    assert_eq!(files_to_delete("tiny", &some).unwrap(), vec!["/models/ggml-tiny.bin"]);
    assert_eq!(files_to_delete("base", &some).unwrap_err(), "model is not downloaded");
    assert_eq!(files_to_delete("nope", &some).unwrap_err(), "unknown model id: nope");
}

#[test]
fn download_plan_fetches_missing_files_with_progress_offsets() {
    let partial = storage(&["gigaam-v3-e2e-ctc.int8.onnx"]);
    match download_plan("gigaam-v3-e2e-ctc", &partial).unwrap() {
        DownloadPlan::Fetch { total_hint, steps } => {
            assert_eq!(total_hint, 224_895_668);
            assert_eq!(steps.len(), 1);
            assert_eq!(steps[0].dest, "/models/gigaam-v3-e2e-ctc.tokens.txt");
            assert_eq!(steps[0].base, 224_893_661);
            assert!(steps[0].url.ends_with("/tokens.txt"));
        }
        DownloadPlan::AlreadyDownloaded => panic!("model is incomplete"),
    }
    assert!(matches!(
        download_plan("tiny", &storage(&["ggml-tiny.bin"])).unwrap(),
        DownloadPlan::AlreadyDownloaded
    ));
    let no_dir = ModelStorage { dir: None, present: Vec::new() };
    assert_eq!(
        download_plan("tiny", &no_dir).err().as_deref(),
        Some("models directory not initialized")
    );
    assert_eq!(download_plan("x", &no_dir).err().as_deref(), Some("unknown model id: x"));
}
