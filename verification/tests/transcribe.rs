use dictosaurus::models::ModelStorage;
use dictosaurus::transcribe::{
    capped_threads, check_transducer_files, eligible_whisper_prompt, limit_whisper_prompt_tokens,
    model_files, padded_sample_count, preload_target, whisper_language,
    whisper_tokenizer_capacity, MAX_WHISPER_PROMPT_TOKENS, MIN_SAMPLES, TAIL_SILENCE,
};

#[test]
fn whisper_prompt_uses_non_empty_hints_exactly() {
    assert_eq!(
        eligible_whisper_prompt("Rust, New York"),
        Some("Rust, New York")
    );
}

#[test]
fn whisper_prompt_ignores_empty_or_nul_hints() {
    assert_eq!(eligible_whisper_prompt(""), None);
    assert_eq!(eligible_whisper_prompt("Rust\0lang"), None);
}

#[test]
fn whisper_prompt_tokenization_is_bounded() {
    assert_eq!(MAX_WHISPER_PROMPT_TOKENS, 128);
}

#[test]
fn whisper_tokenizer_capacity_exceeds_input_byte_length() {
    for prompt in ["Rust", "Ёж", &"a".repeat(1024)] {
        assert_eq!(whisper_tokenizer_capacity(prompt), prompt.len() + 1);
        assert!(whisper_tokenizer_capacity(prompt) > prompt.len());
    }
}

#[test]
fn whisper_prompt_tokens_are_truncated_after_tokenization() {
    let tokens = (0..256).collect();

    let tokens = limit_whisper_prompt_tokens(tokens);

    assert_eq!(tokens.len(), MAX_WHISPER_PROMPT_TOKENS);
    assert_eq!(tokens[0], 0);
    assert_eq!(tokens[127], 127);
}

#[test]
fn short_token_lists_are_kept_whole() {
    assert_eq!(limit_whisper_prompt_tokens(vec![5, 6, 7]), vec![5, 6, 7]);
}

#[test]
fn clips_get_tail_silence_and_minimum_length() {
    assert_eq!(TAIL_SILENCE, 4_800);
    assert_eq!(MIN_SAMPLES, 17_600);
    assert_eq!(padded_sample_count(0), 17_600);
    assert_eq!(padded_sample_count(12_800), 17_600);
    assert_eq!(padded_sample_count(12_801), 17_601);
    assert_eq!(padded_sample_count(48_000), 52_800);
}

#[test]
fn auto_language_lets_whisper_detect_it() {
    assert_eq!(whisper_language(""), None);
    assert_eq!(whisper_language("auto"), None);
    assert_eq!(whisper_language("ru"), Some("ru"));
}

#[test]
fn thread_count_is_capped() {
    assert_eq!(capped_threads(Some(12), 8), 8);
    assert_eq!(capped_threads(Some(2), 8), 2);
    assert_eq!(capped_threads(None, 8), 4);
    assert_eq!(capped_threads(None, 2), 2);
}

#[test]
fn model_files_report_unknown_and_missing_models() {
    let storage = ModelStorage {
        dir: Some("/m".into()),
        present: vec!["ggml-base.bin".into()],
    };
    let (def, paths) = model_files("base", &storage).unwrap();
    assert_eq!(def.id, "base");
    assert_eq!(paths, vec!["/m/ggml-base.bin"]);
    assert_eq!(model_files("tiny", &storage).unwrap_err(), "model files are missing");
    assert_eq!(model_files("zzz", &storage).unwrap_err(), "unknown model id: zzz");
    assert!(preload_target("tiny", &storage).is_none());
    assert_eq!(preload_target("base", &storage).unwrap().1, vec!["/m/ggml-base.bin"]);
}

#[test]
fn transducers_need_four_files() {
    assert!(check_transducer_files("parakeet-tdt-0.6b-v3", 4).is_ok());
    assert_eq!(
        check_transducer_files("parakeet-tdt-0.6b-v3", 3).unwrap_err(),
        "transducer model parakeet-tdt-0.6b-v3 needs 4 files"
    );
}
