//! The decisions around a transcription: which model files to load, what
//! prompt whisper.cpp is given, how much silence pads a clip and how many
//! threads decode it. Running the engines is the caller's part.

use crate::models::{
    curated_models, def_by_id, find_def, resolve_paths, resolved_paths, ModelDef, ModelDefModel,
    ModelStorage, StorageModel,
};
use crate::text::chars_of;
use crate::text::contains_char;
use vstd::prelude::*;
use vstd::utf8::encode_utf8;

verus! {

pub const SAMPLE_RATE: usize = 16_000;

/// whisper.cpp rejects clips shorter than about one second; shorter clips
/// are padded with silence up to this many samples.
pub const MIN_SAMPLES: usize = SAMPLE_RATE + SAMPLE_RATE / 10;

/// Trailing silence so the final word is not cut off mid-decode.
pub const TAIL_SILENCE: usize = SAMPLE_RATE * 3 / 10;

/// The most prompt tokens whisper.cpp is given.
pub const MAX_WHISPER_PROMPT_TOKENS: usize = 128;

/// The vocabulary hints are used as the whisper prompt when they are
/// non-empty and hold no NUL character.
pub open spec fn prompt_eligible(hints: Seq<char>) -> bool {
    hints.len() > 0 && !hints.contains('\0')
}

pub fn eligible_whisper_prompt(hints: &str) -> (r: Option<&str>)
    ensures
        prompt_eligible(hints@) ==> r == Some(hints),
        !prompt_eligible(hints@) ==> r is None,
{
    let cs = chars_of(hints);
    if cs.len() > 0 && !contains_char(&cs, '\0') {
        Some(hints)
    } else {
        None
    }
}

/// Room for the prompt's tokens: one more than its UTF-8 byte length, since
/// byte fallback yields at most one token per input byte.
pub fn whisper_tokenizer_capacity(prompt: &str) -> (r: usize)
    requires
        encode_utf8(prompt@).len() < usize::MAX,
    ensures
        r == encode_utf8(prompt@).len() + 1,
{
    prompt.len() + 1
}

/// The first [`MAX_WHISPER_PROMPT_TOKENS`] tokens.
pub fn limit_whisper_prompt_tokens(tokens: Vec<i32>) -> (r: Vec<i32>)
    ensures
        tokens@.len() <= MAX_WHISPER_PROMPT_TOKENS ==> r@ == tokens@,
        tokens@.len() > MAX_WHISPER_PROMPT_TOKENS ==> r@ == tokens@.take(MAX_WHISPER_PROMPT_TOKENS as int),
{
    let mut tokens = tokens;
    tokens.truncate(MAX_WHISPER_PROMPT_TOKENS);
    tokens
}

/// The length of a clip of `pcm_len` samples once the trailing silence is
/// added and it is padded to the minimum length.
pub open spec fn padded_len(pcm_len: nat) -> nat {
    if pcm_len + TAIL_SILENCE < MIN_SAMPLES {
        MIN_SAMPLES as nat
    } else {
        pcm_len + TAIL_SILENCE as nat
    }
}

pub fn padded_sample_count(pcm_len: usize) -> (r: usize)
    requires
        pcm_len + TAIL_SILENCE <= usize::MAX,
    ensures
        r == padded_len(pcm_len as nat),
{
    let n = pcm_len + TAIL_SILENCE;
    if n < MIN_SAMPLES {
        MIN_SAMPLES
    } else {
        n
    }
}

/// The language whisper.cpp is told: none (detect it) for "" and "auto".
pub fn whisper_language(language: &str) -> (r: Option<&str>)
    ensures
        (language@.len() == 0 || language@ == "auto"@) ==> r is None,
        !(language@.len() == 0 || language@ == "auto"@) ==> r == Some(language),
{
    if chars_of(language).len() == 0 || String::from_str(language) == String::from_str("auto") {
        None
    } else {
        Some(language)
    }
}

/// The number of decoding threads: the available parallelism (4 when it is
/// unknown), at most `cap`.
pub open spec fn thread_count(available: Option<usize>, cap: i32) -> i32 {
    let n = match available {
        Some(n) => n as i32,
        None => 4i32,
    };
    if n < cap {
        n
    } else {
        cap
    }
}

pub fn capped_threads(available: Option<usize>, cap: i32) -> (r: i32)
    ensures
        r == thread_count(available, cap),
{
    let n: i32 = match available {
        Some(n) => n as i32,
        None => 4,
    };
    if n < cap {
        n
    } else {
        cap
    }
}

/// The model to warm up at startup, with its file paths: `None` when the
/// id is unknown or its files are missing.
pub fn preload_target(model_id: &str, storage: &ModelStorage) -> (r: Option<(ModelDef, Vec<String>)>)
    ensures
        match find_def(curated_models(), model_id@) {
            Some(d) => match resolved_paths(d, storage@) {
                Some(ps) => r matches Some((def, paths)) && def@ == d && paths@.map_values(
                    |p: String| p@,
                ) == ps,
                None => r is None,
            },
            None => r is None,
        },
{
    let def = match def_by_id(model_id) {
        Some(d) => d,
        None => {
            return None;
        },
    };
    match resolve_paths(&def, storage) {
        Some(paths) => Some((def, paths)),
        None => None,
    }
}

/// The model to transcribe with and its file paths, or why it cannot be
/// loaded.
pub open spec fn model_files_for(model_id: Seq<char>, s: StorageModel) -> Result<
    (ModelDefModel, Seq<Seq<char>>),
    Seq<char>,
> {
    match find_def(curated_models(), model_id) {
        None => Err("unknown model id: "@ + model_id),
        Some(d) => match resolved_paths(d, s) {
            None => Err("model files are missing"@),
            Some(ps) => Ok((d, ps)),
        },
    }
}

pub fn model_files(model_id: &str, storage: &ModelStorage) -> (r: Result<(ModelDef, Vec<String>), String>)
    ensures
        match model_files_for(model_id@, storage@) {
            Ok((d, ps)) => r matches Ok((def, paths)) && def@ == d && paths@.map_values(|p: String| p@)
                == ps,
            Err(m) => r matches Err(e) && e@ == m,
        },
{
    let def = match def_by_id(model_id) {
        Some(d) => d,
        None => {
            let mut message = String::from_str("unknown model id: ");
            message.append(model_id);
            return Err(message);
        },
    };
    match resolve_paths(&def, storage) {
        Some(paths) => Ok((def, paths)),
        None => Err(String::from_str("model files are missing")),
    }
}

/// A transducer model needs its encoder, decoder, joiner and tokens files.
pub fn check_transducer_files(model_id: &str, file_count: usize) -> (r: Result<(), String>)
    ensures
        file_count == 4 ==> r is Ok,
        file_count != 4 ==> (r matches Err(e) && e@ == "transducer model "@ + model_id@ + " needs 4 files"@),
{
    if file_count != 4 {
        let mut message = String::from_str("transducer model ");
        message.append(model_id);
        message.append(" needs 4 files");
        return Err(message);
    }
    Ok(())
}

} // verus!
