# dictosaurus

The verified core of Dictosaurus, a local push-to-talk dictation assistant,
written in Verus. Every function under `src/` carries a contract that Verus
proves; `app/` is the desktop shell (Tauri, audio, overlay, files, network)
that calls into it.

## Layout

- `src/text.rs`, `src/json.rs`, `src/unicode.rs` — character-level building
  blocks: whitespace collapsing, splitting and trimming, JSON string
  escaping, case folding and word characters.
- `src/dictionary.rs` — the dictionary document, its errors and their
  messages, its JSON text and its canonical (normalized) form.
- `src/canonical.rs` — the proof that the canonical form is a fixed point.
- `src/pattern.rs` — the regular expression of a phrase, compiled and
  searched with the `regex` crate.
- `src/matcher.rs` — matches on word boundaries and the choice of
  non-overlapping replacements (longer matches win), with its laws.
- `src/compiled.rs` — the compiled dictionary: replacement rules and
  recognizer hints.
- `src/store.rs` — the fail-closed dictionary store: loading, reloading and
  validated updates.
- `src/commands.rs` — error codes and messages reported to the settings
  window.
- `src/models.rs` — the curated speech-model catalog, download state,
  preview-model choice and download plans.
- `src/settings.rs`, `src/tray.rs`, `src/hotkey.rs`, `src/transcribe.rs`,
  `src/dictation.rs` — settings, menu labels, shortcut parsing, transcription
  parameters and the push-to-talk session state machine.
- `tests/` — executable tests of the library.
- `app/` — the application around the library.

## Outside crates

- `regex` compiles and searches the pattern of each dictionary phrase.
- `regex-syntax` is `regex`'s own parser crate. The matcher calls its
  `is_word_character` directly so that the word-boundary test it applies
  around a match uses exactly the table behind `regex`'s `\w`, and its
  `escape` is what `regex::escape` forwards to.
- `unicode-casefold` supplies the simple case folding behind the
  case-insensitive comparison keys of phrases.
- `serde_json` escapes the strings of the dictionary's JSON text.
- `serde`, `tokio`, `futures-util`, `reqwest`, `once_cell` and `log` are
  used by `app/` only: settings and dictionary files, model downloads and
  logging.
