//! Verified core of a local push-to-talk dictation assistant: the custom
//! vocabulary dictionary (validation, canonical form, phrase replacement,
//! recognizer hints), the speech-model catalog, settings and the small
//! decision procedures of the dictation pipeline.

pub mod text;
pub mod unicode;
pub mod json;
pub mod dictionary;
pub mod pattern;
pub mod matcher;
pub mod compiled;
pub mod store;
pub mod commands;
pub mod models;
pub mod settings;
pub mod tray;
pub mod transcribe;
pub mod dictation;
pub mod hotkey;
pub mod canonical;
