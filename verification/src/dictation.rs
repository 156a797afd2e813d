//! Push-to-talk dictation: the session state machine, and what becomes of
//! a transcription before it is inserted.
//!
//! Hotkey pressed  -> start microphone capture, show the overlay.
//! Hotkey released -> stop capture, transcribe, insert the text, hide the
//!                    overlay.
//!
//! Each time the overlay is shown the session generation advances. A
//! delayed hide carries the generation it was scheduled under and only
//! fires while that generation is still current, so a hide left over from
//! an earlier session never blanks a newer one.

use crate::compiled::{byte_len, is_hint_prefix, DictionarySnapshot};
use crate::matcher::replace_all;
use crate::models::{curated, curated_models, defs_view, find_def, Engine};
use crate::text::{normalize_whitespace, normalize_ws};
use vstd::prelude::*;
use vstd::wrapping::u64_specs::wrapping_add;

verus! {

/// The most UTF-8 bytes of vocabulary hints handed to a recognizer.
pub const MAX_NATIVE_VOCABULARY_HINT_BYTES: usize = 1024;

/// The text to insert for a transcription: its whitespace collapsed, then
/// the dictionary applied; nothing when that leaves it empty.
pub open spec fn post_processed(text: Seq<char>, dictionary: Option<DictionarySnapshot>) -> Option<Seq<char>> {
    let normalized = normalize_ws(text);
    let corrected = match dictionary {
        Some(s) => replace_all(s.rules(), normalized),
        None => normalized,
    };
    if corrected.len() > 0 {
        Some(corrected)
    } else {
        None
    }
}

pub open spec fn snapshot_option(d: Option<&DictionarySnapshot>) -> Option<DictionarySnapshot> {
    match d {
        Some(s) => Some(*s),
        None => None,
    }
}

pub fn post_process_transcription(text: &str, dictionary: Option<&DictionarySnapshot>) -> (r: Option<String>)
    ensures
        match post_processed(text@, snapshot_option(dictionary)) {
            Some(t) => r matches Some(s) && s@ == t,
            None => r is None,
        },
{
    let normalized = normalize_whitespace(text);
    let corrected = match dictionary {
        Some(snapshot) => snapshot.apply(normalized.as_str()),
        None => normalized,
    };
    if corrected.as_str().is_empty() {
        None
    } else {
        Some(corrected)
    }
}

/// Whether the recognizer of `model_id` takes vocabulary hints: only the
/// whisper.cpp models of the catalog do.
pub open spec fn uses_native_hints(model_id: Seq<char>) -> bool {
    match find_def(curated_models(), model_id) {
        Some(d) => d.engine == Engine::Whisper,
        None => false,
    }
}

pub fn model_uses_native_vocabulary_hints(model_id: &str) -> (r: bool)
    ensures
        r == uses_native_hints(model_id@),
{
    let defs = curated();
    let key = String::from_str(model_id);
    let ghost all = curated_models();
    let mut i: usize = 0;
    assert(all.subrange(0, all.len() as int) =~= all);
    while i < defs.len()
        invariant
            all == curated_models(),
            defs_view(defs@) == all,
            key@ == model_id@,
            i <= defs@.len(),
            find_def(all, model_id@) == find_def(all.subrange(i as int, all.len() as int), model_id@),
        decreases defs@.len() - i,
    {
        let ghost rest = all.subrange(i as int, all.len() as int);
        assert(rest[0] == defs@[i as int]@);
        if defs[i].id == key {
            return defs[i].engine == Engine::Whisper;
        }
        assert(rest.drop_first() =~= all.subrange(i + 1, all.len() as int));
        i = i + 1;
    }
    assert(all.subrange(i as int, all.len() as int) =~= Seq::<crate::models::ModelDefModel>::empty());
    false
}

/// The vocabulary hints handed to the recognizer of `model_id`: the
/// dictionary's phrases within [`MAX_NATIVE_VOCABULARY_HINT_BYTES`] for
/// whisper.cpp models, nothing otherwise.
pub fn native_vocabulary_hints(model_id: &str, dictionary: Option<&DictionarySnapshot>) -> (r: String)
    ensures
        match dictionary {
            Some(s) => if uses_native_hints(model_id@) {
                is_hint_prefix(s.hints(), MAX_NATIVE_VOCABULARY_HINT_BYTES as nat, r@)
            } else {
                r@.len() == 0
            },
            None => r@.len() == 0,
        },
        byte_len(r@) <= MAX_NATIVE_VOCABULARY_HINT_BYTES,
{
    if !model_uses_native_vocabulary_hints(model_id) {
        return String::new();
    }
    match dictionary {
        Some(snapshot) => snapshot.build_hints(MAX_NATIVE_VOCABULARY_HINT_BYTES),
        None => String::new(),
    }
}

/// Whether a recording is too short to transcribe: under 0.3 s.
pub fn clip_too_short(sample_count: usize, sample_rate: u32) -> (r: bool)
    ensures
        r == (sample_count < sample_rate * 3 / 10),
{
    let min: u64 = (sample_rate as u64) * 3 / 10;
    (sample_count as u64) < min
}

} // verus!

verus! {

#[derive(Clone, Copy, PartialEq, Eq, Debug, Structural)]
pub enum Phase {
    Idle,
    Recording,
    Transcribing,
}

/// What a press of the push-to-talk key leads to.
#[derive(Clone, Copy, PartialEq, Eq, Debug, Structural)]
pub enum PressOutcome {
    /// No speech model is downloaded: show the settings and flash an error.
    NoModel,
    /// A session is already under way (key auto-repeat): nothing happens.
    Ignored,
    /// Start capturing the microphone.
    StartRecording,
}

/// The session state: its phase and the overlay generation.
pub struct Dictation {
    phase: Phase,
    generation: u64,
}

pub struct DictationModel {
    pub phase: Phase,
    pub generation: u64,
}

impl View for Dictation {
    type V = DictationModel;

    closed spec fn view(&self) -> DictationModel {
        DictationModel { phase: self.phase, generation: self.generation }
    }
}

/// The next overlay generation.
pub open spec fn next_generation(g: u64) -> u64 {
    wrapping_add(g, 1)
}

impl Default for Dictation {
    fn default() -> (r: Self)
        ensures
            r@ == (DictationModel { phase: Phase::Idle, generation: 0 }),
    {
        Dictation { phase: Phase::Idle, generation: 0 }
    }
}

impl Dictation {
    pub fn phase(&self) -> (r: Phase)
        ensures
            r == self@.phase,
    {
        self.phase
    }

    pub fn generation(&self) -> (r: u64)
        ensures
            r == self@.generation,
    {
        self.generation
    }

    /// Decides what a key press does, before anything is started.
    pub fn press(&self, model_downloaded: bool) -> (r: PressOutcome)
        ensures
            !model_downloaded ==> r == PressOutcome::NoModel,
            model_downloaded && self@.phase != Phase::Idle ==> r == PressOutcome::Ignored,
            model_downloaded && self@.phase == Phase::Idle ==> r == PressOutcome::StartRecording,
    {
        if !model_downloaded {
            PressOutcome::NoModel
        } else if self.phase != Phase::Idle {
            PressOutcome::Ignored
        } else {
            PressOutcome::StartRecording
        }
    }

    /// The microphone started: the session is recording and the overlay is
    /// shown under a new generation, which is returned.
    pub fn recording_started(&mut self) -> (r: u64)
        ensures
            final(self)@ == (DictationModel { phase: Phase::Recording, generation: next_generation(old(self)@.generation) }),
            r == final(self)@.generation,
    {
        self.phase = Phase::Recording;
        self.generation = self.generation.wrapping_add(1);
        self.generation
    }

    /// The overlay is shown briefly outside a session (error feedback):
    /// returns the generation of the hide to schedule.
    pub fn flash(&mut self) -> (r: u64)
        ensures
            final(self)@ == (DictationModel { generation: next_generation(old(self)@.generation), ..old(self)@ }),
            r == final(self)@.generation,
    {
        self.generation = self.generation.wrapping_add(1);
        self.generation
    }

    /// The key was released: a recording session moves on to
    /// transcription; otherwise nothing happens. Returns whether it did.
    pub fn release(&mut self) -> (r: bool)
        ensures
            r == (old(self)@.phase == Phase::Recording),
            r ==> final(self)@ == (DictationModel { phase: Phase::Transcribing, ..old(self)@ }),
            !r ==> final(self)@ == old(self)@,
    {
        if self.phase != Phase::Recording {
            return false;
        }
        self.phase = Phase::Transcribing;
        true
    }

    /// Ends a session: it goes idle at once, so a new session can start
    /// right away; returns the generation under which the overlay may be
    /// hidden later.
    pub fn finish(&mut self) -> (r: u64)
        ensures
            r == old(self)@.generation,
            final(self)@ == (DictationModel { phase: Phase::Idle, ..old(self)@ }),
    {
        let generation = self.generation;
        self.phase = Phase::Idle;
        generation
    }

    /// Goes idle without touching the overlay.
    pub fn set_idle(&mut self)
        ensures
            final(self)@ == (DictationModel { phase: Phase::Idle, ..old(self)@ }),
    {
        self.phase = Phase::Idle;
    }

    /// Whether a hide scheduled under `generation` may still hide the
    /// overlay: no session or flash has shown it since.
    pub fn hide_is_current(&self, generation: u64) -> (r: bool)
        ensures
            r == (self@.generation == generation),
    {
        self.generation == generation
    }

    /// Whether the microphone level should still be reported.
    pub fn is_recording(&self) -> (r: bool)
        ensures
            r == (self@.phase == Phase::Recording),
    {
        self.phase == Phase::Recording
    }
}

/// Showing the overlay again (a new session or an error flash) makes every
/// hide scheduled before it stale.
pub proof fn law_new_show_outdates_pending_hide(g: u64)
    ensures
        next_generation(g) != g,
{
}

} // verus!
