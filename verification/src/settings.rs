//! Persistent app settings: their values, their defaults and how a change
//! of them is applied. Reading and writing the settings file is the
//! caller's part.

use crate::models::{
    any_model_downloaded, curated_models, def_by_id, downloaded, find_def, join_dir, join_path,
    lemma_base_is_in_catalog, ModelStorage,
};
use vstd::prelude::*;

verus! {

#[derive(Clone, Debug, PartialEq)]
pub struct AppSettings {
    /// Push-to-talk shortcut in global-shortcut format, e.g. "Alt+Space".
    pub hotkey: String,
    /// Model id from the curated catalog.
    pub model_id: String,
    /// Recognition language: whisper language code or "auto".
    pub language: String,
    /// UI language preference: "auto", "en" or "ru".
    pub ui_language: String,
    /// Show live transcription in the overlay while recording.
    pub live_preview: bool,
    /// Set once first-run onboarding has finished or been dismissed.
    pub onboarding_completed: bool,
}

pub struct SettingsModel {
    pub hotkey: Seq<char>,
    pub model_id: Seq<char>,
    pub language: Seq<char>,
    pub ui_language: Seq<char>,
    pub live_preview: bool,
    pub onboarding_completed: bool,
}

impl View for AppSettings {
    type V = SettingsModel;

    open spec fn view(&self) -> SettingsModel {
        SettingsModel {
            hotkey: self.hotkey@,
            model_id: self.model_id@,
            language: self.language@,
            ui_language: self.ui_language@,
            live_preview: self.live_preview,
            onboarding_completed: self.onboarding_completed,
        }
    }
}

pub open spec fn default_settings() -> SettingsModel {
    SettingsModel {
        hotkey: "Alt+Space"@,
        model_id: "base"@,
        language: "auto"@,
        ui_language: "auto"@,
        live_preview: true,
        onboarding_completed: false,
    }
}

fn text(s: &str) -> (r: String)
    ensures
        r@ == s@,
{
    String::from_str(s)
}

impl Default for AppSettings {
    fn default() -> (r: Self)
        ensures
            r@ == default_settings(),
    {
        AppSettings {
            hotkey: text("Alt+Space"),
            model_id: text("base"),
            language: text("auto"),
            ui_language: text("auto"),
            live_preview: true,
            onboarding_completed: false,
        }
    }
}

impl AppSettings {
    /// A copy of these settings.
    pub fn duplicate(&self) -> (r: Self)
        ensures
            r@ == self@,
    {
        AppSettings {
            hotkey: self.hotkey.clone(),
            model_id: self.model_id.clone(),
            language: self.language.clone(),
            ui_language: self.ui_language.clone(),
            live_preview: self.live_preview,
            onboarding_completed: self.onboarding_completed,
        }
    }
}

/// The settings with their model reset to "base" when the selected model is
/// no longer in the catalog; `None` when the selection is still valid.
pub open spec fn model_migration(s: SettingsModel) -> Option<SettingsModel> {
    if find_def(curated_models(), s.model_id) is None {
        Some(SettingsModel { model_id: "base"@, ..s })
    } else {
        None
    }
}

/// Only a model selection that the catalog no longer offers is reset, and
/// it is reset to "base" (a model of the catalog); every other setting the
/// user chose (shortcut, languages, live preview, onboarding state) is
/// kept as it was.
pub proof fn law_migration_resets_only_the_model(s: SettingsModel)
    ensures
        model_migration(s) is Some <==> find_def(curated_models(), s.model_id) is None,
        match model_migration(s) {
            Some(m) => {
                &&& m.model_id == "base"@
                &&& find_def(curated_models(), m.model_id) is Some
                &&& m.hotkey == s.hotkey
                &&& m.language == s.language
                &&& m.ui_language == s.ui_language
                &&& m.live_preview == s.live_preview
                &&& m.onboarding_completed == s.onboarding_completed
            },
            None => true,
        },
{
    lemma_base_is_in_catalog();
}

/// Resets a model selection that the catalog no longer offers.
pub fn migrate_unknown_model(settings: &AppSettings) -> (r: Option<AppSettings>)
    ensures
        match model_migration(settings@) {
            Some(m) => r matches Some(s) && s@ == m,
            None => r is None,
        },
{
    if def_by_id(settings.model_id.as_str()).is_none() {
        let mut migrated = settings.duplicate();
        migrated.model_id = text("base");
        Some(migrated)
    } else {
        None
    }
}

/// Whether first-run setup is still owed: onboarding has not been finished,
/// or no model of the catalog is downloaded. The settings window is shown at
/// launch exactly then.
pub open spec fn setup_needed(s: SettingsModel, downloaded_any: bool) -> bool {
    !s.onboarding_completed || !downloaded_any
}

/// Whether the settings window should open at launch, given the settings in
/// use and the models directory.
pub fn needs_setup(settings: &AppSettings, storage: &ModelStorage) -> (r: bool)
    ensures
        r == setup_needed(
            settings@,
            exists|i: int|
                0 <= i < curated_models().len() && downloaded(
                    #[trigger] curated_models()[i].id,
                    storage@,
                ),
        ),
{
    !settings.onboarding_completed || !any_model_downloaded(storage)
}

/// What applying new settings involves besides storing them.
pub struct SettingsChange {
    /// The push-to-talk shortcut changed and must be re-registered.
    pub replace_hotkey: bool,
    /// The model changed and should be loaded ahead of use.
    pub preload_model: bool,
}

pub fn settings_change(old: &AppSettings, new: &AppSettings) -> (r: SettingsChange)
    ensures
        r.replace_hotkey == (old@.hotkey != new@.hotkey),
        r.preload_model == (old@.model_id != new@.model_id),
{
    SettingsChange { replace_hotkey: old.hotkey != new.hotkey, preload_model: old.model_id != new.model_id }
}

/// Where the settings file lives: `settings.json` in the app data directory,
/// or in the working directory when that directory is unknown.
pub open spec fn settings_file(app_data_dir: Option<Seq<char>>) -> Seq<char> {
    match app_data_dir {
        Some(d) => join_path(d, "settings.json"@),
        None => "settings.json"@,
    }
}

pub fn settings_path(app_data_dir: Option<&String>) -> (r: String)
    ensures
        r@ == settings_file(
            match app_data_dir {
                Some(d) => Some(d@),
                None => None,
            },
        ),
{
    match app_data_dir {
        Some(d) => join_dir(d, &text("settings.json")),
        None => text("settings.json"),
    }
}

/// The settings in use and the file they are kept in.
pub struct SettingsStore {
    path: String,
    current: AppSettings,
}

impl SettingsStore {
    pub closed spec fn path_view(&self) -> Seq<char> {
        self.path@
    }

    pub closed spec fn current_view(&self) -> SettingsModel {
        self.current@
    }

    /// The store for the file at `path`, given what reading and parsing it
    /// gave; a file that is missing or unreadable yields the defaults.
    pub fn new(path: String, loaded: Option<AppSettings>) -> (r: Self)
        ensures
            r.path_view() == path@,
            r.current_view() == match loaded {
                Some(s) => s@,
                None => default_settings(),
            },
    {
        let current = match loaded {
            Some(s) => s,
            None => AppSettings::default(),
        };
        SettingsStore { path, current }
    }

    /// The settings file.
    pub fn path(&self) -> (r: &String)
        ensures
            r@ == self.path_view(),
    {
        &self.path
    }

    /// The settings in use.
    pub fn current(&self) -> (r: &AppSettings)
        ensures
            r@ == self.current_view(),
    {
        &self.current
    }

    /// Applies new settings once writing them to the file was attempted:
    /// when the write failed its error is returned and the settings in use
    /// stay as they were.
    pub fn update(&mut self, settings: AppSettings, written: Result<(), String>) -> (r: Result<(), String>)
        ensures
            final(self).path_view() == old(self).path_view(),
            match written {
                Ok(()) => r is Ok && final(self).current_view() == settings@,
                Err(e) => r == Err::<(), String>(e) && final(self).current_view() == old(self).current_view(),
            },
    {
        match written {
            Ok(()) => {
                self.current = settings;
                Ok(())
            },
            Err(e) => Err(e),
        }
    }
}

} // verus!
