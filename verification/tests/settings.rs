use dictosaurus::models::ModelStorage;
use dictosaurus::settings::{
    migrate_unknown_model, needs_setup, settings_change, settings_path, AppSettings, SettingsStore,
};

#[test]
fn defaults_match_the_first_run_experience() {
    let s = AppSettings::default();
    assert_eq!(s.hotkey, "Alt+Space");
    assert_eq!(s.model_id, "base");
    assert_eq!(s.language, "auto");
    assert_eq!(s.ui_language, "auto");
    assert!(s.live_preview);
    assert!(!s.onboarding_completed);
}

#[test]
fn default_onboarding_completed_is_false() {
    let s = AppSettings::default();
    assert!(!s.onboarding_completed);
}

fn models_dir(files: &[&str]) -> ModelStorage {
    ModelStorage {
        dir: Some("/models".to_string()),
        present: files.iter().map(|f| f.to_string()).collect(),
    }
}

#[test]
fn settings_open_at_launch_until_setup_is_done() {
    let fresh = AppSettings::default();
    let finished = AppSettings { onboarding_completed: true, ..AppSettings::default() };
    let empty = models_dir(&[]);
    let with_tiny = models_dir(&["ggml-tiny.bin"]);
    let partial_gigaam = models_dir(&["gigaam-v3-e2e-ctc.int8.onnx"]);

    assert!(needs_setup(&fresh, &empty));
    assert!(needs_setup(&fresh, &with_tiny));
    assert!(needs_setup(&finished, &empty));
    assert!(needs_setup(&finished, &partial_gigaam));
    assert!(!needs_setup(&finished, &with_tiny));
    assert!(needs_setup(&finished, &ModelStorage { dir: None, present: vec!["ggml-tiny.bin".to_string()] }));
}

#[test]
fn unknown_models_are_reset_to_base() {
    let mut s = AppSettings::default();
    assert_eq!(migrate_unknown_model(&s), None);
    s.model_id = "retired-model".into();
    let migrated = migrate_unknown_model(&s).unwrap();
    assert_eq!(migrated.model_id, "base");
    assert_eq!(migrated.hotkey, s.hotkey);
}

#[test]
fn store_falls_back_to_defaults_and_keeps_settings_on_write_failure() {
    let mut store = SettingsStore::new(settings_path(Some(&"/data".to_string())), None);
    assert_eq!(store.path(), "/data/settings.json");
    assert_eq!(store.current(), &AppSettings::default());

    let mut next = AppSettings::default();
    next.language = "ru".into();
    assert_eq!(store.update(next.clone(), Err("write settings: denied".into())), Err("write settings: denied".into()));
    assert_eq!(store.current(), &AppSettings::default());
    assert_eq!(store.update(next.clone(), Ok(())), Ok(()));
    assert_eq!(store.current(), &next);
    assert_eq!(settings_path(None), "settings.json");
}

#[test]
fn changes_name_what_must_follow() {
    let old = AppSettings::default();
    let mut new = old.clone();
    let c = settings_change(&old, &new);
    assert!(!c.replace_hotkey && !c.preload_model);
    new.hotkey = "Shift+Alt".into();
    new.model_id = "tiny".into();
    let c = settings_change(&old, &new);
    assert!(c.replace_hotkey && c.preload_model);
}
