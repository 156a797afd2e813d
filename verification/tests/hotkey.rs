use dictosaurus::hotkey::{
    combo_step, contains_all, modifier_set, modifier_token, parse_modifier_only, plan_hotkey,
    tokens_for, HotkeyPlan, Modifier, ModifierSet,
};

fn set(ctrl: bool, alt: bool, shift: bool, super_key: bool, fn_key: bool) -> ModifierSet {
    ModifierSet { ctrl, alt, shift, super_key, fn_key }
}

#[test]
fn modifier_tokens_are_case_insensitive_aliases() {
    assert_eq!(modifier_token("CTRL"), Some(Modifier::Ctrl));
    assert_eq!(modifier_token("Control"), Some(Modifier::Ctrl));
    assert_eq!(modifier_token("option"), Some(Modifier::Alt));
    assert_eq!(modifier_token("Cmd"), Some(Modifier::Super));
    assert_eq!(modifier_token("META"), Some(Modifier::Super));
    assert_eq!(modifier_token("Globe"), Some(Modifier::Fn));
    assert_eq!(modifier_token("Space"), None);
    assert_eq!(modifier_token(""), None);
}

#[test]
fn modifier_only_combos_are_deduplicated() {
    assert_eq!(
        parse_modifier_only("Shift + Alt+shift"),
        Some(vec![Modifier::Shift, Modifier::Alt])
    );
    assert_eq!(parse_modifier_only("Alt+Space"), None);
    assert_eq!(parse_modifier_only("Alt+"), None);
}

#[test]
fn hotkey_plans_follow_the_detection_rules() {
    assert!(matches!(plan_hotkey("Alt+Space"), Ok(HotkeyPlan::Accelerator)));
    match plan_hotkey("Fn+Shift") {
        Ok(HotkeyPlan::ModifierOnly(mods)) => assert_eq!(mods, vec![Modifier::Fn, Modifier::Shift]),
        _ => panic!("Fn+Shift is a modifier-only combo"),
    }
    assert_eq!(
        plan_hotkey("Alt").err().as_deref(),
        Some("modifier-only hotkey \"Alt\" needs at least two modifier keys (a single modifier would fire during normal typing)")
    );
    assert_eq!(
        plan_hotkey("Fn+A").err().as_deref(),
        Some("the Fn key can only be part of a modifier-only hotkey (\"Fn+A\" combines it with a regular key)")
    );
}

#[test]
fn held_sets_become_tokens_in_settings_order() {
    assert_eq!(tokens_for(set(true, false, true, false, true)), vec!["Fn", "Ctrl", "Shift"]);
    assert!(tokens_for(set(false, false, false, false, false)).is_empty());
    assert_eq!(
        modifier_set(&vec![Modifier::Alt, Modifier::Super]),
        set(false, true, false, true, false)
    );
}

#[test]
fn combo_fires_once_per_press_and_release() {
    let target = set(false, true, true, false, false);
    assert!(contains_all(set(true, true, true, false, false), target));
    assert!(!contains_all(set(false, true, false, false, false), target));

    let (active, fire) = combo_step(false, set(false, true, true, false, false), target);
    assert!(active);
    assert_eq!(fire, Some(true));
    let (active, fire) = combo_step(active, set(true, true, true, false, false), target);
    assert!(active);
    assert_eq!(fire, None);
    let (active, fire) = combo_step(active, set(false, true, false, false, false), target);
    assert!(!active);
    assert_eq!(fire, Some(false));
    let (active, fire) = combo_step(active, set(false, false, false, false, false), target);
    assert!(!active);
    assert_eq!(fire, None);
}
