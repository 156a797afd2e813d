use dictosaurus::tray::{menu_labels, resolve_tray_language};

#[test]
fn menu_labels_ru_uses_russian_strings() {
    assert_eq!(menu_labels("ru", None), ("Настройки…", "Выйти из Dictosaurus"));
}

#[test]
fn menu_labels_en_uses_english_strings() {
    assert_eq!(menu_labels("en", None), ("Settings…", "Quit Dictosaurus"));
}

#[test]
fn menu_labels_unknown_language_falls_back_to_english() {
    assert_eq!(menu_labels("fr", None), ("Settings…", "Quit Dictosaurus"));
}

#[test]
fn auto_language_follows_the_environment() {
    assert_eq!(resolve_tray_language("auto", Some("ru_RU.UTF-8")), "ru");
    assert_eq!(resolve_tray_language("auto", Some("en_US.UTF-8")), "en");
    assert_eq!(resolve_tray_language("auto", Some("r")), "en");
    assert_eq!(resolve_tray_language("auto", None), "en");
    assert_eq!(resolve_tray_language("en", Some("ru_RU.UTF-8")), "en");
    assert_eq!(menu_labels("auto", Some("ru")), ("Настройки…", "Выйти из Dictosaurus"));
}
