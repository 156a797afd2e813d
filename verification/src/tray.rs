//! The labels of the menu bar (tray) menu.

use crate::text::chars_of;
use vstd::prelude::*;

verus! {

/// `s` starts with "ru".
pub open spec fn starts_with_ru(s: Seq<char>) -> bool {
    s.len() >= 2 && s[0] == 'r' && s[1] == 'u'
}

/// The tray language for a UI language preference: "ru" or "en"; "auto"
/// follows the `LANG` environment variable (`env_lang`, `None` when unset).
pub open spec fn tray_language(ui_language: Seq<char>, env_lang: Option<Seq<char>>) -> Seq<char> {
    if ui_language != "auto"@ {
        if ui_language == "ru"@ {
            "ru"@
        } else {
            "en"@
        }
    } else {
        match env_lang {
            Some(l) => if starts_with_ru(l) {
                "ru"@
            } else {
                "en"@
            },
            None => "en"@,
        }
    }
}

/// The characters of an optional string.
pub open spec fn str_option(s: Option<&str>) -> Option<Seq<char>> {
    match s {
        Some(l) => Some(l@),
        None => None,
    }
}

fn is_text(s: &str, t: &str) -> (r: bool)
    ensures
        r == (s@ == t@),
{
    String::from_str(s) == String::from_str(t)
}

/// Resolves the UI language preference to a concrete tray language.
pub fn resolve_tray_language(ui_language: &str, env_lang: Option<&str>) -> (r: &'static str)
    ensures
        r@ == tray_language(ui_language@, str_option(env_lang)),
{
    if !is_text(ui_language, "auto") {
        return if is_text(ui_language, "ru") {
            "ru"
        } else {
            "en"
        };
    }
    match env_lang {
        Some(l) => {
            let cs = chars_of(l);
            if cs.len() >= 2 && cs[0] == 'r' && cs[1] == 'u' {
                "ru"
            } else {
                "en"
            }
        },
        None => "en",
    }
}

/// `(settings_label, quit_label)` for the tray menu.
pub open spec fn labels_for(language: Seq<char>) -> (Seq<char>, Seq<char>) {
    if language == "ru"@ {
        ("Настройки…"@, "Выйти из Dictosaurus"@)
    } else {
        ("Settings…"@, "Quit Dictosaurus"@)
    }
}

/// Returns `(settings_label, quit_label)` for the tray menu in the given
/// UI language.
pub fn menu_labels(ui_language: &str, env_lang: Option<&str>) -> (r: (&'static str, &'static str))
    ensures
        (r.0@, r.1@) == labels_for(tray_language(ui_language@, str_option(env_lang))),
{
    if is_text(resolve_tray_language(ui_language, env_lang), "ru") {
        ("Настройки…", "Выйти из Dictosaurus")
    } else {
        ("Settings…", "Quit Dictosaurus")
    }
}

} // verus!
