//! Push-to-talk shortcut parsing.
//!
//! Combos with a regular key ("Alt+Space") are registered as system
//! accelerators. Modifier-only combos ("Shift+Alt", "Fn+Shift") cannot be
//! expressed as accelerators and are detected from the held modifier set.
//! The Fn (Globe) key exists only as a modifier flag, so Fn is valid only in
//! modifier-only combos.

use crate::text::{chars_of, split_chars, split_fields, string_of, trim_chars, trim_ws};
use vstd::prelude::*;

verus! {

#[derive(Clone, Copy, PartialEq, Eq, Debug, Structural)]
pub enum Modifier {
    Ctrl,
    Alt,
    Shift,
    Super,
    Fn,
}

/// `s` with ASCII upper-case letters lowered.
pub open spec fn ascii_lower(s: Seq<char>) -> Seq<char> {
    s.map_values(|c: char| if 'A' <= c && c <= 'Z' { ((c as u32) + 32) as char } else { c })
}

/// The modifier a token names, case-insensitively.
pub open spec fn modifier_of(token: Seq<char>) -> Option<Modifier> {
    let t = ascii_lower(token);
    if t == "ctrl"@ || t == "control"@ {
        Some(Modifier::Ctrl)
    } else if t == "alt"@ || t == "option"@ {
        Some(Modifier::Alt)
    } else if t == "shift"@ {
        Some(Modifier::Shift)
    } else if t == "super"@ || t == "cmd"@ || t == "command"@ || t == "meta"@ {
        Some(Modifier::Super)
    } else if t == "fn"@ || t == "globe"@ {
        Some(Modifier::Fn)
    } else {
        None
    }
}

fn lower_ascii(cs: &Vec<char>) -> (r: String)
    ensures
        r@ == ascii_lower(cs@),
{
    let mut out = String::new();
    for i in 0..cs.len()
        invariant
            out@ == ascii_lower(cs@.take(i as int)),
    {
        let c = cs[i];
        let l = if 'A' <= c && c <= 'Z' {
            ((c as u32) + 32) as u8 as char
        } else {
            c
        };
        crate::text::push_char(&mut out, l);
        assert(ascii_lower(cs@.take(i + 1)) =~= ascii_lower(cs@.take(i as int)).push(l));
    }
    assert(cs@.take(cs@.len() as int) =~= cs@);
    out
}

fn is(s: &String, t: &str) -> (r: bool)
    ensures
        r == (s@ == t@),
{
    *s == String::from_str(t)
}

/// The modifier a token names.
pub fn modifier_token(token: &str) -> (r: Option<Modifier>)
    ensures
        r == modifier_of(token@),
{
    let t = lower_ascii(&chars_of(token));
    if is(&t, "ctrl") || is(&t, "control") {
        Some(Modifier::Ctrl)
    } else if is(&t, "alt") || is(&t, "option") {
        Some(Modifier::Alt)
    } else if is(&t, "shift") {
        Some(Modifier::Shift)
    } else if is(&t, "super") || is(&t, "cmd") || is(&t, "command") || is(&t, "meta") {
        Some(Modifier::Super)
    } else if is(&t, "fn") || is(&t, "globe") {
        Some(Modifier::Fn)
    } else {
        None
    }
}

} // verus!

verus! {

/// The modifiers of `tokens`, first occurrences only, when every token
/// (trimmed) names a modifier.
pub open spec fn parse_modifiers(tokens: Seq<Seq<char>>) -> Option<Seq<Modifier>>
    decreases tokens.len(),
{
    if tokens.len() == 0 {
        Some(Seq::empty())
    } else {
        match parse_modifiers(tokens.drop_last()) {
            None => None,
            Some(ms) => match modifier_of(trim_ws(tokens.last())) {
                None => None,
                Some(m) => Some(
                    if ms.contains(m) {
                        ms
                    } else {
                        ms.push(m)
                    },
                ),
            },
        }
    }
}

/// The deduplicated modifier set of a combo made of modifier tokens only;
/// `None` when it holds a regular key.
pub open spec fn modifier_only(hotkey: Seq<char>) -> Option<Seq<Modifier>> {
    match parse_modifiers(split_fields(hotkey, '+')) {
        Some(ms) => if ms.len() > 0 {
            Some(ms)
        } else {
            None
        },
        None => None,
    }
}

fn contains_modifier(ms: &Vec<Modifier>, m: Modifier) -> (r: bool)
    ensures
        r == ms@.contains(m),
{
    for i in 0..ms.len()
        invariant
            forall|j: int| 0 <= j < i ==> ms@[j] != m,
    {
        if ms[i] == m {
            return true;
        }
    }
    false
}

proof fn lemma_parse_none_persists(ts: Seq<Seq<char>>, i: int, k: int)
    requires
        0 <= i <= k <= ts.len(),
        parse_modifiers(ts.take(i)) is None,
    ensures
        parse_modifiers(ts.take(k)) is None,
    decreases k - i,
{
    if k > i {
        lemma_parse_none_persists(ts, i, k - 1);
        assert(ts.take(k).drop_last() =~= ts.take(k - 1));
    }
}

/// Returns the deduplicated modifier set when the combo consists of
/// modifier tokens only, `None` when it contains a regular key.
pub fn parse_modifier_only(hotkey: &str) -> (r: Option<Vec<Modifier>>)
    ensures
        match modifier_only(hotkey@) {
            Some(ms) => r matches Some(v) && v@ == ms,
            None => r is None,
        },
{
    let tokens = split_chars(&chars_of(hotkey), '+');
    let ghost ts = split_fields(hotkey@, '+');
    let mut mods: Vec<Modifier> = Vec::new();
    for i in 0..tokens.len()
        invariant
            ts == split_fields(hotkey@, '+'),
            tokens@.map_values(|f: Vec<char>| f@) == ts,
            parse_modifiers(ts.take(i as int)) == Some(mods@),
    {
        assert(ts.take(i + 1).drop_last() =~= ts.take(i as int));
        assert(ts.take(i + 1).last() == tokens@[i as int]@);
        let trimmed = trim_chars(&tokens[i]);
        match modifier_token(string_of(&trimmed).as_str()) {
            None => {
                proof {
                    lemma_parse_none_persists(ts, i + 1, ts.len() as int);
                    assert(ts.take(ts.len() as int) =~= ts);
                }
                return None;
            },
            Some(m) => {
                if !contains_modifier(&mods, m) {
                    mods.push(m);
                }
            },
        }
    }
    assert(ts.take(tokens@.len() as int) =~= ts);
    if mods.len() > 0 {
        Some(mods)
    } else {
        None
    }
}

} // verus!

verus! {

/// How a push-to-talk shortcut is to be detected.
pub enum HotkeyPlan {
    /// Held-modifier detection of these modifiers (at least two).
    ModifierOnly(Vec<Modifier>),
    /// A system accelerator parsed from the shortcut text.
    Accelerator,
}

pub open spec fn single_modifier_message(hotkey: Seq<char>) -> Seq<char> {
    "modifier-only hotkey \""@ + hotkey
        + "\" needs at least two modifier keys (a single modifier would fire during normal typing)"@
}

pub open spec fn fn_with_key_message(hotkey: Seq<char>) -> Seq<char> {
    "the Fn key can only be part of a modifier-only hotkey (\""@ + hotkey
        + "\" combines it with a regular key)"@
}

/// Whether a token of `hotkey` names the Fn key.
pub open spec fn names_fn(hotkey: Seq<char>) -> bool {
    exists|j: int|
        0 <= j < split_fields(hotkey, '+').len() && modifier_of(
            trim_ws(#[trigger] split_fields(hotkey, '+')[j]),
        ) == Some(Modifier::Fn)
}

/// The detection plan of a shortcut: `Ok(Some(mods))` for a modifier-only
/// combo, `Ok(None)` for an accelerator, or why it cannot be used.
pub open spec fn hotkey_plan(hotkey: Seq<char>) -> Result<Option<Seq<Modifier>>, Seq<char>> {
    match modifier_only(hotkey) {
        Some(ms) => if ms.len() < 2 {
            Err(single_modifier_message(hotkey))
        } else {
            Ok(Some(ms))
        },
        None => if names_fn(hotkey) {
            Err(fn_with_key_message(hotkey))
        } else {
            Ok(None)
        },
    }
}

fn has_fn_token(hotkey: &str) -> (r: bool)
    ensures
        r == names_fn(hotkey@),
{
    let tokens = split_chars(&chars_of(hotkey), '+');
    let ghost ts = split_fields(hotkey@, '+');
    for i in 0..tokens.len()
        invariant
            ts == split_fields(hotkey@, '+'),
            tokens@.map_values(|f: Vec<char>| f@) == ts,
            forall|j: int| 0 <= j < i ==> modifier_of(trim_ws(#[trigger] ts[j])) != Some(Modifier::Fn),
    {
        assert(tokens@[i as int]@ == ts[i as int]);
        let trimmed = trim_chars(&tokens[i]);
        match modifier_token(string_of(&trimmed).as_str()) {
            Some(Modifier::Fn) => {
                return true;
            },
            _ => {},
        }
    }
    false
}

/// Decides how the shortcut `hotkey` is detected.
pub fn plan_hotkey(hotkey: &str) -> (r: Result<HotkeyPlan, String>)
    ensures
        match hotkey_plan(hotkey@) {
            Ok(Some(ms)) => r matches Ok(HotkeyPlan::ModifierOnly(v)) && v@ == ms,
            Ok(None) => r matches Ok(HotkeyPlan::Accelerator),
            Err(m) => r matches Err(e) && e@ == m,
        },
{
    match parse_modifier_only(hotkey) {
        Some(mods) => {
            if mods.len() < 2 {
                let mut message = String::from_str("modifier-only hotkey \"");
                message.append(hotkey);
                message.append(
                    "\" needs at least two modifier keys (a single modifier would fire during normal typing)",
                );
                return Err(message);
            }
            Ok(HotkeyPlan::ModifierOnly(mods))
        },
        None => {
            if has_fn_token(hotkey) {
                let mut message = String::from_str(
                    "the Fn key can only be part of a modifier-only hotkey (\"",
                );
                message.append(hotkey);
                message.append("\" combines it with a regular key)");
                return Err(message);
            }
            Ok(HotkeyPlan::Accelerator)
        },
    }
}

/// A set of held (or wanted) modifier keys.
#[derive(Clone, Copy, PartialEq, Eq, Debug, Structural)]
pub struct ModifierSet {
    pub ctrl: bool,
    pub alt: bool,
    pub shift: bool,
    pub super_key: bool,
    pub fn_key: bool,
}

pub open spec fn set_has(s: ModifierSet, m: Modifier) -> bool {
    match m {
        Modifier::Ctrl => s.ctrl,
        Modifier::Alt => s.alt,
        Modifier::Shift => s.shift,
        Modifier::Super => s.super_key,
        Modifier::Fn => s.fn_key,
    }
}

/// The set of the modifiers in `mods`.
pub fn modifier_set(mods: &Vec<Modifier>) -> (r: ModifierSet)
    ensures
        forall|m: Modifier| set_has(r, m) == mods@.contains(m),
{
    let r = ModifierSet {
        ctrl: contains_modifier(mods, Modifier::Ctrl),
        alt: contains_modifier(mods, Modifier::Alt),
        shift: contains_modifier(mods, Modifier::Shift),
        super_key: contains_modifier(mods, Modifier::Super),
        fn_key: contains_modifier(mods, Modifier::Fn),
    };
    assert forall|m: Modifier| set_has(r, m) == mods@.contains(m) by {
        match m {
            Modifier::Ctrl => {},
            Modifier::Alt => {},
            Modifier::Shift => {},
            Modifier::Super => {},
            Modifier::Fn => {},
        }
    }
    r
}

/// Every modifier of `target` is held.
pub open spec fn holds_all(held: ModifierSet, target: ModifierSet) -> bool {
    forall|m: Modifier| set_has(target, m) ==> set_has(held, m)
}

pub fn contains_all(held: ModifierSet, target: ModifierSet) -> (r: bool)
    ensures
        r == holds_all(held, target),
{
    let r = (!target.ctrl || held.ctrl) && (!target.alt || held.alt) && (!target.shift || held.shift)
        && (!target.super_key || held.super_key) && (!target.fn_key || held.fn_key);
    if !r {
        if target.ctrl && !held.ctrl {
            assert(set_has(target, Modifier::Ctrl) && !set_has(held, Modifier::Ctrl));
        } else if target.alt && !held.alt {
            assert(set_has(target, Modifier::Alt) && !set_has(held, Modifier::Alt));
        } else if target.shift && !held.shift {
            assert(set_has(target, Modifier::Shift) && !set_has(held, Modifier::Shift));
        } else if target.super_key && !held.super_key {
            assert(set_has(target, Modifier::Super) && !set_has(held, Modifier::Super));
        } else {
            assert(set_has(target, Modifier::Fn) && !set_has(held, Modifier::Fn));
        }
    }
    r
}

/// The token names of a held set, in the order the settings window shows
/// them: "Fn", "Ctrl", "Alt", "Shift", "Super".
pub open spec fn token_names(held: ModifierSet) -> Seq<Seq<char>> {
    (if held.fn_key { seq!["Fn"@] } else { Seq::empty() }) + (if held.ctrl { seq!["Ctrl"@] } else {
        Seq::empty()
    }) + (if held.alt { seq!["Alt"@] } else { Seq::empty() }) + (if held.shift { seq!["Shift"@] } else {
        Seq::empty()
    }) + (if held.super_key { seq!["Super"@] } else { Seq::empty() })
}

/// Modifier token names for a held set.
pub fn tokens_for(held: ModifierSet) -> (r: Vec<&'static str>)
    ensures
        r@.map_values(|s: &str| s@) == token_names(held),
{
    let mut out: Vec<&'static str> = Vec::new();
    if held.fn_key {
        out.push("Fn");
    }
    if held.ctrl {
        out.push("Ctrl");
    }
    if held.alt {
        out.push("Alt");
    }
    if held.shift {
        out.push("Shift");
    }
    if held.super_key {
        out.push("Super");
    }
    assert(out@.map_values(|s: &str| s@) =~= token_names(held));
    out
}

/// What a change of the held set does to a modifier-only push-to-talk
/// combo: the new "combo held" state, and the event to fire (`Some(true)`
/// pressed, `Some(false)` released) when it changes.
pub open spec fn combo_transition(active: bool, held: ModifierSet, target: ModifierSet) -> (bool, Option<bool>) {
    if holds_all(held, target) {
        if active {
            (true, None)
        } else {
            (true, Some(true))
        }
    } else if active {
        (false, Some(false))
    } else {
        (false, None)
    }
}

pub fn combo_step(active: bool, held: ModifierSet, target: ModifierSet) -> (r: (bool, Option<bool>))
    ensures
        r == combo_transition(active, held, target),
{
    if contains_all(held, target) {
        if active {
            (true, None)
        } else {
            (true, Some(true))
        }
    } else if active {
        (false, Some(false))
    } else {
        (false, None)
    }
}

} // verus!

verus! {

proof fn lemma_parse_modifiers_distinct(tokens: Seq<Seq<char>>)
    ensures
        match parse_modifiers(tokens) {
            Some(ms) => forall|i: int, j: int| 0 <= i < j < ms.len() ==> #[trigger] ms[i] != #[trigger] ms[j],
            None => true,
        },
    decreases tokens.len(),
{
    if tokens.len() > 0 {
        lemma_parse_modifiers_distinct(tokens.drop_last());
        match parse_modifiers(tokens.drop_last()) {
            Some(ms) => match modifier_of(trim_ws(tokens.last())) {
                Some(m) => if !ms.contains(m) {
                    let ns = ms.push(m);
                    assert forall|i: int, j: int| 0 <= i < j < ns.len() implies #[trigger] ns[i] != #[trigger] ns[j] by {
                        if j == ms.len() {
                            assert(ns[i] == ms[i]);
                        } else {
                            assert(ns[i] == ms[i] && ns[j] == ms[j]);
                        }
                    }
                },
                None => {},
            },
            None => {},
        }
    }
}

/// A modifier-only shortcut is detected from at least two distinct
/// modifiers, and a shortcut registered as an accelerator never involves
/// the Fn key.
pub proof fn law_shortcut_plans_are_sound(hotkey: Seq<char>)
    ensures
        match hotkey_plan(hotkey) {
            Ok(Some(ms)) => ms.len() >= 2 && forall|i: int, j: int|
                0 <= i < j < ms.len() ==> #[trigger] ms[i] != #[trigger] ms[j],
            Ok(None) => !names_fn(hotkey),
            Err(_) => true,
        },
{
    lemma_parse_modifiers_distinct(split_fields(hotkey, '+'));
}

} // verus!

verus! {

/// The order in which the settings window lists held modifiers.
pub open spec fn display_rank(m: Modifier) -> int {
    match m {
        Modifier::Fn => 0,
        Modifier::Ctrl => 1,
        Modifier::Alt => 2,
        Modifier::Shift => 3,
        Modifier::Super => 4,
    }
}

proof fn lemma_name_literals()
    ensures
        ascii_lower("Fn"@) == "fn"@,
        ascii_lower("Ctrl"@) == "ctrl"@,
        ascii_lower("Alt"@) == "alt"@,
        ascii_lower("Shift"@) == "shift"@,
        ascii_lower("Super"@) == "super"@,
{
    reveal_strlit("Fn");
    reveal_strlit("fn");
    reveal_strlit("Ctrl");
    reveal_strlit("ctrl");
    reveal_strlit("Alt");
    reveal_strlit("alt");
    reveal_strlit("Shift");
    reveal_strlit("shift");
    reveal_strlit("Super");
    reveal_strlit("super");
    assert(ascii_lower("Fn"@) =~= "fn"@);
    assert(ascii_lower("Ctrl"@) =~= "ctrl"@);
    assert(ascii_lower("Alt"@) =~= "alt"@);
    assert(ascii_lower("Shift"@) =~= "shift"@);
    assert(ascii_lower("Super"@) =~= "super"@);
}

proof fn lemma_modifier_literals()
    ensures
        "fn"@ =~= seq!['f', 'n'],
        "globe"@ =~= seq!['g', 'l', 'o', 'b', 'e'],
        "ctrl"@ =~= seq!['c', 't', 'r', 'l'],
        "control"@ =~= seq!['c', 'o', 'n', 't', 'r', 'o', 'l'],
        "alt"@ =~= seq!['a', 'l', 't'],
        "option"@ =~= seq!['o', 'p', 't', 'i', 'o', 'n'],
        "shift"@ =~= seq!['s', 'h', 'i', 'f', 't'],
        "super"@ =~= seq!['s', 'u', 'p', 'e', 'r'],
        "cmd"@ =~= seq!['c', 'm', 'd'],
        "command"@ =~= seq!['c', 'o', 'm', 'm', 'a', 'n', 'd'],
        "meta"@ =~= seq!['m', 'e', 't', 'a'],
{
    reveal_strlit("fn");
    reveal_strlit("globe");
    reveal_strlit("ctrl");
    reveal_strlit("control");
    reveal_strlit("alt");
    reveal_strlit("option");
    reveal_strlit("shift");
    reveal_strlit("super");
    reveal_strlit("cmd");
    reveal_strlit("command");
    reveal_strlit("meta");
}

proof fn lemma_display_names_parse()
    ensures
        modifier_of("Fn"@) == Some(Modifier::Fn),
        modifier_of("Ctrl"@) == Some(Modifier::Ctrl),
        modifier_of("Alt"@) == Some(Modifier::Alt),
        modifier_of("Shift"@) == Some(Modifier::Shift),
        modifier_of("Super"@) == Some(Modifier::Super),
{
    lemma_name_literals();
    lemma_modifier_literals();
}

/// Modifier names are matched without regard to ASCII case, and each
/// documented name selects its key: "ctrl"/"control" Ctrl, "alt"/"option"
/// Alt, "shift" Shift, "super"/"cmd"/"command"/"meta" Super, "fn"/"globe"
/// Fn. No other token names a modifier.
pub proof fn law_modifier_names(t: Seq<char>)
    ensures
        modifier_of(t) == modifier_of(ascii_lower(t)),
        (ascii_lower(t) == "ctrl"@ || ascii_lower(t) == "control"@) ==> modifier_of(t) == Some(Modifier::Ctrl),
        (ascii_lower(t) == "alt"@ || ascii_lower(t) == "option"@) ==> modifier_of(t) == Some(Modifier::Alt),
        ascii_lower(t) == "shift"@ ==> modifier_of(t) == Some(Modifier::Shift),
        (ascii_lower(t) == "super"@ || ascii_lower(t) == "cmd"@ || ascii_lower(t) == "command"@
            || ascii_lower(t) == "meta"@) ==> modifier_of(t) == Some(Modifier::Super),
        (ascii_lower(t) == "fn"@ || ascii_lower(t) == "globe"@) ==> modifier_of(t) == Some(Modifier::Fn),
        modifier_of(t) is None <==> !(ascii_lower(t) == "ctrl"@ || ascii_lower(t) == "control"@
            || ascii_lower(t) == "alt"@ || ascii_lower(t) == "option"@ || ascii_lower(t) == "shift"@
            || ascii_lower(t) == "super"@ || ascii_lower(t) == "cmd"@ || ascii_lower(t) == "command"@
            || ascii_lower(t) == "meta"@ || ascii_lower(t) == "fn"@ || ascii_lower(t) == "globe"@),
        modifier_of("Super"@) == Some(Modifier::Super),
{
    assert(ascii_lower(ascii_lower(t)) =~= ascii_lower(t));
    lemma_display_names_parse();
    lemma_modifier_literals();
}

/// The tokens reported for a held set name exactly the held modifiers, each
/// once, in the order Fn, Ctrl, Alt, Shift, Super: every token parses back
/// to a held modifier, the tokens come in strictly increasing display
/// order, and every held modifier has its token.
pub proof fn law_held_tokens_parse_back(held: ModifierSet)
    ensures
        forall|i: int|
            0 <= i < token_names(held).len() ==> (#[trigger] modifier_of(token_names(held)[i])) is Some
                && set_has(held, modifier_of(token_names(held)[i])->0),
        forall|i: int, j: int|
            0 <= i < j < token_names(held).len() ==> display_rank(
                (#[trigger] modifier_of(token_names(held)[i]))->0,
            ) < display_rank((#[trigger] modifier_of(token_names(held)[j]))->0),
        forall|m: Modifier|
            #[trigger] set_has(held, m) ==> exists|i: int|
                0 <= i < token_names(held).len() && modifier_of(token_names(held)[i]) == Some(m),
{
    lemma_display_names_parse();
    let ts = token_names(held);
    let fs: Seq<Seq<char>> = if held.fn_key { seq!["Fn"@] } else { Seq::empty() };
    let cs: Seq<Seq<char>> = if held.ctrl { seq!["Ctrl"@] } else { Seq::empty() };
    let als: Seq<Seq<char>> = if held.alt { seq!["Alt"@] } else { Seq::empty() };
    let ss: Seq<Seq<char>> = if held.shift { seq!["Shift"@] } else { Seq::empty() };
    let us: Seq<Seq<char>> = if held.super_key { seq!["Super"@] } else { Seq::empty() };
    assert(ts == fs + cs + als + ss + us);
    let ms = ts.map_values(|t: Seq<char>| modifier_of(t));
    let expect: Seq<Option<Modifier>> = (if held.fn_key { seq![Some(Modifier::Fn)] } else { Seq::empty() })
        + (if held.ctrl { seq![Some(Modifier::Ctrl)] } else { Seq::empty() })
        + (if held.alt { seq![Some(Modifier::Alt)] } else { Seq::empty() })
        + (if held.shift { seq![Some(Modifier::Shift)] } else { Seq::empty() })
        + (if held.super_key { seq![Some(Modifier::Super)] } else { Seq::empty() });
    assert(ms =~= expect);
    assert forall|i: int| 0 <= i < ts.len() implies (#[trigger] modifier_of(ts[i])) is Some && set_has(
        held,
        modifier_of(ts[i])->0,
    ) by {
        assert(ms[i] == modifier_of(ts[i]));
    }
    assert forall|i: int, j: int| 0 <= i < j < ts.len() implies display_rank(
        (#[trigger] modifier_of(ts[i]))->0,
    ) < display_rank((#[trigger] modifier_of(ts[j]))->0) by {
        assert(ms[i] == modifier_of(ts[i]));
        assert(ms[j] == modifier_of(ts[j]));
    }
    assert forall|m: Modifier| #[trigger] set_has(held, m) implies exists|i: int|
        0 <= i < ts.len() && modifier_of(ts[i]) == Some(m) by {
        let f: int = if held.fn_key { 1 } else { 0 };
        let c: int = if held.ctrl { 1 } else { 0 };
        let a: int = if held.alt { 1 } else { 0 };
        let h: int = if held.shift { 1 } else { 0 };
        let i: int = match m {
            Modifier::Fn => 0,
            Modifier::Ctrl => f,
            Modifier::Alt => f + c,
            Modifier::Shift => f + c + a,
            Modifier::Super => f + c + a + h,
        };
        assert(expect[i] == Some(m));
        assert(ms[i] == modifier_of(ts[i]));
    }
}

} // verus!
