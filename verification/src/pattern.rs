//! The regular expression that finds a phrase: its words, with regular
//! expression syntax escaped, joined by runs of whitespace, matched
//! case-insensitively over Unicode. Compiling and searching are done by the
//! `regex` crate.

use crate::text::{push_char, split_chars, split_fields, string_of};
use regex::Regex;
use vstd::prelude::*;
use vstd::utf8::encode_utf8;

verus! {

#[verifier::external_type_specification]
#[verifier::external_body]
pub struct ExRegex(Regex);

/// The characters that carry meaning in regular expression syntax.
pub open spec fn is_meta(c: char) -> bool {
    c == '\\' || c == '.' || c == '+' || c == '*' || c == '?' || c == '(' || c == ')' || c == '|'
        || c == '[' || c == ']' || c == '{' || c == '}' || c == '^' || c == '$' || c == '#' || c
        == '&' || c == '-' || c == '~'
}

/// `s` with a backslash before each meta character.
pub open spec fn escaped(s: Seq<char>) -> Seq<char>
    decreases s.len(),
{
    if s.len() == 0 {
        Seq::empty()
    } else {
        escaped(s.drop_last()) + if is_meta(s.last()) {
            seq!['\\', s.last()]
        } else {
            seq![s.last()]
        }
    }
}

/// `regex::escape`: every meta character of `s` gets a backslash in front
/// of it, as `regex_syntax::escape_into` writes it, and nothing else
/// changes.
#[verifier::external_body]
pub(crate) fn escape_text(s: &str) -> (r: String)
    ensures
        r@ == escaped(s@),
{
    regex::escape(s)
}

/// The escaped words joined by `\s+`.
pub open spec fn joined_words(words: Seq<Seq<char>>) -> Seq<char>
    decreases words.len(),
{
    if words.len() == 0 {
        Seq::empty()
    } else if words.len() == 1 {
        escaped(words[0])
    } else {
        joined_words(words.drop_last()) + seq!['\\', 's', '+'] + escaped(words.last())
    }
}

/// The pattern of a phrase: `(?iu:` + its space-separated words, escaped
/// and joined by `\s+` + `)`.
pub open spec fn phrase_pattern(phrase: Seq<char>) -> Seq<char> {
    seq!['(', '?', 'i', 'u', ':'] + joined_words(split_fields(phrase, ' ')) + seq![')']
}

fn push_chars_of(out: &mut String, s: &String)
    ensures
        final(out)@ == old(out)@ + s@,
{
    out.append(s.as_str());
}

/// Builds the pattern of `phrase`.
pub fn pattern_of(phrase: &Vec<char>) -> (r: String)
    ensures
        r@ == phrase_pattern(phrase@),
{
    let words = split_chars(phrase, ' ');
    let ghost ws = split_fields(phrase@, ' ');
    let mut out = String::new();
    push_char(&mut out, '(');
    push_char(&mut out, '?');
    push_char(&mut out, 'i');
    push_char(&mut out, 'u');
    push_char(&mut out, ':');
    let ghost head = out@;
    assert(head =~= seq!['(', '?', 'i', 'u', ':']);
    assert(ws.take(0) =~= Seq::<Seq<char>>::empty());
    for i in 0..words.len()
        invariant
            ws == split_fields(phrase@, ' '),
            words@.map_values(|w: Vec<char>| w@) == ws,
            head == seq!['(', '?', 'i', 'u', ':'],
            out@ == head + joined_words(ws.take(i as int)),
    {
        assert(words@[i as int]@ == ws[i as int]);
        assert(ws.take(i + 1).drop_last() =~= ws.take(i as int));
        assert(ws.take(i + 1).last() == ws[i as int]);
        if i > 0 {
            push_char(&mut out, '\\');
            push_char(&mut out, 's');
            push_char(&mut out, '+');
        } else {
            assert(ws.take(1)[0] == ws[0]);
        }
        let word = escape_text(string_of(&words[i]).as_str());
        push_chars_of(&mut out, &word);
        assert(out@ =~= head + joined_words(ws.take(i + 1)));
    }
    assert(ws.take(words@.len() as int) =~= ws);
    push_char(&mut out, ')');
    out
}

/// The error `regex` reports for `pattern`, or `None` when it compiles.
pub uninterp spec fn regex_error(pattern: Seq<char>) -> Option<Seq<char>>;

/// The byte ranges of the successive non-overlapping matches that `regex`
/// finds for `pattern` in `text`.
pub uninterp spec fn regex_matches(pattern: Seq<char>, text: Seq<char>) -> Seq<(int, int)>;

/// A compiled regular expression together with the pattern it was compiled
/// from. Only [`compile_regex`] builds one, so the two always agree.
pub struct PhraseRegex {
    pattern: String,
    regex: Regex,
}

impl PhraseRegex {
    pub closed spec fn pattern_view(&self) -> Seq<char> {
        self.pattern@
    }
}

/// `Regex::new`: compiles `pattern`, or reports (as its `Display` text) why
/// it is not a valid or not an acceptably small regular expression. Which
/// patterns compile is named, not restated.
#[verifier::external_body]
pub(crate) fn compile_regex(pattern: &str) -> (r: Result<PhraseRegex, String>)
    ensures
        match regex_error(pattern@) {
            None => r matches Ok(re) && re.pattern_view() == pattern@,
            Some(m) => r matches Err(e) && e@ == m,
        },
{
    match Regex::new(pattern) {
        Ok(regex) => Ok(PhraseRegex { pattern: pattern.to_string(), regex }),
        Err(error) => Err(error.to_string()),
    }
}

/// `b` is the UTF-8 length of a prefix of `t`: a character boundary.
pub open spec fn char_boundary(t: Seq<char>, b: int) -> bool {
    exists|k: int| 0 <= k <= t.len() && encode_utf8(t.take(k)).len() == b
}

/// `Regex::find_iter`, each match as its `(start, end)` byte offsets. The
/// matches are named; `regex` documents that each has `start <= end` and
/// that both offsets fall on character boundaries of the haystack.
#[verifier::external_body]
pub(crate) fn find_matches(re: &PhraseRegex, text: &str) -> (r: Vec<(usize, usize)>)
    ensures
        r@.map_values(|m: (usize, usize)| (m.0 as int, m.1 as int)) == regex_matches(
            re.pattern_view(),
            text@,
        ),
        forall|i: int|
            0 <= i < r@.len() ==> (#[trigger] r@[i]).0 <= r@[i].1 && char_boundary(text@, r@[i].0 as int)
                && char_boundary(text@, r@[i].1 as int),
{
    re.regex.find_iter(text).map(|m| (m.start(), m.end())).collect()
}

} // verus!
