//! The dictionary compiled for use: the phrases it replaces, in priority
//! order, and the vocabulary hints it hands to recognizers.

use crate::dictionary::{
    normalize_document, char_views, comparison_key, fold_key, DictionaryDocument, DictionaryEntry, DictionaryError,
    DocumentModel, EntryModel, ErrorModel,
};
use crate::canonical::law_normalized_is_canonical;
use crate::pattern::{compile_regex, pattern_of, phrase_pattern, regex_error};
use crate::matcher::{
    all_wf, law_no_rules_keep_text, lemma_encode_utf8_append, replace_all, replace_matches,
    rules_of, utf8_byte_len,
    CompiledAlias, Rule,
};
use crate::text::{append_chars, append_str, chars_of, string_of};
use std::sync::Arc;
use vstd::prelude::*;
use vstd::utf8::{encode_scalar, encode_utf8};

verus! {

/// The phrases of an entry in order: its term, then its aliases, each
/// mapped to the term.
pub open spec fn entry_rules(e: EntryModel) -> Seq<Rule> {
    seq![Rule { phrase: e.term, term: e.term }] + e.aliases.map_values(
        |a: Seq<char>| Rule { phrase: a, term: e.term },
    )
}

/// The phrases of the enabled entries, in document order.
pub open spec fn enabled_rules(entries: Seq<EntryModel>) -> Seq<Rule>
    decreases entries.len(),
{
    if entries.len() == 0 {
        Seq::empty()
    } else {
        enabled_rules(entries.drop_last()) + if entries.last().enabled {
            entry_rules(entries.last())
        } else {
            Seq::empty()
        }
    }
}

/// `rs` without the phrases whose comparison key repeats the key of an
/// earlier phrase.
pub open spec fn first_by_key(rs: Seq<Rule>) -> Seq<Rule>
    decreases rs.len(),
{
    if rs.len() == 0 {
        Seq::empty()
    } else {
        dedup_step(first_by_key(rs.drop_last()), rs.last())
    }
}

/// `d` extended by `r` unless a phrase of `d` has the same comparison key.
pub open spec fn dedup_step(d: Seq<Rule>, r: Rule) -> Seq<Rule> {
    if exists|i: int| 0 <= i < d.len() && fold_key(#[trigger] d[i].phrase) == fold_key(r.phrase) {
        d
    } else {
        d.push(r)
    }
}

/// The replacement rules of a (normalized) document: none when the document
/// is disabled; otherwise the first phrase of each comparison key among the
/// enabled entries, in document order.
pub open spec fn document_rules(d: DocumentModel) -> Seq<Rule> {
    if !d.enabled {
        Seq::empty()
    } else {
        first_by_key(enabled_rules(d.entries))
    }
}

/// What compiling a document gives: the replacement rules of its canonical
/// form, or why it is invalid, or the error of the first phrase whose
/// regular expression does not compile.
pub open spec fn compile_outcome(d: DocumentModel) -> Result<Seq<Rule>, ErrorModel> {
    match normalize_document(d) {
        Err(e) => Err(e),
        Ok(n) => match first_regex_error(document_rules(n)) {
            Some(m) => Err(ErrorModel::Regex { message: m }),
            None => Ok(document_rules(n)),
        },
    }
}

/// Phrases joined by `", "`.
pub open spec fn hint_join(hs: Seq<Seq<char>>) -> Seq<char>
    decreases hs.len(),
{
    if hs.len() == 0 {
        Seq::empty()
    } else if hs.len() == 1 {
        hs[0]
    } else {
        hint_join(hs.drop_last()) + ", "@ + hs.last()
    }
}

/// Length in UTF-8 bytes.
pub open spec fn byte_len(s: Seq<char>) -> nat {
    encode_utf8(s).len()
}

/// The longest prefix of `hs`, joined by `", "`, whose UTF-8 length stays
/// within `max` bytes, is the result `r`.
pub open spec fn is_hint_prefix(hs: Seq<Seq<char>>, max: nat, r: Seq<char>) -> bool {
    exists|k: int|
        #![trigger hs.take(k)]
        0 <= k <= hs.len() && r == hint_join(hs.take(k)) && byte_len(r) <= max && (k < hs.len()
            ==> byte_len(hint_join(hs.take(k + 1))) > max)
}

/// A dictionary ready to correct text.
pub struct CompiledDictionary {
    aliases: Vec<CompiledAlias>,
}

impl CompiledDictionary {
    pub closed spec fn rules(&self) -> Seq<Rule> {
        rules_of(self.aliases@)
    }

    #[verifier::type_invariant]
    spec fn wf(&self) -> bool {
        all_wf(self.aliases@)
    }

    /// The phrases in the order hints are given.
    pub open spec fn hints(&self) -> Seq<Seq<char>> {
        self.rules().map_values(|r: Rule| r.phrase)
    }

    /// A dictionary that changes nothing.
    pub fn empty() -> (r: Self)
        ensures
            r.rules() == Seq::<Rule>::empty(),
    {
        let r = CompiledDictionary { aliases: Vec::new() };
        assert(r.rules() =~= Seq::<Rule>::empty());
        r
    }
}


/// A phrase to compile and the canonical term it maps to.
struct PhraseRule {
    phrase: Vec<char>,
    term: Vec<char>,
}

impl PhraseRule {
    spec fn rule(&self) -> Rule {
        Rule { phrase: self.phrase@, term: self.term@ }
    }
}

spec fn phrase_rules(v: Seq<PhraseRule>) -> Seq<Rule> {
    v.map_values(|p: PhraseRule| p.rule())
}

/// Keys of the collected phrases, kept beside them.
spec fn keys_fit(keys: Seq<Vec<char>>, rules: Seq<PhraseRule>) -> bool {
    &&& keys.len() == rules.len()
    &&& forall|m: int| 0 <= m < keys.len() ==> #[trigger] keys[m]@ == fold_key(rules[m].phrase@)
}

fn add_phrase(
    rules: &mut Vec<PhraseRule>,
    keys: &mut Vec<Vec<char>>,
    phrase: &Vec<char>,
    term: &Vec<char>,
)
    requires
        keys_fit(old(keys)@, old(rules)@),
    ensures
        keys_fit(final(keys)@, final(rules)@),
        phrase_rules(final(rules)@) == dedup_step(
            phrase_rules(old(rules)@),
            Rule { phrase: phrase@, term: term@ },
        ),
{
    let key = comparison_key(phrase);
    let ghost rs = phrase_rules(rules@);
    match find_key(keys, &key) {
        Some(m) => {
            assert(fold_key(rs[m as int].phrase) == fold_key(phrase@));
        },
        None => {
            assert forall|i: int| 0 <= i < rs.len() implies fold_key(#[trigger] rs[i].phrase)
                != fold_key(phrase@) by {
                assert(keys@[i]@ == fold_key(rules@[i].phrase@));
            }
            rules.push(PhraseRule { phrase: phrase.clone(), term: term.clone() });
            keys.push(key);
            assert(phrase_rules(rules@) =~= rs.push(Rule { phrase: phrase@, term: term@ }));
        },
    }
}

fn find_key(keys: &Vec<Vec<char>>, key: &Vec<char>) -> (r: Option<usize>)
    ensures
        match r {
            Some(m) => m < keys@.len() && keys@[m as int]@ == key@,
            None => forall|m: int| 0 <= m < keys@.len() ==> keys@[m]@ != key@,
        },
{
    for m in 0..keys.len()
        invariant
            forall|q: int| 0 <= q < m ==> keys@[q]@ != key@,
    {
        if crate::text::chars_equal(&keys[m], key) {
            return Some(m);
        }
    }
    None
}

proof fn lemma_first_by_key_append(xs: Seq<Rule>, ys: Seq<Rule>, j: int)
    requires
        0 <= j < ys.len(),
    ensures
        first_by_key(xs + ys.take(j + 1)) == dedup_step(first_by_key(xs + ys.take(j)), ys[j]),
{
    assert((xs + ys.take(j + 1)).drop_last() =~= xs + ys.take(j));
    assert((xs + ys.take(j + 1)).last() == ys[j]);
}

/// The phrases of a document in priority order, each once by key.
fn collect_rules(document: &DictionaryDocument) -> (r: Vec<PhraseRule>)
    ensures
        phrase_rules(r@) == document_rules(document@),
{
    let mut rules: Vec<PhraseRule> = Vec::new();
    if !document.enabled {
        assert(phrase_rules(rules@) =~= Seq::<Rule>::empty());
        return rules;
    }
    let mut keys: Vec<Vec<char>> = Vec::new();
    let ghost es = document@.entries;
    assert(phrase_rules(rules@) =~= Seq::<Rule>::empty());
    assert(es.take(0) =~= Seq::<EntryModel>::empty());
    for i in 0..document.entries.len()
        invariant
            es == document@.entries,
            es.len() == document.entries@.len(),
            keys_fit(keys@, rules@),
            phrase_rules(rules@) == first_by_key(enabled_rules(es.take(i as int))),
    {
        let entry = &document.entries[i];
        let ghost e = es[i as int];
        assert(e == entry@);
        let ghost base = enabled_rules(es.take(i as int));
        assert(es.take(i + 1).drop_last() =~= es.take(i as int));
        assert(es.take(i + 1).last() == e);
        if entry.enabled {
            let term = chars_of(entry.term.as_str());
            let ghost er = entry_rules(e);
            assert(er.take(0) =~= Seq::<Rule>::empty());
            assert(base + er.take(0) =~= base);
            proof {
                lemma_first_by_key_append(base, er, 0);
            }
            assert(er[0] == (Rule { phrase: term@, term: term@ }));
            add_phrase(&mut rules, &mut keys, &term, &term);
            for j in 0..entry.aliases.len()
                invariant
                    er == entry_rules(e),
                    e == entry@,
                    term@ == e.term,
                    keys_fit(keys@, rules@),
                    phrase_rules(rules@) == first_by_key(base + er.take(j + 1)),
            {
                let alias = chars_of(entry.aliases[j].as_str());
                assert(er[j + 1] == (Rule { phrase: alias@, term: term@ }));
                proof {
                    lemma_first_by_key_append(base, er, j + 1);
                }
                add_phrase(&mut rules, &mut keys, &alias, &term);
            }
            assert(er.take(entry.aliases@.len() + 1 as int) =~= er);
        } else {
            assert(base + Seq::<Rule>::empty() =~= base);
        }
    }
    assert(es.take(es.len() as int) =~= es);
    rules
}

/// The error of the first phrase, in order, whose regular expression does
/// not compile.
pub open spec fn first_regex_error(rules: Seq<Rule>) -> Option<Seq<char>>
    decreases rules.len(),
{
    if rules.len() == 0 {
        None
    } else {
        match first_regex_error(rules.drop_last()) {
            Some(m) => Some(m),
            None => regex_error(phrase_pattern(rules.last().phrase)),
        }
    }
}

proof fn lemma_first_regex_error_prefix(rules: Seq<Rule>, k: int)
    requires
        0 <= k <= rules.len(),
        first_regex_error(rules.take(k)) is Some,
    ensures
        first_regex_error(rules) == first_regex_error(rules.take(k)),
    decreases rules.len() - k,
{
    if k < rules.len() {
        assert(rules.take(k + 1).drop_last() =~= rules.take(k));
        lemma_first_regex_error_prefix(rules, k + 1);
    } else {
        assert(rules.take(k) =~= rules);
    }
}

/// Compiles the regular expression of `phrase`.
fn compile_phrase(phrase: &Vec<char>, term: &Vec<char>) -> (r: Result<CompiledAlias, DictionaryError>)
    ensures
        match regex_error(phrase_pattern(phrase@)) {
            None => r matches Ok(a) && a.wf() && a.rule() == (Rule { phrase: phrase@, term: term@ }),
            Some(m) => r matches Err(e) && e@ == (ErrorModel::Regex { message: m }),
        },
{
    let pattern = pattern_of(phrase);
    match compile_regex(pattern.as_str()) {
        Ok(regex) => Ok(CompiledAlias { phrase: phrase.clone(), regex, canonical_term: string_of(term) }),
        Err(message) => Err(DictionaryError::Regex { message }),
    }
}

/// Compiles every phrase of `rules`, in order, stopping at the first that
/// does not compile.
fn compile_all(rules: &Vec<PhraseRule>) -> (r: Result<Vec<CompiledAlias>, DictionaryError>)
    ensures
        match first_regex_error(phrase_rules(rules@)) {
            None => r matches Ok(v) && all_wf(v@) && rules_of(v@) == phrase_rules(rules@),
            Some(m) => r matches Err(e) && e@ == (ErrorModel::Regex { message: m }),
        },
{
    let ghost rs = phrase_rules(rules@);
    let mut out: Vec<CompiledAlias> = Vec::new();
    assert(rs.take(0) =~= Seq::<Rule>::empty());
    for i in 0..rules.len()
        invariant
            rs == phrase_rules(rules@),
            first_regex_error(rs.take(i as int)) is None,
            all_wf(out@),
            rules_of(out@) == rs.take(i as int),
    {
        assert(rs.take(i + 1).drop_last() =~= rs.take(i as int));
        assert(rs.take(i + 1).last() == rs[i as int]);
        match compile_phrase(&rules[i].phrase, &rules[i].term) {
            Ok(a) => {
                let ghost prev = out@;
                out.push(a);
                assert(rules_of(out@) =~= rs.take(i + 1));
                assert forall|q: int| 0 <= q < out@.len() implies #[trigger] out@[q].wf() by {
                    if q < prev.len() {
                        assert(out@[q] == prev[q]);
                    }
                }
            },
            Err(e) => {
                proof {
                    lemma_first_regex_error_prefix(rs, i + 1);
                }
                return Err(e);
            },
        }
    }
    assert(rs.take(rs.len() as int) =~= rs);
    Ok(out)
}

impl CompiledDictionary {
    /// Compiles a document in canonical form: its phrases in priority order,
    /// or the error of the first whose regular expression does not compile.
    pub(crate) fn compile_normalized(document: &DictionaryDocument) -> (r: Result<Self, DictionaryError>)
        requires
            normalize_document(document@) == Ok::<DocumentModel, ErrorModel>(document@),
        ensures
            match first_regex_error(document_rules(document@)) {
                None => r matches Ok(c) && c.rules() == document_rules(document@),
                Some(m) => r matches Err(e) && e@ == (ErrorModel::Regex { message: m }),
            },
    {
        let rules = collect_rules(document);
        match compile_all(&rules) {
            Ok(aliases) => Ok(CompiledDictionary { aliases }),
            Err(e) => Err(e),
        }
    }

    /// Normalizes `document` and compiles it.
    pub fn compile(document: &DictionaryDocument) -> (r: Result<Self, DictionaryError>)
        ensures
            match compile_outcome(document@) {
                Ok(rules) => r matches Ok(c) && c.rules() == rules,
                Err(e) => r matches Err(err) && err@ == e,
            },
    {
        match document.normalized() {
            Ok(normalized) => {
                proof {
                    law_normalized_is_canonical(document@);
                }
                Self::compile_normalized(&normalized)
            },
            Err(e) => Err(e),
        }
    }

    /// `text` with the dictionary's phrases replaced by their canonical
    /// terms.
    pub fn apply(&self, text: &str) -> (r: String)
        ensures
            r@ == replace_all(self.rules(), text@),
    {
        proof {
            use_type_invariant(self);
        }
        replace_matches(&self.aliases, text)
    }

    /// The phrases joined by `", "`, as many as fit in `max_total_bytes`
    /// bytes of UTF-8.
    pub fn build_hints(&self, max_total_bytes: usize) -> (r: String)
        ensures
            is_hint_prefix(self.hints(), max_total_bytes as nat, r@),
            byte_len(r@) <= max_total_bytes,
    {
        let ghost hs = self.hints();
        let sep = chars_of(", ");
        let sep_bytes = utf8_byte_len(&sep);
        proof {
            reveal_strlit(", ");
        }
        let mut acc: Vec<char> = Vec::new();
        let mut bytes: u128 = 0;
        let mut i: usize = 0;
        assert(hs.take(0) =~= Seq::<Seq<char>>::empty());
        while i < self.aliases.len()
            invariant
                hs == self.hints(),
                hs.len() == self.aliases@.len(),
                sep@ == ", "@,
                sep_bytes as nat == byte_len(sep@),
                sep_bytes <= 8,
                i <= hs.len(),
                acc@ == hint_join(hs.take(i as int)),
                bytes as nat == byte_len(acc@),
                bytes <= max_total_bytes,
            decreases hs.len() - i,
        {
            let phrase = &self.aliases[i].phrase;
            assert(phrase@ == hs[i as int]);
            let phrase_bytes = utf8_byte_len(phrase);
            let plen = phrase.len();
            assert(phrase_bytes <= 4 * (plen as u128));
            let extra: u128 = if i > 0 { sep_bytes } else { 0 };
            let ghost next = hint_join(hs.take(i + 1));
            assert(hs.take(i + 1).drop_last() =~= hs.take(i as int));
            assert(hs.take(i + 1).last() == hs[i as int]);
            proof {
                if i > 0 {
                    lemma_encode_utf8_append(acc@, sep@);
                    lemma_encode_utf8_append(acc@ + sep@, phrase@);
                    assert(next == acc@ + sep@ + phrase@);
                } else {
                    assert(hs.take(1)[0] == hs[0]);
                    assert(next == phrase@);
                }
            }
            if bytes + extra + phrase_bytes > max_total_bytes as u128 {
                assert(byte_len(next) > max_total_bytes);
                let r = string_of(&acc);
                assert(hint_join(hs.take(i as int + 1)) == next);
                assert(is_hint_prefix(hs, max_total_bytes as nat, r@));
                return r;
            }
            if i > 0 {
                append_str(&mut acc, ", ");
            }
            append_chars(&mut acc, phrase);
            assert(acc@ =~= next);
            bytes = bytes + extra + phrase_bytes;
            i = i + 1;
        }
        let r = string_of(&acc);
        assert(r@ == hint_join(hs.take(hs.len() as int)));
        assert(is_hint_prefix(hs, max_total_bytes as nat, r@));
        r
    }
}


/// `Arc::clone`: another pointer to the same allocation, so the value seen
/// through it is the same.
#[verifier::external_body]
fn share_arc<T>(a: &Arc<T>) -> (r: Arc<T>)
    ensures
        r == *a,
{
    Arc::clone(a)
}

/// An immutable, cheaply shared compiled dictionary.
#[derive(Clone)]
pub struct DictionarySnapshot {
    compiled: Arc<CompiledDictionary>,
}

impl DictionarySnapshot {
    /// The replacement rules, in priority order of their phrases.
    pub closed spec fn rules(&self) -> Seq<Rule> {
        self.compiled.rules()
    }

    pub open spec fn hints(&self) -> Seq<Seq<char>> {
        self.rules().map_values(|r: Rule| r.phrase)
    }

    /// Normalizes `document` and compiles it.
    pub fn compile(document: &DictionaryDocument) -> (r: Result<Self, DictionaryError>)
        ensures
            match compile_outcome(document@) {
                Ok(rules) => r matches Ok(s) && s.rules() == rules,
                Err(e) => r matches Err(err) && err@ == e,
            },
    {
        match CompiledDictionary::compile(document) {
            Ok(c) => Ok(DictionarySnapshot { compiled: Arc::new(c) }),
            Err(e) => Err(e),
        }
    }

    /// Compiles a document that is already in canonical form.
    pub(crate) fn from_normalized(document: &DictionaryDocument) -> (r: Result<Self, DictionaryError>)
        requires
            normalize_document(document@) == Ok::<DocumentModel, ErrorModel>(document@),
        ensures
            match first_regex_error(document_rules(document@)) {
                None => r matches Ok(s) && s.rules() == document_rules(document@),
                Some(m) => r matches Err(e) && e@ == (ErrorModel::Regex { message: m }),
            },
    {
        match CompiledDictionary::compile_normalized(document) {
            Ok(c) => Ok(DictionarySnapshot { compiled: Arc::new(c) }),
            Err(e) => Err(e),
        }
    }

    /// A snapshot that leaves every text unchanged.
    pub fn disabled() -> (r: Self)
        ensures
            r.rules() == Seq::<Rule>::empty(),
    {
        DictionarySnapshot { compiled: Arc::new(CompiledDictionary::empty()) }
    }

    /// Another handle on the same compiled dictionary.
    pub fn share(&self) -> (r: Self)
        ensures
            r.rules() == self.rules(),
    {
        DictionarySnapshot { compiled: share_arc(&self.compiled) }
    }

    /// `text` with the dictionary's phrases replaced by their canonical
    /// terms.
    pub fn apply(&self, text: &str) -> (r: String)
        ensures
            r@ == replace_all(self.rules(), text@),
    {
        self.compiled.apply(text)
    }

    /// The phrases joined by `", "`, as many as fit in `max_total_bytes`
    /// bytes of UTF-8.
    pub fn build_hints(&self, max_total_bytes: usize) -> (r: String)
        ensures
            is_hint_prefix(self.hints(), max_total_bytes as nat, r@),
            byte_len(r@) <= max_total_bytes,
    {
        self.compiled.build_hints(max_total_bytes)
    }
}

} // verus!

verus! {

proof fn lemma_disabled_entries_no_rules(entries: Seq<EntryModel>)
    requires
        forall|i: int| 0 <= i < entries.len() ==> !(#[trigger] entries[i]).enabled,
    ensures
        enabled_rules(entries) == Seq::<Rule>::empty(),
    decreases entries.len(),
{
    if entries.len() > 0 {
        let d = entries.drop_last();
        assert forall|i: int| 0 <= i < d.len() implies !(#[trigger] d[i]).enabled by {
            assert(d[i] == entries[i]);
        }
        lemma_disabled_entries_no_rules(d);
        assert(!entries[entries.len() - 1].enabled);
        assert(enabled_rules(entries) =~= Seq::<Rule>::empty());
    }
}

/// A disabled dictionary, or one whose entries are all disabled, replaces
/// nothing and hints nothing.
pub proof fn law_disabled_dictionary_is_inert(d: DocumentModel, t: Seq<char>)
    requires
        !d.enabled || forall|i: int| 0 <= i < d.entries.len() ==> !(#[trigger] d.entries[i]).enabled,
    ensures
        document_rules(d) == Seq::<Rule>::empty(),
        replace_all(document_rules(d), t) == t,
{
    if d.enabled {
        lemma_disabled_entries_no_rules(d.entries);
        assert(first_by_key(Seq::<Rule>::empty()) =~= Seq::<Rule>::empty());
    }
    law_no_rules_keep_text(t);
}

} // verus!
