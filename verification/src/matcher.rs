//! Phrase matching and replacement: how the dictionary finds its phrases in
//! dictated text and which matches are replaced by canonical terms.
//!
//! Each phrase is searched with its regular expression (see
//! [`crate::pattern`]); only matches that are not glued to a word character
//! on either side count. Among all matches of all phrases, longer matches
//! (in UTF-8 bytes) win, then earlier ones, then those of earlier phrases; a
//! match is replaced only if it overlaps no match already chosen.

use crate::pattern::{
    char_boundary, find_matches, phrase_pattern, regex_matches, PhraseRegex,
};
use crate::unicode::{is_word_character, word_character};
use vstd::prelude::*;
use vstd::utf8::{encode_scalar, encode_utf8};

verus! {

/// The character index of the byte offset `b` of `t`.
pub open spec fn char_index(t: Seq<char>, b: int) -> int {
    choose|k: int| 0 <= k <= t.len() && encode_utf8(t.take(k)).len() == b
}

/// Byte ranges of `t` as character ranges.
pub open spec fn char_spans(t: Seq<char>, ms: Seq<(int, int)>) -> Seq<(int, int)> {
    ms.map_values(|m: (int, int)| (char_index(t, m.0), char_index(t, m.1)))
}

} // verus!

verus! {

/// A phrase and the canonical term that replaces it.
pub struct Rule {
    pub phrase: Seq<char>,
    pub term: Seq<char>,
}

/// A match of a rule's phrase: the character range `start..end` of the text
/// and the term that would replace it.
pub struct Hit {
    pub start: int,
    pub end: int,
    pub term: Seq<char>,
}

/// A match is kept only if no word character touches it on either side.
pub open spec fn boundary_ok(t: Seq<char>, s: int, e: int) -> bool {
    &&& (s <= 0 || !word_character(t[s - 1]))
    &&& (e >= t.len() || !word_character(t[e]))
}

/// The matches among `spans` that sit on word boundaries, as hits for
/// `term`.
pub open spec fn bounded_hits(spans: Seq<(int, int)>, t: Seq<char>, term: Seq<char>) -> Seq<Hit>
    decreases spans.len(),
{
    if spans.len() == 0 {
        Seq::empty()
    } else {
        let rest = bounded_hits(spans.drop_last(), t, term);
        let s = spans.last();
        if s.0 < s.1 && boundary_ok(t, s.0, s.1) {
            rest.push(Hit { start: s.0, end: s.1, term })
        } else {
            rest
        }
    }
}

/// The candidate replacements given the byte ranges found for each phrase
/// (`found[i]`, replaced by `terms[i]`), phrase by phrase in order.
pub open spec fn hits_for(found: Seq<Seq<(int, int)>>, terms: Seq<Seq<char>>, t: Seq<char>) -> Seq<Hit>
    decreases found.len(),
{
    if found.len() == 0 {
        Seq::empty()
    } else {
        hits_for(found.drop_last(), terms, t) + bounded_hits(
            char_spans(t, found.last()),
            t,
            terms[found.len() - 1],
        )
    }
}

/// What the regular expression of each rule's phrase finds in `t`.
pub open spec fn rule_matches(rules: Seq<Rule>, t: Seq<char>) -> Seq<Seq<(int, int)>> {
    rules.map_values(|r: Rule| regex_matches(phrase_pattern(r.phrase), t))
}

pub open spec fn rule_terms(rules: Seq<Rule>) -> Seq<Seq<char>> {
    rules.map_values(|r: Rule| r.term)
}

/// All candidate replacements, rule by rule in rule order.
pub open spec fn candidates(rules: Seq<Rule>, t: Seq<char>) -> Seq<Hit> {
    hits_for(rule_matches(rules, t), rule_terms(rules), t)
}

/// Length in UTF-8 bytes of the text a hit covers.
pub open spec fn span_bytes(t: Seq<char>, h: Hit) -> nat {
    encode_utf8(t.subrange(h.start, h.end)).len()
}

/// `a` is preferred over `b`: it covers more bytes, or as many bytes and
/// starts earlier.
pub open spec fn outranks(t: Seq<char>, a: Hit, b: Hit) -> bool {
    ||| span_bytes(t, a) > span_bytes(t, b)
    ||| span_bytes(t, a) == span_bytes(t, b) && a.start < b.start
}

/// Index of the preferred hit of `cs`; among equally preferred hits, the
/// first.
pub open spec fn best_index(cs: Seq<Hit>, t: Seq<char>) -> int
    decreases cs.len(),
{
    if cs.len() <= 1 {
        0
    } else {
        let b = best_index(cs.drop_last(), t);
        if outranks(t, cs.last(), cs[b]) {
            cs.len() - 1
        } else {
            b
        }
    }
}

pub proof fn lemma_best_index_bounds(cs: Seq<Hit>, t: Seq<char>)
    requires
        cs.len() > 0,
    ensures
        0 <= best_index(cs, t) < cs.len(),
    decreases cs.len(),
{
    if cs.len() > 1 {
        lemma_best_index_bounds(cs.drop_last(), t);
    }
}

pub open spec fn overlaps(a: Hit, b: Hit) -> bool {
    a.start < b.end && b.start < a.end
}

pub open spec fn overlaps_any(h: Hit, chosen: Seq<Hit>) -> bool {
    exists|i: int| 0 <= i < chosen.len() && overlaps(h, #[trigger] chosen[i])
}

/// Greedy choice: take hits in order of preference, keeping each one that
/// overlaps none kept before it.
pub open spec fn select(cs: Seq<Hit>, t: Seq<char>, chosen: Seq<Hit>) -> Seq<Hit>
    decreases cs.len(),
{
    if cs.len() == 0 {
        chosen
    } else {
        proof {
            lemma_best_index_bounds(cs, t);
        }
        let b = best_index(cs, t);
        let h = cs[b];
        select(
            cs.remove(b),
            t,
            if overlaps_any(h, chosen) {
                chosen
            } else {
                chosen.push(h)
            },
        )
    }
}

/// The first chosen hit that starts at `pos`.
pub open spec fn starting_at(chosen: Seq<Hit>, pos: int) -> Option<Hit>
    decreases chosen.len(),
{
    if chosen.len() == 0 {
        None
    } else {
        match starting_at(chosen.drop_last(), pos) {
            Some(h) => Some(h),
            None => if chosen.last().start == pos {
                Some(chosen.last())
            } else {
                None
            },
        }
    }
}

/// `t[pos..]` with each chosen hit replaced by its term.
pub open spec fn render(t: Seq<char>, chosen: Seq<Hit>, pos: int) -> Seq<char>
    decreases t.len() - pos,
{
    if pos < 0 || pos >= t.len() {
        Seq::empty()
    } else {
        match starting_at(chosen, pos) {
            Some(h) => if pos < h.end <= t.len() {
                h.term + render(t, chosen, h.end)
            } else {
                seq![t[pos]] + render(t, chosen, pos + 1)
            },
            None => seq![t[pos]] + render(t, chosen, pos + 1),
        }
    }
}

/// The hits that replacement uses for `t`.
pub open spec fn chosen_hits(rules: Seq<Rule>, t: Seq<char>) -> Seq<Hit> {
    select(candidates(rules, t), t, Seq::empty())
}

/// `t` after replacing the chosen matches of `rules` by their terms.
pub open spec fn replace_all(rules: Seq<Rule>, t: Seq<char>) -> Seq<char> {
    render(t, chosen_hits(rules, t), 0)
}

/// `t` after replacing the preferred non-overlapping candidates among the
/// byte ranges `found` (those of phrase `i` replaced by `terms[i]`).
pub open spec fn replacement(found: Seq<Seq<(int, int)>>, terms: Seq<Seq<char>>, t: Seq<char>) -> Seq<char> {
    render(t, select(hits_for(found, terms, t), t, Seq::empty()), 0)
}

pub proof fn lemma_encode_utf8_push(s: Seq<char>, c: char)
    ensures
        encode_utf8(s.push(c)) == encode_utf8(s) + encode_scalar(c as u32),
    decreases s.len(),
{
    if s.len() == 0 {
        assert(s.push(c).drop_first() =~= Seq::<char>::empty());
        assert(encode_utf8(Seq::<char>::empty()) =~= Seq::<u8>::empty());
        assert(encode_utf8(s.push(c)) =~= encode_scalar(c as u32));
    } else {
        lemma_encode_utf8_push(s.drop_first(), c);
        assert(s.push(c).drop_first() =~= s.drop_first().push(c));
        assert(encode_utf8(s.push(c)) =~= encode_scalar(s[0] as u32) + encode_utf8(
            s.drop_first(),
        ) + encode_scalar(c as u32));
    }
}

/// UTF-8 length is additive.
pub proof fn lemma_encode_utf8_append(a: Seq<char>, b: Seq<char>)
    ensures
        encode_utf8(a + b) == encode_utf8(a) + encode_utf8(b),
    decreases b.len(),
{
    if b.len() == 0 {
        assert(a + b =~= a);
        assert(encode_utf8(b) =~= Seq::<u8>::empty());
        assert(encode_utf8(a) + encode_utf8(b) =~= encode_utf8(a));
    } else {
        lemma_encode_utf8_append(a, b.drop_last());
        assert(a + b =~= (a + b.drop_last()).push(b.last()));
        assert(b =~= b.drop_last().push(b.last()));
        lemma_encode_utf8_push(a + b.drop_last(), b.last());
        lemma_encode_utf8_push(b.drop_last(), b.last());
        assert(encode_utf8(a + b) =~= encode_utf8(a) + encode_utf8(b));
    }
}

/// Number of UTF-8 bytes of `cs`.
pub fn utf8_byte_len(cs: &Vec<char>) -> (r: u128)
    ensures
        r as nat == encode_utf8(cs@).len(),
        r <= 4 * cs@.len(),
{
    let r = span_byte_count(cs, 0, cs.len());
    assert(cs@.subrange(0, cs@.len() as int) =~= cs@);
    r
}

/// Number of bytes in the UTF-8 encoding of `c`.
fn utf8_width(c: char) -> (r: usize)
    ensures
        r == encode_scalar(c as u32).len(),
        r <= 4,
{
    let u = c as u32;
    if u <= 0x7f {
        1
    } else if u <= 0x7ff {
        2
    } else if u <= 0xffff && !(0xd800 <= u && u <= 0xdfff) {
        3
    } else {
        4
    }
}

/// A candidate during execution: its range, the rule it belongs to and the
/// number of bytes it covers.
#[derive(Clone, Copy)]
pub struct Candidate {
    pub start: usize,
    pub end: usize,
    pub rule: usize,
    pub bytes: u128,
}

pub open spec fn hit_of(c: Candidate, rules: Seq<Rule>) -> Hit {
    Hit { start: c.start as int, end: c.end as int, term: rules[c.rule as int].term }
}

pub open spec fn hits_of(cs: Seq<Candidate>, rules: Seq<Rule>) -> Seq<Hit> {
    cs.map_values(|c: Candidate| hit_of(c, rules))
}

/// Candidates whose ranges lie in `t`, whose rule exists and whose byte
/// count is exact.
pub open spec fn candidates_ok(cs: Seq<Candidate>, rules: Seq<Rule>, t: Seq<char>) -> bool {
    forall|i: int|
        0 <= i < cs.len() ==> {
            let c = #[trigger] cs[i];
            &&& c.start < c.end <= t.len()
            &&& c.rule < rules.len()
            &&& c.bytes as nat == span_bytes(t, hit_of(c, rules))
        }
}

fn span_byte_count(t: &Vec<char>, s: usize, e: usize) -> (r: u128)
    requires
        s <= e <= t@.len(),
    ensures
        r as nat == encode_utf8(t@.subrange(s as int, e as int)).len(),
        r <= 4 * (e - s),
{
    let mut total: u128 = 0;
    let mut i = s;
    assert(t@.subrange(s as int, s as int) =~= Seq::<char>::empty());
    while i < e
        invariant
            s <= i <= e <= t@.len(),
            total as nat == encode_utf8(t@.subrange(s as int, i as int)).len(),
            total <= 4 * (i - s),
        decreases e - i,
    {
        proof {
            lemma_encode_utf8_push(t@.subrange(s as int, i as int), t@[i as int]);
            assert(t@.subrange(s as int, i + 1) =~= t@.subrange(s as int, i as int).push(
                t@[i as int],
            ));
        }
        total = total + utf8_width(t[i]) as u128;
        i = i + 1;
    }
    total
}

} // verus!

verus! {

/// A phrase ready for matching: its characters, its compiled regular
/// expression, and the canonical term it maps to.
pub struct CompiledAlias {
    pub phrase: Vec<char>,
    pub regex: PhraseRegex,
    pub canonical_term: String,
}

impl CompiledAlias {
    pub open spec fn rule(&self) -> Rule {
        Rule { phrase: self.phrase@, term: self.canonical_term@ }
    }

    pub open spec fn wf(&self) -> bool {
        self.regex.pattern_view() == phrase_pattern(self.phrase@)
    }
}

pub open spec fn rules_of(aliases: Seq<CompiledAlias>) -> Seq<Rule> {
    aliases.map_values(|a: CompiledAlias| a.rule())
}

pub open spec fn all_wf(aliases: Seq<CompiledAlias>) -> bool {
    forall|i: int| 0 <= i < aliases.len() ==> #[trigger] aliases[i].wf()
}

proof fn lemma_encode_nonempty(s: Seq<char>)
    requires
        s.len() > 0,
    ensures
        encode_utf8(s).len() > 0,
{
    lemma_encode_utf8_push(s.drop_last(), s.last());
    assert(s.drop_last().push(s.last()) =~= s);
    let u = s.last() as u32;
    assert(encode_scalar(u).len() > 0);
}

/// UTF-8 lengths of the prefixes of `t` grow strictly.
proof fn lemma_prefix_bytes_grow(t: Seq<char>, i: int, j: int)
    requires
        0 <= i < j <= t.len(),
    ensures
        encode_utf8(t.take(i)).len() < encode_utf8(t.take(j)).len(),
{
    lemma_encode_utf8_append(t.take(i), t.subrange(i, j));
    assert(t.take(i) + t.subrange(i, j) =~= t.take(j));
    lemma_encode_nonempty(t.subrange(i, j));
}

/// The prefix with `b` bytes of UTF-8 is the one [`char_index`] names.
proof fn lemma_char_index_unique(t: Seq<char>, b: int, k: int)
    requires
        0 <= k <= t.len(),
        encode_utf8(t.take(k)).len() == b,
    ensures
        char_index(t, b) == k,
{
    let c = char_index(t, b);
    assert(0 <= c <= t.len() && encode_utf8(t.take(c)).len() == b);
    if c < k {
        lemma_prefix_bytes_grow(t, c, k);
    } else if k < c {
        lemma_prefix_bytes_grow(t, k, c);
    }
}

/// `r[k]` is the number of UTF-8 bytes of the first `k` characters of `t`.
fn prefix_bytes(t: &Vec<char>) -> (r: Vec<u128>)
    ensures
        r@.len() == t@.len() + 1,
        forall|k: int| 0 <= k <= t@.len() ==> #[trigger] r@[k] as nat == encode_utf8(t@.take(k)).len(),
{
    let mut r: Vec<u128> = Vec::new();
    let mut total: u128 = 0;
    r.push(0);
    assert(encode_utf8(t@.take(0)) =~= Seq::<u8>::empty()) by {
        assert(t@.take(0) =~= Seq::<char>::empty());
    }
    for i in 0..t.len()
        invariant
            r@.len() == i + 1,
            total as nat == encode_utf8(t@.take(i as int)).len(),
            total <= 4 * i,
            forall|k: int| 0 <= k <= i ==> #[trigger] r@[k] as nat == encode_utf8(t@.take(k)).len(),
    {
        proof {
            lemma_encode_utf8_push(t@.take(i as int), t@[i as int]);
            assert(t@.take(i + 1) =~= t@.take(i as int).push(t@[i as int]));
        }
        total = total + utf8_width(t[i]) as u128;
        r.push(total);
    }
    r
}

/// The character index at which `b` bytes of `t` end.
fn char_at(pre: &Vec<u128>, b: usize, Ghost(t): Ghost<Seq<char>>) -> (r: usize)
    requires
        pre@.len() == t.len() + 1,
        forall|k: int| 0 <= k <= t.len() ==> #[trigger] pre@[k] as nat == encode_utf8(t.take(k)).len(),
        char_boundary(t, b as int),
    ensures
        r <= t.len(),
        r as int == char_index(t, b as int),
{
    let ghost w = choose|k: int| 0 <= k <= t.len() && encode_utf8(t.take(k)).len() == b;
    let mut k: usize = 0;
    while k < pre.len()
        invariant
            pre@.len() == t.len() + 1,
            forall|q: int| 0 <= q <= t.len() ==> #[trigger] pre@[q] as nat == encode_utf8(t.take(q)).len(),
            0 <= w <= t.len(),
            encode_utf8(t.take(w)).len() == b,
            k <= w,
        decreases pre@.len() - k,
    {
        if pre[k] == b as u128 {
            proof {
                lemma_char_index_unique(t, b as int, k as int);
            }
            return k;
        }
        assert(pre@[k as int] as nat == encode_utf8(t.take(k as int)).len());
        assert(k != w);
        k = k + 1;
    }
    proof {
        assert(pre@[w] as nat == b);
    }
    0
}

fn has_unicode_word_boundaries(t: &Vec<char>, s: usize, e: usize) -> (r: bool)
    requires
        s < e <= t@.len(),
    ensures
        r == boundary_ok(t@, s as int, e as int),
{
    let left = s == 0 || !is_word_character(t[s - 1]);
    let right = e == t.len() || !is_word_character(t[e]);
    left && right
}

/// The byte ranges as integers.
pub open spec fn found_view(found: Seq<Vec<(usize, usize)>>) -> Seq<Seq<(int, int)>> {
    found.map_values(|v: Vec<(usize, usize)>| v@.map_values(|m: (usize, usize)| (m.0 as int, m.1 as int)))
}

/// Each found range lies on character boundaries of `t`.
pub open spec fn found_on_boundaries(found: Seq<Vec<(usize, usize)>>, t: Seq<char>) -> bool {
    forall|i: int, j: int|
        0 <= i < found.len() && 0 <= j < found[i]@.len() ==> char_boundary(t, (#[trigger] found[i]@[j]).0 as int)
            && char_boundary(t, found[i]@[j].1 as int)
}

/// The terms of `rules` as a rule list that only carries them.
spec fn term_rules(terms: Seq<Seq<char>>) -> Seq<Rule> {
    Seq::new(terms.len(), |i: int| Rule { phrase: Seq::empty(), term: terms[i] })
}

/// All candidate replacements among the ranges `found` of `t`.
fn collect_candidates(found: &Vec<Vec<(usize, usize)>>, t: &Vec<char>, Ghost(rs): Ghost<Seq<Rule>>) -> (r: Vec<Candidate>)
    requires
        found@.len() == rs.len(),
        found_on_boundaries(found@, t@),
    ensures
        hits_of(r@, rs) == hits_for(found_view(found@), rule_terms(rs), t@),
        candidates_ok(r@, rs, t@),
{
    let ghost fv = found_view(found@);
    let ghost tv = rule_terms(rs);
    let pre = prefix_bytes(t);
    let mut out: Vec<Candidate> = Vec::new();
    for i in 0..found.len()
        invariant
            fv == found_view(found@),
            tv == rule_terms(rs),
            found@.len() == rs.len(),
            found_on_boundaries(found@, t@),
            pre@.len() == t@.len() + 1,
            forall|k: int| 0 <= k <= t@.len() ==> #[trigger] pre@[k] as nat == encode_utf8(t@.take(k)).len(),
            hits_of(out@, rs) == hits_for(fv.take(i as int), tv, t@),
            candidates_ok(out@, rs, t@),
            forall|m: int| 0 <= m < out@.len() ==> (#[trigger] out@[m]).rule < i,
    {
        let spans = &found[i];
        let ghost bv = spans@.map_values(|m: (usize, usize)| (m.0 as int, m.1 as int));
        let ghost sv = char_spans(t@, bv);
        assert(fv[i as int] == bv);
        let ghost before = hits_of(out@, rs);
        let ghost term = rs[i as int].term;
        assert(tv[i as int] == term);
        for j in 0..spans.len()
            invariant
                i < rs.len(),
                found@.len() == rs.len(),
                spans == &found@[i as int],
                found_on_boundaries(found@, t@),
                pre@.len() == t@.len() + 1,
                forall|k: int| 0 <= k <= t@.len() ==> #[trigger] pre@[k] as nat == encode_utf8(t@.take(k)).len(),
                bv == spans@.map_values(|m: (usize, usize)| (m.0 as int, m.1 as int)),
                sv == char_spans(t@, bv),
                term == rs[i as int].term,
                hits_of(out@, rs) == before + bounded_hits(sv.take(j as int), t@, term),
                candidates_ok(out@, rs, t@),
                forall|m: int| 0 <= m < out@.len() ==> (#[trigger] out@[m]).rule <= i,
        {
            let (sb, eb) = spans[j];
            assert(found@[i as int]@[j as int] == (sb, eb));
            let s = char_at(&pre, sb, Ghost(t@));
            let e = char_at(&pre, eb, Ghost(t@));
            assert(bv[j as int] == (sb as int, eb as int));
            assert(sv[j as int] == (s as int, e as int));
            assert(sv.take(j + 1).drop_last() == sv.take(j as int));
            assert(sv.take(j + 1).last() == sv[j as int]);
            if s < e && has_unicode_word_boundaries(t, s, e) {
                let bytes = span_byte_count(t, s, e);
                let c = Candidate { start: s, end: e, rule: i, bytes };
                let ghost prev = out@;
                out.push(c);
                assert(hits_of(out@, rs) =~= hits_of(prev, rs).push(hit_of(c, rs)));
            } else {
                assert(hits_of(out@, rs) == before + bounded_hits(sv.take(j + 1), t@, term));
            }
        }
        assert(sv.take(sv.len() as int) == sv);
        assert(fv.take(i + 1).drop_last() == fv.take(i as int));
        assert(fv.take(i + 1).last() == fv[i as int]);
    }
    assert(fv.take(fv.len() as int) == fv);
    out
}

/// What the regular expression of each alias finds in `text`.
fn find_all_matches(aliases: &Vec<CompiledAlias>, text: &str) -> (r: Vec<Vec<(usize, usize)>>)
    requires
        all_wf(aliases@),
    ensures
        r@.len() == aliases@.len(),
        found_view(r@) == rule_matches(rules_of(aliases@), text@),
        found_on_boundaries(r@, text@),
{
    let ghost rs = rules_of(aliases@);
    let mut out: Vec<Vec<(usize, usize)>> = Vec::new();
    for i in 0..aliases.len()
        invariant
            rs == rules_of(aliases@),
            all_wf(aliases@),
            out@.len() == i,
            forall|k: int| 0 <= k < i ==> #[trigger] found_view(out@)[k] == rule_matches(rs, text@)[k],
            found_on_boundaries(out@, text@),
    {
        assert(aliases@[i as int].wf());
        let found = find_matches(&aliases[i].regex, text);
        let ghost prev = out@;
        out.push(found);
        assert forall|k: int| 0 <= k <= i implies #[trigger] found_view(out@)[k] == rule_matches(rs, text@)[k] by {
            if k < i {
                assert(out@[k] == prev[k]);
                assert(found_view(out@)[k] == found_view(prev)[k]);
            }
        }
        assert forall|a: int, b: int|
            0 <= a < out@.len() && 0 <= b < out@[a]@.len() implies char_boundary(text@, (#[trigger] out@[a]@[b]).0 as int)
            && char_boundary(text@, out@[a]@[b].1 as int) by {
            if a < i {
                assert(out@[a] == prev[a]);
            }
        }
    }
    assert(found_view(out@) =~= rule_matches(rs, text@));
    out
}

} // verus!

verus! {

fn outranks_exec(a: &Candidate, b: &Candidate, Ghost(rules): Ghost<Seq<Rule>>, Ghost(t): Ghost<Seq<char>>) -> (r: bool)
    requires
        a.bytes as nat == span_bytes(t, hit_of(*a, rules)),
        b.bytes as nat == span_bytes(t, hit_of(*b, rules)),
    ensures
        r == outranks(t, hit_of(*a, rules), hit_of(*b, rules)),
{
    a.bytes > b.bytes || (a.bytes == b.bytes && a.start < b.start)
}

fn best_candidate(cs: &Vec<Candidate>, Ghost(rules): Ghost<Seq<Rule>>, Ghost(t): Ghost<Seq<char>>) -> (r: usize)
    requires
        cs@.len() > 0,
        candidates_ok(cs@, rules, t),
    ensures
        r as int == best_index(hits_of(cs@, rules), t),
        r < cs@.len(),
{
    let ghost hs = hits_of(cs@, rules);
    let mut b: usize = 0;
    assert(hs.take(1).len() == 1);
    for i in 1..cs.len()
        invariant
            hs == hits_of(cs@, rules),
            candidates_ok(cs@, rules, t),
            b < i <= cs@.len(),
            b as int == best_index(hs.take(i as int), t),
    {
        assert(hs.take(i + 1).drop_last() == hs.take(i as int));
        assert(hs.take(i + 1).last() == hs[i as int]);
        assert(hs.take(i as int)[b as int] == hs[b as int]);
        if outranks_exec(&cs[i], &cs[b], Ghost(rules), Ghost(t)) {
            b = i;
        }
    }
    assert(hs.take(cs@.len() as int) == hs);
    b
}

fn overlaps_chosen(h: &Candidate, chosen: &Vec<Candidate>, Ghost(rules): Ghost<Seq<Rule>>) -> (r: bool)
    ensures
        r == overlaps_any(hit_of(*h, rules), hits_of(chosen@, rules)),
{
    let ghost hs = hits_of(chosen@, rules);
    for i in 0..chosen.len()
        invariant
            hs == hits_of(chosen@, rules),
            forall|j: int| 0 <= j < i ==> !overlaps(hit_of(*h, rules), #[trigger] hs[j]),
    {
        if h.start < chosen[i].end && chosen[i].start < h.end {
            assert(overlaps(hit_of(*h, rules), hs[i as int]));
            return true;
        }
    }
    false
}

/// The greedy choice among candidates, as [`select`] describes it.
fn choose_candidates(cands: Vec<Candidate>, Ghost(rules): Ghost<Seq<Rule>>, Ghost(t): Ghost<Seq<char>>) -> (r: Vec<Candidate>)
    requires
        candidates_ok(cands@, rules, t),
    ensures
        hits_of(r@, rules) == select(hits_of(cands@, rules), t, Seq::empty()),
        candidates_ok(r@, rules, t),
{
    let mut remaining = cands;
    let mut chosen: Vec<Candidate> = Vec::new();
    assert(hits_of(chosen@, rules) =~= Seq::<Hit>::empty());
    while remaining.len() > 0
        invariant
            candidates_ok(remaining@, rules, t),
            candidates_ok(chosen@, rules, t),
            select(hits_of(cands@, rules), t, Seq::empty()) == select(
                hits_of(remaining@, rules),
                t,
                hits_of(chosen@, rules),
            ),
        decreases remaining@.len(),
    {
        let ghost rem = remaining@;
        let b = best_candidate(&remaining, Ghost(rules), Ghost(t));
        let h = remaining.remove(b);
        assert(hits_of(remaining@, rules) =~= hits_of(rem, rules).remove(b as int));
        assert(hits_of(rem, rules)[b as int] == hit_of(h, rules));
        assert(rem[b as int] == h);
        if !overlaps_chosen(&h, &chosen, Ghost(rules)) {
            let ghost prev = chosen@;
            chosen.push(h);
            assert(hits_of(chosen@, rules) =~= hits_of(prev, rules).push(hit_of(h, rules)));
        }
        assert forall|i: int| 0 <= i < remaining@.len() implies {
            let c = #[trigger] remaining@[i];
            &&& c.start < c.end <= t.len()
            &&& c.rule < rules.len()
            &&& c.bytes as nat == span_bytes(t, hit_of(c, rules))
        } by {
            if i < b {
                assert(remaining@[i] == rem[i]);
            } else {
                assert(remaining@[i] == rem[i + 1]);
            }
        }
    }
    chosen
}

proof fn lemma_starting_at_prefix(cs: Seq<Hit>, n: int, pos: int)
    requires
        0 <= n <= cs.len(),
        starting_at(cs.take(n), pos) is Some,
    ensures
        starting_at(cs, pos) == starting_at(cs.take(n), pos),
    decreases cs.len() - n,
{
    if n < cs.len() {
        assert(cs.take(n + 1).drop_last() == cs.take(n));
        lemma_starting_at_prefix(cs, n + 1, pos);
    } else {
        assert(cs.take(n) == cs);
    }
}

/// The first chosen candidate starting at `pos`.
fn find_start(chosen: &Vec<Candidate>, pos: usize, Ghost(rules): Ghost<Seq<Rule>>) -> (r: Option<usize>)
    ensures
        match r {
            Some(j) => j < chosen@.len() && chosen@[j as int].start == pos && starting_at(hits_of(chosen@, rules), pos as int) == Some(
                hit_of(chosen@[j as int], rules),
            ),
            None => starting_at(hits_of(chosen@, rules), pos as int) is None,
        },
{
    let ghost hs = hits_of(chosen@, rules);
    for j in 0..chosen.len()
        invariant
            hs == hits_of(chosen@, rules),
            starting_at(hs.take(j as int), pos as int) is None,
    {
        assert(hs.take(j + 1).drop_last() == hs.take(j as int));
        if chosen[j].start == pos {
            assert(hs.take(j + 1).last() == hit_of(chosen@[j as int], rules));
            proof {
                lemma_starting_at_prefix(hs, j + 1, pos as int);
            }
            return Some(j);
        }
    }
    assert(hs.take(chosen@.len() as int) == hs);
    None
}

/// `t` with the chosen candidates replaced by the terms of their rules.
fn render_chosen(t: &Vec<char>, chosen: &Vec<Candidate>, terms: &Vec<String>, Ghost(rules): Ghost<Seq<Rule>>) -> (r: Vec<char>)
    requires
        candidates_ok(chosen@, rules, t@),
        terms@.len() == rules.len(),
        forall|i: int| 0 <= i < rules.len() ==> #[trigger] terms@[i]@ == rules[i].term,
    ensures
        r@ == render(t@, hits_of(chosen@, rules), 0),
{
    let ghost hs = hits_of(chosen@, rules);
    let mut out: Vec<char> = Vec::new();
    let mut pos: usize = 0;
    while pos < t.len()
        invariant
            terms@.len() == rules.len(),
            forall|i: int| 0 <= i < rules.len() ==> #[trigger] terms@[i]@ == rules[i].term,
            hs == hits_of(chosen@, rules),
            candidates_ok(chosen@, rules, t@),
            pos <= t@.len(),
            render(t@, hs, 0) == out@ + render(t@, hs, pos as int),
        decreases t@.len() - pos,
    {
        let ghost before = out@;
        match find_start(chosen, pos, Ghost(rules)) {
            Some(j) => {
                let c = chosen[j];
                assert(chosen@[j as int] == c);
                assert(c.start < c.end <= t@.len());
                assert(c.rule < rules.len());
                assert(hit_of(c, rules).end == c.end as int);
                let term = chars_of_string(&terms[c.rule]);
                assert(term@ == rules[c.rule as int].term);
                crate::text::append_chars(&mut out, &term);
                assert(before + (term@ + render(t@, hs, c.end as int)) =~= out@ + render(
                    t@,
                    hs,
                    c.end as int,
                ));
                pos = c.end;
            },
            None => {
                out.push(t[pos]);
                assert(before + (seq![t@[pos as int]] + render(t@, hs, pos + 1)) =~= out@ + render(
                    t@,
                    hs,
                    pos + 1,
                ));
                pos = pos + 1;
            },
        }
    }
    assert(render(t@, hs, pos as int) =~= Seq::<char>::empty());
    assert(out@ + Seq::<char>::empty() =~= out@);
    out
}

fn chars_of_string(s: &String) -> (r: Vec<char>)
    ensures
        r@ == s@,
{
    crate::text::chars_of(s.as_str())
}

/// `text` with the preferred non-overlapping candidates among `found`
/// replaced: `found[i]` are the byte ranges where phrase `i` was found,
/// `terms[i]` what replaces it (see [`replacement`]).
pub fn replace_found(text: &str, found: &Vec<Vec<(usize, usize)>>, terms: &Vec<String>) -> (r: String)
    requires
        found@.len() == terms@.len(),
        found_on_boundaries(found@, text@),
    ensures
        r@ == replacement(found_view(found@), terms@.map_values(|s: String| s@), text@),
{
    let ghost tv = terms@.map_values(|s: String| s@);
    let ghost rs = term_rules(tv);
    assert(rule_terms(rs) =~= tv);
    let t = crate::text::chars_of(text);
    let cands = collect_candidates(found, &t, Ghost(rs));
    let chosen = choose_candidates(cands, Ghost(rs), Ghost(t@));
    crate::text::string_of(&render_chosen(&t, &chosen, terms, Ghost(rs)))
}

/// The canonical terms of `aliases`, in order.
fn terms_of(aliases: &Vec<CompiledAlias>) -> (r: Vec<String>)
    ensures
        r@.len() == aliases@.len(),
        r@.map_values(|s: String| s@) == rule_terms(rules_of(aliases@)),
{
    let mut out: Vec<String> = Vec::new();
    for i in 0..aliases.len()
        invariant
            out@.len() == i,
            forall|k: int| 0 <= k < i ==> (#[trigger] out@[k])@ == aliases@[k].canonical_term@,
    {
        out.push(aliases[i].canonical_term.clone());
    }
    assert(out@.map_values(|s: String| s@) =~= rule_terms(rules_of(aliases@)));
    out
}

/// `text` with the preferred non-overlapping matches of `aliases` replaced by
/// their canonical terms (see [`replace_all`]).
pub fn replace_matches(aliases: &Vec<CompiledAlias>, text: &str) -> (r: String)
    requires
        all_wf(aliases@),
    ensures
        r@ == replace_all(rules_of(aliases@), text@),
{
    let found = find_all_matches(aliases, text);
    let terms = terms_of(aliases);
    replace_found(text, &found, &terms)
}

} // verus!

verus! {

/// No two hits of `hs` overlap.
pub open spec fn disjoint_hits(hs: Seq<Hit>) -> bool {
    forall|i: int, j: int| 0 <= i < j < hs.len() ==> !overlaps(#[trigger] hs[i], #[trigger] hs[j])
}

/// `h` overlaps a hit of `chosen` that `h` does not outrank.
pub open spec fn covered(t: Seq<char>, h: Hit, chosen: Seq<Hit>) -> bool {
    exists|i: int| 0 <= i < chosen.len() && overlaps(h, #[trigger] chosen[i]) && !outranks(t, h, chosen[i])
}

proof fn lemma_render_nothing(t: Seq<char>, pos: int)
    requires
        0 <= pos <= t.len(),
    ensures
        render(t, Seq::empty(), pos) == t.subrange(pos, t.len() as int),
    decreases t.len() - pos,
{
    if pos < t.len() {
        lemma_render_nothing(t, pos + 1);
        assert(seq![t[pos]] + t.subrange(pos + 1, t.len() as int) =~= t.subrange(pos, t.len() as int));
    } else {
        assert(t.subrange(pos, t.len() as int) =~= Seq::<char>::empty());
    }
}

/// Without rules, replacement leaves every text as it is.
pub proof fn law_no_rules_keep_text(t: Seq<char>)
    ensures
        replace_all(Seq::empty(), t) == t,
{
    assert(candidates(Seq::empty(), t) =~= Seq::<Hit>::empty());
    assert(chosen_hits(Seq::empty(), t) =~= Seq::<Hit>::empty());
    lemma_render_nothing(t, 0);
    assert(t.subrange(0, t.len() as int) =~= t);
}

proof fn lemma_bounded_hits_nonempty(spans: Seq<(int, int)>, t: Seq<char>, term: Seq<char>)
    ensures
        forall|i: int|
            0 <= i < bounded_hits(spans, t, term).len() ==> (#[trigger] bounded_hits(spans, t, term)[i]).start
                < bounded_hits(spans, t, term)[i].end,
    decreases spans.len(),
{
    if spans.len() > 0 {
        let d = spans.drop_last();
        lemma_bounded_hits_nonempty(d, t, term);
        let rest = bounded_hits(d, t, term);
        let last = spans.last();
        assert(last == spans[spans.len() - 1]);
        if last.0 < last.1 && boundary_ok(t, last.0, last.1) {
            let hs = rest.push(Hit { start: last.0, end: last.1, term });
            assert forall|i: int| 0 <= i < hs.len() implies (#[trigger] hs[i]).start < hs[i].end by {
                if i < rest.len() {
                    assert(hs[i] == rest[i]);
                }
            }
        }
    }
}

proof fn lemma_hits_for_nonempty(found: Seq<Seq<(int, int)>>, terms: Seq<Seq<char>>, t: Seq<char>)
    ensures
        forall|i: int|
            0 <= i < hits_for(found, terms, t).len() ==> (#[trigger] hits_for(found, terms, t)[i]).start
                < hits_for(found, terms, t)[i].end,
    decreases found.len(),
{
    if found.len() > 0 {
        lemma_hits_for_nonempty(found.drop_last(), terms, t);
        let term = terms[found.len() - 1];
        lemma_bounded_hits_nonempty(char_spans(t, found.last()), t, term);
        let a = hits_for(found.drop_last(), terms, t);
        let b = bounded_hits(char_spans(t, found.last()), t, term);
        assert forall|i: int| 0 <= i < (a + b).len() implies (#[trigger] (a + b)[i]).start < (a
            + b)[i].end by {
            if i >= a.len() {
                assert((a + b)[i] == b[i - a.len()]);
            } else {
                assert((a + b)[i] == a[i]);
            }
        }
    }
}

proof fn lemma_candidates_nonempty(rules: Seq<Rule>, t: Seq<char>)
    ensures
        forall|i: int|
            0 <= i < candidates(rules, t).len() ==> (#[trigger] candidates(rules, t)[i]).start
                < candidates(rules, t)[i].end,
{
    lemma_hits_for_nonempty(rule_matches(rules, t), rule_terms(rules), t);
}

proof fn lemma_outranks_transitive(t: Seq<char>, a: Hit, b: Hit, c: Hit)
    requires
        outranks(t, a, b),
        outranks(t, b, c),
    ensures
        outranks(t, a, c),
{
}

proof fn lemma_best_index_is_best(cs: Seq<Hit>, t: Seq<char>)
    requires
        cs.len() > 0,
    ensures
        forall|i: int| 0 <= i < cs.len() ==> !outranks(t, #[trigger] cs[i], cs[best_index(cs, t)]),
    decreases cs.len(),
{
    lemma_best_index_bounds(cs, t);
    if cs.len() > 1 {
        let d = cs.drop_last();
        lemma_best_index_is_best(d, t);
        lemma_best_index_bounds(d, t);
        let b = best_index(d, t);
        assert(d[b] == cs[b]);
        if outranks(t, cs.last(), cs[b]) {
            assert forall|i: int| 0 <= i < cs.len() implies !outranks(t, #[trigger] cs[i], cs[cs.len() - 1]) by {
                if i < cs.len() - 1 {
                    assert(d[i] == cs[i]);
                    if outranks(t, cs[i], cs.last()) {
                        lemma_outranks_transitive(t, cs[i], cs.last(), cs[b]);
                    }
                }
            }
        } else {
            assert forall|i: int| 0 <= i < cs.len() implies !outranks(t, #[trigger] cs[i], cs[b]) by {
                if i < cs.len() - 1 {
                    assert(d[i] == cs[i]);
                }
            }
        }
    }
}

/// The greedy choice keeps what was chosen before, keeps its hits apart,
/// takes only hits it was given, and covers every hit it was given by a
/// chosen hit that is at least as preferred.
proof fn lemma_select(cs: Seq<Hit>, t: Seq<char>, chosen: Seq<Hit>)
    requires
        disjoint_hits(chosen),
        forall|i: int, j: int|
            0 <= i < cs.len() && 0 <= j < chosen.len() ==> !outranks(t, #[trigger] cs[i], #[trigger] chosen[j]),
        forall|i: int| 0 <= i < cs.len() ==> (#[trigger] cs[i]).start < cs[i].end,
    ensures
        chosen.len() <= select(cs, t, chosen).len(),
        forall|i: int| 0 <= i < chosen.len() ==> #[trigger] select(cs, t, chosen)[i] == chosen[i],
        disjoint_hits(select(cs, t, chosen)),
        forall|i: int|
            0 <= i < select(cs, t, chosen).len() ==> chosen.contains(#[trigger] select(cs, t, chosen)[i])
                || cs.contains(select(cs, t, chosen)[i]),
        forall|i: int| 0 <= i < cs.len() ==> covered(t, #[trigger] cs[i], select(cs, t, chosen)),
    decreases cs.len(),
{
    if cs.len() > 0 {
        lemma_best_index_bounds(cs, t);
        lemma_best_index_is_best(cs, t);
        let b = best_index(cs, t);
        let h = cs[b];
        let rest = cs.remove(b);
        let next = if overlaps_any(h, chosen) {
            chosen
        } else {
            chosen.push(h)
        };
        assert forall|i: int| 0 <= i < rest.len() implies #[trigger] rest[i] == cs[if i < b {
            i
        } else {
            i + 1
        }] by {}
        assert forall|i: int, j: int| 0 <= i < next.len() && 0 <= j < next.len() && i < j implies !overlaps(
            #[trigger] next[i],
            #[trigger] next[j],
        ) by {
            if j == chosen.len() {
                assert(next[i] == chosen[i]);
                assert(!overlaps(h, chosen[i]));
            } else {
                assert(next[i] == chosen[i] && next[j] == chosen[j]);
            }
        }
        assert forall|i: int, j: int|
            0 <= i < rest.len() && 0 <= j < next.len() implies !outranks(t, #[trigger] rest[i], #[trigger] next[j]) by {
            let k = if i < b {
                i
            } else {
                i + 1
            };
            assert(rest[i] == cs[k]);
            if j < chosen.len() {
                assert(next[j] == chosen[j]);
            }
        }
        assert forall|i: int| 0 <= i < rest.len() implies (#[trigger] rest[i]).start < rest[i].end by {
            let k = if i < b {
                i
            } else {
                i + 1
            };
            assert(rest[i] == cs[k]);
        }
        lemma_select(rest, t, next);
        let r = select(cs, t, chosen);
        assert(r == select(rest, t, next));
        assert forall|i: int| 0 <= i < r.len() implies chosen.contains(#[trigger] r[i]) || cs.contains(r[i]) by {
            if next.contains(r[i]) {
                let j = choose|j: int| 0 <= j < next.len() && next[j] == r[i];
                if j < chosen.len() {
                    assert(next[j] == chosen[j]);
                } else {
                    assert(cs[b] == r[i]);
                }
            } else {
                let j = choose|j: int| 0 <= j < rest.len() && rest[j] == r[i];
                let k = if j < b {
                    j
                } else {
                    j + 1
                };
                assert(cs[k] == r[i]);
            }
        }
        assert forall|i: int| 0 <= i < cs.len() implies covered(t, #[trigger] cs[i], r) by {
            if i == b {
                if overlaps_any(h, chosen) {
                    let j = choose|j: int| 0 <= j < chosen.len() && overlaps(h, #[trigger] chosen[j]);
                    assert(r[j] == chosen[j]);
                    assert(overlaps(h, r[j]) && !outranks(t, h, r[j]));
                } else {
                    let j = chosen.len() as int;
                    assert(next[j] == h);
                    assert(r[j] == h);
                    assert(overlaps(h, r[j]) && !outranks(t, h, r[j]));
                }
            } else {
                let k = if i < b {
                    i
                } else {
                    i - 1
                };
                assert(rest[k] == cs[i]);
                assert(covered(t, rest[k], r));
            }
        }
    }
}

/// The matches that replacement uses never overlap.
pub proof fn law_chosen_matches_disjoint(rules: Seq<Rule>, t: Seq<char>)
    ensures
        disjoint_hits(chosen_hits(rules, t)),
{
    lemma_candidates_nonempty(rules, t);
    lemma_select(candidates(rules, t), t, Seq::empty());
}

/// Every match that replacement uses is a match of one of the rules on word
/// boundaries.
pub proof fn law_chosen_matches_are_candidates(rules: Seq<Rule>, t: Seq<char>)
    ensures
        forall|i: int|
            0 <= i < chosen_hits(rules, t).len() ==> candidates(rules, t).contains(
                #[trigger] chosen_hits(rules, t)[i],
            ),
{
    lemma_candidates_nonempty(rules, t);
    lemma_select(candidates(rules, t), t, Seq::empty());
}

/// The preferred match wins: every match of a rule on word boundaries that
/// is not replaced overlaps a replaced match that covers at least as many
/// bytes (and, when as many, starts no later).
pub proof fn law_preferred_match_wins(rules: Seq<Rule>, t: Seq<char>)
    ensures
        forall|i: int|
            0 <= i < candidates(rules, t).len() ==> covered(
                t,
                #[trigger] candidates(rules, t)[i],
                chosen_hits(rules, t),
            ),
{
    lemma_candidates_nonempty(rules, t);
    lemma_select(candidates(rules, t), t, Seq::empty());
}

} // verus!
