//! What normalization guarantees of a dictionary document: the canonical
//! form is clean (clean text, distinct ids, no key shared by different
//! terms) and a fixed point (normalizing it again gives it back unchanged),
//! so saved and reloaded documents keep their content.

use crate::dictionary::{
    alias_progress, entry_progress, fold_key, normalize_document, normalize_entry, register_owner,
    size_check, AliasProgress, DocumentModel, EntryModel, EntryProgress, ErrorModel,
    DICTIONARY_VERSION, MAX_ALIASES_PER_ENTRY, MAX_DICTIONARY_ENTRIES,
};
use crate::text::{lemma_normalize_ws_idempotent, lemma_normalize_ws_no_new_chars, normalize_ws};
use vstd::prelude::*;

verus! {

/// The owner table maps `term`'s key to `term`.
pub open spec fn owns_term(owners: Map<Seq<char>, Seq<char>>, term: Seq<char>) -> bool {
    owners.contains_key(fold_key(term)) && owners[fold_key(term)] == term
}

proof fn lemma_alias_ok_prefix(
    raw: Seq<Seq<char>>,
    n: nat,
    m: nat,
    i: nat,
    id: Seq<char>,
    term: Seq<char>,
    owners: Map<Seq<char>, Seq<char>>,
)
    requires
        m <= n,
        alias_progress(raw, n, i, id, term, owners) is Ok,
    ensures
        alias_progress(raw, m, i, id, term, owners) is Ok,
    decreases n,
{
    if m < n {
        assert(alias_progress(raw, (n - 1) as nat, i, id, term, owners) is Ok);
        lemma_alias_ok_prefix(raw, (n - 1) as nat, m, i, id, term, owners);
    }
}

/// What holds of every successful alias progress: each seen key is owned
/// by the term, at most one alias is kept per raw alias, and each kept
/// alias is non-empty, free of NUL and already whitespace-normalized.
proof fn lemma_alias_facts(
    raw: Seq<Seq<char>>,
    n: nat,
    i: nat,
    id: Seq<char>,
    term: Seq<char>,
    owners: Map<Seq<char>, Seq<char>>,
)
    requires
        n <= raw.len(),
        owns_term(owners, term),
        alias_progress(raw, n, i, id, term, owners) is Ok,
    ensures
        ({
            let a = alias_progress(raw, n, i, id, term, owners)->Ok_0;
            &&& forall|k: Seq<char>| #[trigger] a.seen.contains(k) ==> a.owners.contains_key(k) && a.owners[k] == term
            &&& a.aliases.len() <= n
            &&& forall|j: int|
                0 <= j < a.aliases.len() ==> !(#[trigger] a.aliases[j]).contains('\0') && normalize_ws(
                    a.aliases[j],
                ) == a.aliases[j] && a.aliases[j].len() > 0
        }),
    decreases n,
{
    let a = alias_progress(raw, n, i, id, term, owners)->Ok_0;
    if n == 0 {
        assert forall|k: Seq<char>| #[trigger] a.seen.contains(k) implies a.owners.contains_key(k)
            && a.owners[k] == term by {
            assert(a.seen == seq![fold_key(term)]);
            assert(k == a.seen[0]);
        }
    } else {
        let pn = (n - 1) as nat;
        lemma_alias_facts(raw, pn, i, id, term, owners);
        let p = alias_progress(raw, pn, i, id, term, owners)->Ok_0;
        let r = raw[n - 1];
        let alias = normalize_ws(r);
        let key = fold_key(alias);
        lemma_normalize_ws_idempotent(r);
        lemma_normalize_ws_no_new_chars(r, '\0');
        assert forall|k: Seq<char>| #[trigger] a.seen.contains(k) implies a.owners.contains_key(k)
            && a.owners[k] == term by {
            if p.seen.contains(k) {
            } else {
                assert(k == key);
            }
        }
        assert forall|j: int| 0 <= j < a.aliases.len() implies !(#[trigger] a.aliases[j]).contains('\0')
            && normalize_ws(a.aliases[j]) == a.aliases[j] && a.aliases[j].len() > 0 by {
            if j < p.aliases.len() {
                assert(a.aliases[j] == p.aliases[j]);
            } else {
                assert(a.aliases[j] == alias);
            }
        }
    }
}

/// The aliases kept after `m` raw aliases are a prefix of those kept after
/// `n >= m`.
proof fn lemma_alias_prefix(
    raw: Seq<Seq<char>>,
    n: nat,
    m: nat,
    i: nat,
    id: Seq<char>,
    term: Seq<char>,
    owners: Map<Seq<char>, Seq<char>>,
)
    requires
        m <= n,
        alias_progress(raw, n, i, id, term, owners) is Ok,
    ensures
        alias_progress(raw, m, i, id, term, owners) is Ok,
        ({
            let an = alias_progress(raw, n, i, id, term, owners)->Ok_0;
            let am = alias_progress(raw, m, i, id, term, owners)->Ok_0;
            am.aliases.len() <= an.aliases.len() && an.aliases.take(am.aliases.len() as int) == am.aliases
        }),
    decreases n,
{
    lemma_alias_ok_prefix(raw, n, m, i, id, term, owners);
    let an = alias_progress(raw, n, i, id, term, owners)->Ok_0;
    if m < n {
        let pn = (n - 1) as nat;
        assert(alias_progress(raw, pn, i, id, term, owners) is Ok);
        lemma_alias_prefix(raw, pn, m, i, id, term, owners);
        let p = alias_progress(raw, pn, i, id, term, owners)->Ok_0;
        let am = alias_progress(raw, m, i, id, term, owners)->Ok_0;
        assert(an.aliases == p.aliases || an.aliases == p.aliases.push(an.aliases.last()));
        if an.aliases != p.aliases {
            assert(an.aliases.take(am.aliases.len() as int) =~= p.aliases.take(am.aliases.len() as int));
        }
    } else {
        assert(an.aliases.take(an.aliases.len() as int) =~= an.aliases);
    }
}

/// Running the alias checks over the aliases kept by a successful run gives
/// back the same progress, step for step.
proof fn lemma_alias_rerun(
    raw: Seq<Seq<char>>,
    big_m: nat,
    m: nat,
    i: nat,
    id: Seq<char>,
    term: Seq<char>,
    owners: Map<Seq<char>, Seq<char>>,
)
    requires
        m <= big_m <= raw.len(),
        owns_term(owners, term),
        alias_progress(raw, big_m, i, id, term, owners) is Ok,
    ensures
        alias_progress(raw, m, i, id, term, owners) is Ok,
        alias_progress(
            alias_progress(raw, big_m, i, id, term, owners)->Ok_0.aliases,
            alias_progress(raw, m, i, id, term, owners)->Ok_0.aliases.len(),
            i,
            id,
            term,
            owners,
        ) == alias_progress(raw, m, i, id, term, owners),
    decreases m,
{
    lemma_alias_prefix(raw, big_m, m, i, id, term, owners);
    let big_a = alias_progress(raw, big_m, i, id, term, owners)->Ok_0;
    let kept = big_a.aliases;
    let am = alias_progress(raw, m, i, id, term, owners)->Ok_0;
    if m == 0 {
        assert(am.aliases.len() == 0);
    } else {
        let pm = (m - 1) as nat;
        lemma_alias_rerun(raw, big_m, pm, i, id, term, owners);
        lemma_alias_facts(raw, pm, i, id, term, owners);
        lemma_alias_facts(raw, big_m, i, id, term, owners);
        let p = alias_progress(raw, pm, i, id, term, owners)->Ok_0;
        let r = raw[m - 1];
        let alias = normalize_ws(r);
        let key = fold_key(alias);
        let j = p.aliases.len();
        if p.seen.contains(key) {
            assert(register_owner(p.owners, key, term) == Ok::<Map<Seq<char>, Seq<char>>, ErrorModel>(p.owners));
            assert(am == p);
        } else {
            assert(am.aliases == p.aliases.push(alias));
            assert(kept.take(am.aliases.len() as int) == am.aliases);
            assert(kept[j as int] == kept.take(am.aliases.len() as int)[j as int]);
            assert(kept[j as int] == alias);
            assert(!kept[j as int].contains('\0'));
            assert(normalize_ws(kept[j as int]) == alias);
            assert(alias_progress(kept, (j + 1) as nat, i, id, term, owners) == alias_progress(
                raw,
                m,
                i,
                id,
                term,
                owners,
            ));
        }
    }
}

} // verus!

verus! {

/// Checking an entry that a successful run produced, on top of the same
/// progress, gives the same progress again.
proof fn lemma_entry_rerun(e: EntryModel, k: nat, p: EntryProgress)
    requires
        normalize_entry(e, k, p) is Ok,
    ensures
        normalize_entry(normalize_entry(e, k, p)->Ok_0.entries.last(), k, p) == normalize_entry(e, k, p),
{
    reveal(normalize_entry);
    let p1 = normalize_entry(e, k, p)->Ok_0;
    let id = normalize_ws(e.id);
    let term = normalize_ws(e.term);
    let owners1 = register_owner(p.owners, fold_key(term), term)->Ok_0;
    assert(owns_term(owners1, term));
    let n = e.aliases.len();
    let a = alias_progress(e.aliases, n, k, id, term, owners1)->Ok_0;
    let f = p1.entries.last();
    assert(f == EntryModel { id, term, aliases: a.aliases, enabled: e.enabled });
    lemma_alias_facts(e.aliases, n, k, id, term, owners1);
    lemma_alias_rerun(e.aliases, n, n, k, id, term, owners1);
    lemma_normalize_ws_idempotent(e.id);
    lemma_normalize_ws_idempotent(e.term);
    lemma_normalize_ws_no_new_chars(e.id, '\0');
    lemma_normalize_ws_no_new_chars(e.term, '\0');
    assert(f.aliases.len() <= MAX_ALIASES_PER_ENTRY);
    assert(normalize_ws(f.id) == id);
    assert(normalize_ws(f.term) == term);
}

proof fn lemma_entry_ok_prefix(es: Seq<EntryModel>, n: nat, m: nat)
    requires
        m <= n,
        entry_progress(es, n) is Ok,
    ensures
        entry_progress(es, m) is Ok,
    decreases n,
{
    reveal(entry_progress);
    if m < n {
        assert(entry_progress(es, (n - 1) as nat) is Ok);
        lemma_entry_ok_prefix(es, (n - 1) as nat, m);
    }
}

/// A successful run over `n` entries has produced exactly `n` entries, each
/// step adding one.
proof fn lemma_entry_growth(es: Seq<EntryModel>, n: nat)
    requires
        entry_progress(es, n) is Ok,
    ensures
        entry_progress(es, n)->Ok_0.entries.len() == n,
        n > 0 ==> entry_progress(es, (n - 1) as nat) is Ok && entry_progress(es, n)->Ok_0.entries.drop_last()
            == entry_progress(es, (n - 1) as nat)->Ok_0.entries,
    decreases n,
{
    reveal(entry_progress);
    if n > 0 {
        let pn = (n - 1) as nat;
        assert(entry_progress(es, pn) is Ok);
        lemma_entry_growth(es, pn);
        let p = entry_progress(es, pn)->Ok_0;
        reveal(normalize_entry);
        let q = entry_progress(es, n)->Ok_0;
        assert(q.entries == p.entries.push(q.entries.last()));
        assert(q.entries.drop_last() =~= p.entries);
    }
}

proof fn lemma_entry_prefix(es: Seq<EntryModel>, n: nat, m: nat)
    requires
        m <= n,
        entry_progress(es, n) is Ok,
    ensures
        entry_progress(es, m) is Ok,
        entry_progress(es, n)->Ok_0.entries.take(m as int) == entry_progress(es, m)->Ok_0.entries,
    decreases n,
{
    lemma_entry_ok_prefix(es, n, m);
    lemma_entry_growth(es, n);
    lemma_entry_growth(es, m);
    let q = entry_progress(es, n)->Ok_0;
    if m < n {
        lemma_entry_prefix(es, (n - 1) as nat, m);
        let p = entry_progress(es, (n - 1) as nat)->Ok_0;
        assert(q.entries.take(m as int) =~= p.entries.take(m as int));
    } else {
        assert(q.entries.take(m as int) =~= q.entries);
    }
}

/// Running the entry checks over the entries of a successful run retraces
/// it step for step.
proof fn lemma_entries_rerun(es: Seq<EntryModel>, big_n: nat, k: nat)
    requires
        k <= big_n <= es.len(),
        entry_progress(es, big_n) is Ok,
    ensures
        entry_progress(entry_progress(es, big_n)->Ok_0.entries, k) == entry_progress(es, k),
    decreases k,
{
    reveal(entry_progress);
    let ns = entry_progress(es, big_n)->Ok_0.entries;
    lemma_entry_prefix(es, big_n, k);
    lemma_entry_growth(es, big_n);
    if k > 0 {
        let pk = (k - 1) as nat;
        lemma_entries_rerun(es, big_n, pk);
        lemma_entry_growth(es, k);
        let p = entry_progress(es, pk)->Ok_0;
        let q = entry_progress(es, k)->Ok_0;
        assert(entry_progress(es, k) == normalize_entry(es[k - 1], pk, p));
        lemma_entry_rerun(es[k - 1], pk, p);
        assert(ns[k - 1] == ns.take(k as int)[k - 1]);
        assert(ns[k - 1] == q.entries.last());
    }
}

/// The canonical form is a fixed point: normalizing a normalized document
/// gives it back unchanged.
pub proof fn law_normalized_is_canonical(d: DocumentModel)
    ensures
        match normalize_document(d) {
            Ok(n) => normalize_document(n) == Ok::<DocumentModel, ErrorModel>(n),
            Err(_) => true,
        },
{
    match normalize_document(d) {
        Ok(n) => {
            let big_n = d.entries.len();
            lemma_entry_growth(d.entries, big_n);
            lemma_entries_rerun(d.entries, big_n, big_n);
            assert(n.entries.len() == big_n);
            assert(n.entries.len() <= MAX_DICTIONARY_ENTRIES);
            assert(size_check(n) is None);
            let again = DocumentModel { version: DICTIONARY_VERSION, enabled: n.enabled, entries: n.entries };
            assert(again == n);
        },
        Err(_) => {},
    }
}

} // verus!

verus! {

/// The phrases of an entry: its term, then its aliases.
pub open spec fn entry_phrases(e: EntryModel) -> Seq<Seq<char>> {
    seq![e.term] + e.aliases
}

/// Text in stored form: non-empty, whitespace collapsed, no NUL.
pub open spec fn clean_text(s: Seq<char>) -> bool {
    s.len() > 0 && normalize_ws(s) == s && !s.contains('\0')
}

/// An entry in canonical form: clean id, term and aliases, at most
/// [`MAX_ALIASES_PER_ENTRY`] aliases, and no two phrases of the entry with
/// the same comparison key.
pub open spec fn clean_entry(e: EntryModel) -> bool {
    &&& clean_text(e.id)
    &&& clean_text(e.term)
    &&& e.aliases.len() <= MAX_ALIASES_PER_ENTRY
    &&& forall|j: int| 0 <= j < e.aliases.len() ==> clean_text(#[trigger] e.aliases[j])
    &&& forall|a: int, b: int|
        0 <= a < b < entry_phrases(e).len() ==> fold_key(#[trigger] entry_phrases(e)[a]) != fold_key(
            #[trigger] entry_phrases(e)[b],
        )
}

/// A document in canonical form: current version, at most
/// [`MAX_DICTIONARY_ENTRIES`] clean entries with distinct ids, and no
/// comparison key shared by phrases of different canonical terms.
pub open spec fn clean_document(d: DocumentModel) -> bool {
    &&& d.version == DICTIONARY_VERSION
    &&& d.entries.len() <= MAX_DICTIONARY_ENTRIES
    &&& forall|i: int| 0 <= i < d.entries.len() ==> clean_entry(#[trigger] d.entries[i])
    &&& forall|i: int, j: int|
        0 <= i < j < d.entries.len() ==> (#[trigger] d.entries[i]).id != (#[trigger] d.entries[j]).id
    &&& forall|i: int, j: int, a: int, b: int|
        0 <= i < d.entries.len() && 0 <= j < d.entries.len() && 0 <= a < entry_phrases(d.entries[i]).len()
            && 0 <= b < entry_phrases(d.entries[j]).len() && fold_key(
            #[trigger] entry_phrases(d.entries[i])[a],
        ) == fold_key(#[trigger] entry_phrases(d.entries[j])[b]) ==> d.entries[i].term
            == d.entries[j].term
}

/// The alias progress keeps the owner table's earlier entries, and its seen
/// keys are the term's key followed by the kept aliases' keys, all distinct.
proof fn lemma_alias_seen(
    raw: Seq<Seq<char>>,
    n: nat,
    i: nat,
    id: Seq<char>,
    term: Seq<char>,
    owners: Map<Seq<char>, Seq<char>>,
)
    requires
        n <= raw.len(),
        alias_progress(raw, n, i, id, term, owners) is Ok,
    ensures
        ({
            let a = alias_progress(raw, n, i, id, term, owners)->Ok_0;
            &&& a.seen == seq![fold_key(term)] + a.aliases.map_values(|x: Seq<char>| fold_key(x))
            &&& forall|p: int, q: int| 0 <= p < q < a.seen.len() ==> #[trigger] a.seen[p] != #[trigger] a.seen[q]
            &&& forall|k: Seq<char>|
                #[trigger] owners.contains_key(k) ==> a.owners.contains_key(k) && a.owners[k] == owners[k]
        }),
    decreases n,
{
    let a = alias_progress(raw, n, i, id, term, owners)->Ok_0;
    if n == 0 {
        assert(a.aliases.map_values(|x: Seq<char>| fold_key(x)) =~= Seq::<Seq<char>>::empty());
        assert(a.seen =~= seq![fold_key(term)] + a.aliases.map_values(|x: Seq<char>| fold_key(x)));
    } else {
        let pn = (n - 1) as nat;
        lemma_alias_seen(raw, pn, i, id, term, owners);
        let p = alias_progress(raw, pn, i, id, term, owners)->Ok_0;
        let alias = normalize_ws(raw[n - 1]);
        let key = fold_key(alias);
        if !p.seen.contains(key) {
            assert(a.aliases == p.aliases.push(alias));
            assert(a.aliases.map_values(|x: Seq<char>| fold_key(x)) =~= p.aliases.map_values(
                |x: Seq<char>| fold_key(x),
            ).push(key));
            assert(a.seen =~= seq![fold_key(term)] + a.aliases.map_values(|x: Seq<char>| fold_key(x)));
            assert forall|x: int, y: int| 0 <= x < y < a.seen.len() implies #[trigger] a.seen[x] != #[trigger] a.seen[y] by {
                if y == p.seen.len() {
                    assert(a.seen[x] == p.seen[x]);
                    assert(a.seen[y] == key);
                } else {
                    assert(a.seen[x] == p.seen[x] && a.seen[y] == p.seen[y]);
                }
            }
        }
    }
}

} // verus!

verus! {

/// What a successful run over the first `k` entries has built.
pub open spec fn progress_clean(p: EntryProgress, k: nat) -> bool {
    &&& p.entries.len() == k
    &&& p.ids.len() == k
    &&& forall|i: int| 0 <= i < k ==> #[trigger] p.ids[i] == p.entries[i].id
    &&& forall|i: int| 0 <= i < k ==> clean_entry(#[trigger] p.entries[i])
    &&& forall|i: int, j: int| 0 <= i < j < k ==> #[trigger] p.ids[i] != #[trigger] p.ids[j]
    &&& forall|i: int, a: int|
        0 <= i < k && 0 <= a < entry_phrases(p.entries[i]).len() ==> p.owners.contains_key(
            fold_key(#[trigger] entry_phrases(p.entries[i])[a]),
        ) && p.owners[fold_key(entry_phrases(p.entries[i])[a])] == p.entries[i].term
}

proof fn lemma_entry_step_clean(e: EntryModel, k: nat, p: EntryProgress)
    requires
        progress_clean(p, k),
        normalize_entry(e, k, p) is Ok,
    ensures
        progress_clean(normalize_entry(e, k, p)->Ok_0, k + 1),
{
    reveal(normalize_entry);
    let p1 = normalize_entry(e, k, p)->Ok_0;
    let id = normalize_ws(e.id);
    let term = normalize_ws(e.term);
    let owners1 = register_owner(p.owners, fold_key(term), term)->Ok_0;
    assert(owns_term(owners1, term));
    assert forall|key: Seq<char>| #[trigger] p.owners.contains_key(key) implies owners1.contains_key(key)
        && owners1[key] == p.owners[key] by {}
    let n = e.aliases.len();
    let a = alias_progress(e.aliases, n, k, id, term, owners1)->Ok_0;
    lemma_alias_facts(e.aliases, n, k, id, term, owners1);
    lemma_alias_seen(e.aliases, n, k, id, term, owners1);
    lemma_normalize_ws_idempotent(e.id);
    lemma_normalize_ws_idempotent(e.term);
    lemma_normalize_ws_no_new_chars(e.id, '\0');
    lemma_normalize_ws_no_new_chars(e.term, '\0');
    let f = EntryModel { id, term, aliases: a.aliases, enabled: e.enabled };
    assert(p1.entries == p.entries.push(f));
    assert(p1.ids == p.ids.push(id));
    assert(p1.owners == a.owners);
    let ph = entry_phrases(f);
    assert forall|x: int| 0 <= x < ph.len() implies #[trigger] fold_key(ph[x]) == a.seen[x] by {
        if x > 0 {
            assert(ph[x] == a.aliases[x - 1]);
        }
    }
    assert(clean_entry(f)) by {
        assert forall|j: int| 0 <= j < f.aliases.len() implies clean_text(#[trigger] f.aliases[j]) by {}
        assert forall|x: int, y: int| 0 <= x < y < ph.len() implies fold_key(#[trigger] ph[x]) != fold_key(
            #[trigger] ph[y],
        ) by {
            assert(fold_key(ph[x]) == a.seen[x]);
            assert(fold_key(ph[y]) == a.seen[y]);
        }
    }
    assert forall|i: int| 0 <= i < k + 1 implies clean_entry(#[trigger] p1.entries[i]) by {
        if i < k {
            assert(p1.entries[i] == p.entries[i]);
        }
    }
    assert forall|i: int| 0 <= i < k + 1 implies #[trigger] p1.ids[i] == p1.entries[i].id by {
        if i < k {
            assert(p1.ids[i] == p.ids[i] && p1.entries[i] == p.entries[i]);
        }
    }
    assert forall|i: int, j: int| 0 <= i < j < k + 1 implies #[trigger] p1.ids[i] != #[trigger] p1.ids[j] by {
        if j < k {
            assert(p1.ids[i] == p.ids[i] && p1.ids[j] == p.ids[j]);
        } else {
            assert(p1.ids[i] == p.ids[i]);
            assert(p.ids.contains(p.ids[i]));
        }
    }
    assert forall|i: int, x: int|
        0 <= i < k + 1 && 0 <= x < entry_phrases(p1.entries[i]).len() implies p1.owners.contains_key(
        fold_key(#[trigger] entry_phrases(p1.entries[i])[x]),
    ) && p1.owners[fold_key(entry_phrases(p1.entries[i])[x])] == p1.entries[i].term by {
        if i < k {
            assert(p1.entries[i] == p.entries[i]);
            let key = fold_key(entry_phrases(p.entries[i])[x]);
            assert(p.owners.contains_key(key));
            assert(owners1.contains_key(key) && owners1[key] == p.owners[key]);
        } else {
            assert(p1.entries[i] == f);
            assert(fold_key(ph[x]) == a.seen[x]);
            assert(a.seen.contains(a.seen[x]));
        }
    }
}

proof fn lemma_entries_clean(es: Seq<EntryModel>, k: nat)
    requires
        k <= es.len(),
        entry_progress(es, k) is Ok,
    ensures
        progress_clean(entry_progress(es, k)->Ok_0, k),
    decreases k,
{
    reveal(entry_progress);
    if k == 0 {
    } else {
        let pk = (k - 1) as nat;
        assert(entry_progress(es, pk) is Ok);
        lemma_entries_clean(es, pk);
        lemma_entry_step_clean(es[k - 1], pk, entry_progress(es, pk)->Ok_0);
    }
}

/// Every document that normalization accepts comes out clean: current
/// version, clean entries with distinct ids, and no comparison key shared
/// by phrases of different canonical terms.
pub proof fn law_normalized_documents_are_clean(d: DocumentModel)
    ensures
        match normalize_document(d) {
            Ok(n) => clean_document(n),
            Err(_) => true,
        },
{
    match normalize_document(d) {
        Ok(n) => {
            let big_n = d.entries.len();
            lemma_entries_clean(d.entries, big_n);
            let p = entry_progress(d.entries, big_n)->Ok_0;
            assert(n.entries == p.entries);
            assert forall|i: int, j: int| 0 <= i < j < n.entries.len() implies (#[trigger] n.entries[i]).id
                != (#[trigger] n.entries[j]).id by {
                assert(p.ids[i] == p.entries[i].id && p.ids[j] == p.entries[j].id);
                assert(p.ids[i] != p.ids[j]);
            }
            assert forall|i: int, j: int, a: int, b: int|
                0 <= i < n.entries.len() && 0 <= j < n.entries.len() && 0 <= a < entry_phrases(
                    n.entries[i],
                ).len() && 0 <= b < entry_phrases(n.entries[j]).len() && fold_key(
                    #[trigger] entry_phrases(n.entries[i])[a],
                ) == fold_key(#[trigger] entry_phrases(n.entries[j])[b]) implies n.entries[i].term
                == n.entries[j].term by {
                let ka = fold_key(entry_phrases(p.entries[i])[a]);
                let kb = fold_key(entry_phrases(p.entries[j])[b]);
                assert(p.owners[ka] == p.entries[i].term);
                assert(p.owners[kb] == p.entries[j].term);
            }
        },
        Err(_) => {},
    }
}

} // verus!
