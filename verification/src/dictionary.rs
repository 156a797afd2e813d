//! The versioned custom dictionary document: its data model, its error
//! values, its JSON text and its canonical (normalized) form.

use crate::json::{append_bytes, json_quote, json_string};
use crate::text::{
    append_chars, append_str, chars_equal, chars_of, contains_char, debug_quote, debug_str,
    decimal, decimal_chars, decimal_string, normalize_chars, normalize_ws, string_of,
};
use crate::unicode::{fold_char, simple_case_fold};
use vstd::prelude::*;
use vstd::utf8::encode_utf8;

verus! {

pub const DICTIONARY_VERSION: u32 = 1;

pub const MAX_DICTIONARY_BYTES: usize = 1024 * 1024;

pub const MAX_DICTIONARY_ENTRIES: usize = 500;

pub const MAX_ALIASES_PER_ENTRY: usize = 32;

/// One vocabulary entry: a canonical term and the spoken forms (aliases)
/// that should be replaced by it.
#[derive(Clone, Debug, PartialEq, Eq)]
pub struct DictionaryEntry {
    pub id: String,
    pub term: String,
    pub aliases: Vec<String>,
    pub enabled: bool,
}

/// The whole dictionary as it is stored and edited.
#[derive(Clone, Debug, PartialEq, Eq)]
pub struct DictionaryDocument {
    pub version: u32,
    pub enabled: bool,
    pub entries: Vec<DictionaryEntry>,
}

/// Mathematical model of an entry.
#[verifier::ext_equal]
pub struct EntryModel {
    pub id: Seq<char>,
    pub term: Seq<char>,
    pub aliases: Seq<Seq<char>>,
    pub enabled: bool,
}

/// Mathematical model of a document.
#[verifier::ext_equal]
pub struct DocumentModel {
    pub version: u32,
    pub enabled: bool,
    pub entries: Seq<EntryModel>,
}

impl View for DictionaryEntry {
    type V = EntryModel;

    open spec fn view(&self) -> EntryModel {
        EntryModel {
            id: self.id@,
            term: self.term@,
            aliases: self.aliases@.map_values(|a: String| a@),
            enabled: self.enabled,
        }
    }
}

impl View for DictionaryDocument {
    type V = DocumentModel;

    open spec fn view(&self) -> DocumentModel {
        DocumentModel {
            version: self.version,
            enabled: self.enabled,
            entries: self.entries@.map_values(|e: DictionaryEntry| e@),
        }
    }
}

/// The empty, enabled document of the current version.
pub open spec fn default_document() -> DocumentModel {
    DocumentModel { version: DICTIONARY_VERSION, enabled: true, entries: Seq::empty() }
}

impl DictionaryDocument {
    /// The empty, enabled document of the current version.
    pub fn new_default() -> (r: Self)
        ensures
            r@ == default_document(),
    {
        let r = DictionaryDocument { version: DICTIONARY_VERSION, enabled: true, entries: Vec::new() };
        assert(r@ =~= default_document());
        r
    }
}

impl Default for DictionaryDocument {
    fn default() -> (r: Self)
        ensures
            r@ == default_document(),
    {
        Self::new_default()
    }
}

// ---------------------------------------------------------------------------
// JSON text of a document, field by field in declaration order with the
// camelCase field names of the stored format.

/// UTF-8 bytes of a piece of literal JSON syntax.
pub open spec fn lit(s: &str) -> Seq<u8> {
    encode_utf8(s@)
}

pub open spec fn json_bool(b: bool) -> Seq<u8> {
    if b {
        lit("true")
    } else {
        lit("false")
    }
}

/// `items` joined by `,`.
pub open spec fn compact_list(items: Seq<Seq<u8>>) -> Seq<u8>
    decreases items.len(),
{
    if items.len() == 0 {
        Seq::empty()
    } else if items.len() == 1 {
        items[0]
    } else {
        compact_list(items.drop_last()) + lit(",") + items.last()
    }
}

pub open spec fn compact_entry(e: EntryModel) -> Seq<u8> {
    lit("{\"id\":") + json_string(e.id) + lit(",\"term\":") + json_string(e.term) + lit(
        ",\"aliases\":[",
    ) + compact_list(e.aliases.map_values(|a: Seq<char>| json_string(a))) + lit("],\"enabled\":")
        + json_bool(e.enabled) + lit("}")
}

/// The compact JSON text of `d`, as `serde_json::to_vec` writes it.
pub open spec fn compact_document(d: DocumentModel) -> Seq<u8> {
    lit("{\"version\":") + encode_utf8(decimal(d.version as nat)) + lit(",\"enabled\":")
        + json_bool(d.enabled) + lit(",\"entries\":[") + compact_list(
        d.entries.map_values(|e: EntryModel| compact_entry(e)),
    ) + lit("]}")
}

/// The elements of a pretty-printed array: each on its own line after
/// `indent`, separated by commas.
pub open spec fn pretty_items(items: Seq<Seq<u8>>, indent: Seq<u8>) -> Seq<u8>
    decreases items.len(),
{
    if items.len() == 0 {
        Seq::empty()
    } else {
        pretty_items(items.drop_last(), indent) + (if items.len() == 1 {
            lit("\n")
        } else {
            lit(",\n")
        }) + indent + items.last()
    }
}

/// A pretty-printed array whose elements sit at `indent` and whose closing
/// bracket sits at `outer`.
pub open spec fn pretty_array(items: Seq<Seq<u8>>, indent: Seq<u8>, outer: Seq<u8>) -> Seq<u8> {
    if items.len() == 0 {
        lit("[]")
    } else {
        lit("[") + pretty_items(items, indent) + lit("\n") + outer + lit("]")
    }
}

#[verifier::opaque]
pub open spec fn pretty_entry(e: EntryModel) -> Seq<u8> {
    lit("{\n      \"id\": ") + json_string(e.id) + lit(",\n      \"term\": ") + json_string(e.term)
        + lit(",\n      \"aliases\": ") + pretty_array(
        e.aliases.map_values(|a: Seq<char>| json_string(a)),
        lit("        "),
        lit("      "),
    ) + lit(",\n      \"enabled\": ") + json_bool(e.enabled) + lit("\n    }")
}

/// The pretty JSON text of `d` (two-space indentation), as
/// `serde_json::to_vec_pretty` writes it.
pub open spec fn pretty_document(d: DocumentModel) -> Seq<u8> {
    lit("{\n  \"version\": ") + encode_utf8(decimal(d.version as nat)) + lit(
        ",\n  \"enabled\": ",
    ) + json_bool(d.enabled) + lit(",\n  \"entries\": ") + pretty_array(
        d.entries.map_values(|e: EntryModel| pretty_entry(e)),
        lit("    "),
        lit("  "),
    ) + lit("\n}")
}

fn append_bool(buf: &mut Vec<u8>, b: bool)
    ensures
        final(buf)@ == old(buf)@ + json_bool(b),
{
    if b {
        append_bytes(buf, "true".as_bytes());
    } else {
        append_bytes(buf, "false".as_bytes());
    }
}

fn append_decimal(buf: &mut Vec<u8>, n: u32)
    ensures
        final(buf)@ == old(buf)@ + encode_utf8(decimal(n as nat)),
{
    let digits = string_of(&decimal_chars(n as usize));
    append_bytes(buf, digits.as_str().as_bytes());
}

fn compact_strings(buf: &mut Vec<u8>, items: &Vec<String>)
    ensures
        final(buf)@ == old(buf)@ + compact_list(items@.map_values(|a: String| json_string(a@))),
{
    let ghost start = buf@;
    let ghost all = items@.map_values(|a: String| json_string(a@));
    for i in 0..items.len()
        invariant
            all == items@.map_values(|a: String| json_string(a@)),
            buf@ == start + compact_list(all.take(i as int)),
    {
        assert(all.take(i + 1).drop_last() == all.take(i as int));
        if i > 0 {
            append_bytes(buf, ",".as_bytes());
        }
        let q = json_quote(items[i].as_str());
        append_bytes(buf, q.as_slice());
        assert(all.take(i + 1).last() == q@);
        if i == 0 {
            assert(all.take(1)[0] == q@);
        }
    }
    assert(all.take(items@.len() as int) == all);
}

fn compact_entry_bytes(buf: &mut Vec<u8>, e: &DictionaryEntry)
    ensures
        final(buf)@ == old(buf)@ + compact_entry(e@),
{
    append_bytes(buf, "{\"id\":".as_bytes());
    append_bytes(buf, json_quote(e.id.as_str()).as_slice());
    append_bytes(buf, ",\"term\":".as_bytes());
    append_bytes(buf, json_quote(e.term.as_str()).as_slice());
    append_bytes(buf, ",\"aliases\":[".as_bytes());
    compact_strings(buf, &e.aliases);
    append_bytes(buf, "],\"enabled\":".as_bytes());
    append_bool(buf, e.enabled);
    append_bytes(buf, "}".as_bytes());
    proof {
        let m = e@;
        assert(e.aliases@.map_values(|a: String| json_string(a@)) == m.aliases.map_values(
            |a: Seq<char>| json_string(a),
        ));
    }
}

/// Appends a pretty-printed array of JSON strings.
fn pretty_strings(buf: &mut Vec<u8>, items: &Vec<String>)
    ensures
        final(buf)@ == old(buf)@ + pretty_array(
            items@.map_values(|a: String| json_string(a@)),
            lit("        "),
            lit("      "),
        ),
{
    let ghost start = buf@;
    let ghost all = items@.map_values(|a: String| json_string(a@));
    if items.len() == 0 {
        append_bytes(buf, "[]".as_bytes());
        return;
    }
    append_bytes(buf, "[".as_bytes());
    let ghost open = buf@;
    for i in 0..items.len()
        invariant
            all == items@.map_values(|a: String| json_string(a@)),
            buf@ == open + pretty_items(all.take(i as int), lit("        ")),
    {
        assert(all.take(i + 1).drop_last() == all.take(i as int));
        if i == 0 {
            append_bytes(buf, "\n".as_bytes());
        } else {
            append_bytes(buf, ",\n".as_bytes());
        }
        append_bytes(buf, "        ".as_bytes());
        let q = json_quote(items[i].as_str());
        append_bytes(buf, q.as_slice());
        assert(all.take(i + 1).last() == q@);
    }
    assert(all.take(items@.len() as int) == all);
    append_bytes(buf, "\n".as_bytes());
    append_bytes(buf, "      ".as_bytes());
    append_bytes(buf, "]".as_bytes());
}

fn pretty_entry_bytes(buf: &mut Vec<u8>, e: &DictionaryEntry)
    ensures
        final(buf)@ == old(buf)@ + pretty_entry(e@),
{
    reveal(pretty_entry);
    append_bytes(buf, "{\n      \"id\": ".as_bytes());
    append_bytes(buf, json_quote(e.id.as_str()).as_slice());
    append_bytes(buf, ",\n      \"term\": ".as_bytes());
    append_bytes(buf, json_quote(e.term.as_str()).as_slice());
    append_bytes(buf, ",\n      \"aliases\": ".as_bytes());
    pretty_strings(buf, &e.aliases);
    append_bytes(buf, ",\n      \"enabled\": ".as_bytes());
    append_bool(buf, e.enabled);
    append_bytes(buf, "\n    }".as_bytes());
    proof {
        let m = e@;
        assert(e.aliases@.map_values(|a: String| json_string(a@)) == m.aliases.map_values(
            |a: Seq<char>| json_string(a),
        ));
    }
}

/// The pretty JSON text of `document`, the form in which it is stored.
pub fn pretty_json(document: &DictionaryDocument) -> (r: Vec<u8>)
    ensures
        r@ == pretty_document(document@),
{
    let mut buf: Vec<u8> = Vec::new();
    append_bytes(&mut buf, "{\n  \"version\": ".as_bytes());
    append_decimal(&mut buf, document.version);
    append_bytes(&mut buf, ",\n  \"enabled\": ".as_bytes());
    append_bool(&mut buf, document.enabled);
    append_bytes(&mut buf, ",\n  \"entries\": ".as_bytes());
    let ghost all = document@.entries.map_values(|e: EntryModel| pretty_entry(e));
    if document.entries.len() == 0 {
        append_bytes(&mut buf, "[]".as_bytes());
    } else {
        append_bytes(&mut buf, "[".as_bytes());
        let ghost open = buf@;
        for i in 0..document.entries.len()
            invariant
                all == document@.entries.map_values(|e: EntryModel| pretty_entry(e)),
                document@.entries.len() == document.entries@.len(),
                buf@ == open + pretty_items(all.take(i as int), lit("    ")),
        {
            assert(all.take(i + 1).drop_last() == all.take(i as int));
            if i == 0 {
                append_bytes(&mut buf, "\n".as_bytes());
            } else {
                append_bytes(&mut buf, ",\n".as_bytes());
            }
            append_bytes(&mut buf, "    ".as_bytes());
            pretty_entry_bytes(&mut buf, &document.entries[i]);
            assert(all.take(i + 1).last() == pretty_entry(document.entries@[i as int]@));
        }
        assert(all.take(document@.entries.len() as int) == all);
        append_bytes(&mut buf, "\n".as_bytes());
        append_bytes(&mut buf, "  ".as_bytes());
        append_bytes(&mut buf, "]".as_bytes());
    }
    append_bytes(&mut buf, "\n}".as_bytes());
    buf
}

/// The compact JSON text of `document`.
pub fn compact_json(document: &DictionaryDocument) -> (r: Vec<u8>)
    ensures
        r@ == compact_document(document@),
{
    let mut buf: Vec<u8> = Vec::new();
    append_bytes(&mut buf, "{\"version\":".as_bytes());
    append_decimal(&mut buf, document.version);
    append_bytes(&mut buf, ",\"enabled\":".as_bytes());
    append_bool(&mut buf, document.enabled);
    append_bytes(&mut buf, ",\"entries\":[".as_bytes());
    let ghost before = buf@;
    let ghost all = document@.entries.map_values(|e: EntryModel| compact_entry(e));
    for i in 0..document.entries.len()
        invariant
            all == document@.entries.map_values(|e: EntryModel| compact_entry(e)),
            document@.entries.len() == document.entries@.len(),
            buf@ == before + compact_list(all.take(i as int)),
    {
        assert(all.take(i + 1).drop_last() == all.take(i as int));
        if i > 0 {
            append_bytes(&mut buf, ",".as_bytes());
        }
        compact_entry_bytes(&mut buf, &document.entries[i]);
        assert(all.take(i + 1).last() == compact_entry(document.entries@[i as int]@));
    }
    assert(all.take(document@.entries.len() as int) == all);
    append_bytes(&mut buf, "]}".as_bytes());
    buf
}

} // verus!

verus! {

/// Why a dictionary could not be loaded, validated or saved.
#[derive(Clone, Debug, PartialEq, Eq)]
pub enum DictionaryError {
    AliasConflict { alias: String, first_canonical_term: String, second_canonical_term: String },
    CorruptJson { message: String },
    DocumentTooLarge { size: usize, max: usize },
    DuplicateId { id: String },
    EmptyAlias { entry_id: String, alias_index: usize },
    EmptyCanonicalTerm { entry_id: String },
    EmptyId { entry_index: usize },
    Storage { operation: String, message: String },
    TooManyAliases { entry_index: usize, count: usize, max: usize },
    TooManyEntries { count: usize, max: usize },
    Unavailable { message: String },
    NullByte { field: String },
    Regex { message: String },
    Serialization { message: String },
    UnsupportedVersion { version: u32 },
}

/// Mathematical model of a [`DictionaryError`].
pub enum ErrorModel {
    AliasConflict { alias: Seq<char>, first_canonical_term: Seq<char>, second_canonical_term: Seq<char> },
    CorruptJson { message: Seq<char> },
    DocumentTooLarge { size: nat, max: nat },
    DuplicateId { id: Seq<char> },
    EmptyAlias { entry_id: Seq<char>, alias_index: nat },
    EmptyCanonicalTerm { entry_id: Seq<char> },
    EmptyId { entry_index: nat },
    Storage { operation: Seq<char>, message: Seq<char> },
    TooManyAliases { entry_index: nat, count: nat, max: nat },
    TooManyEntries { count: nat, max: nat },
    Unavailable { message: Seq<char> },
    NullByte { field: Seq<char> },
    Regex { message: Seq<char> },
    Serialization { message: Seq<char> },
    UnsupportedVersion { version: u32 },
}

impl View for DictionaryError {
    type V = ErrorModel;

    open spec fn view(&self) -> ErrorModel {
        match self {
            DictionaryError::AliasConflict { alias, first_canonical_term, second_canonical_term } =>
                ErrorModel::AliasConflict {
                alias: alias@,
                first_canonical_term: first_canonical_term@,
                second_canonical_term: second_canonical_term@,
            },
            DictionaryError::CorruptJson { message } => ErrorModel::CorruptJson { message: message@ },
            DictionaryError::DocumentTooLarge { size, max } => ErrorModel::DocumentTooLarge {
                size: *size as nat,
                max: *max as nat,
            },
            DictionaryError::DuplicateId { id } => ErrorModel::DuplicateId { id: id@ },
            DictionaryError::EmptyAlias { entry_id, alias_index } => ErrorModel::EmptyAlias {
                entry_id: entry_id@,
                alias_index: *alias_index as nat,
            },
            DictionaryError::EmptyCanonicalTerm { entry_id } => ErrorModel::EmptyCanonicalTerm {
                entry_id: entry_id@,
            },
            DictionaryError::EmptyId { entry_index } => ErrorModel::EmptyId {
                entry_index: *entry_index as nat,
            },
            DictionaryError::Storage { operation, message } => ErrorModel::Storage {
                operation: operation@,
                message: message@,
            },
            DictionaryError::TooManyAliases { entry_index, count, max } =>
                ErrorModel::TooManyAliases {
                entry_index: *entry_index as nat,
                count: *count as nat,
                max: *max as nat,
            },
            DictionaryError::TooManyEntries { count, max } => ErrorModel::TooManyEntries {
                count: *count as nat,
                max: *max as nat,
            },
            DictionaryError::Unavailable { message } => ErrorModel::Unavailable { message: message@ },
            DictionaryError::NullByte { field } => ErrorModel::NullByte { field: field@ },
            DictionaryError::Regex { message } => ErrorModel::Regex { message: message@ },
            DictionaryError::Serialization { message } => ErrorModel::Serialization {
                message: message@,
            },
            DictionaryError::UnsupportedVersion { version } => ErrorModel::UnsupportedVersion {
                version: *version,
            },
        }
    }
}

impl DictionaryError {
    /// A copy of this error.
    pub fn duplicate(&self) -> (r: Self)
        ensures
            r == *self,
    {
        match self {
            DictionaryError::AliasConflict { alias, first_canonical_term, second_canonical_term } =>
                DictionaryError::AliasConflict {
                alias: alias.clone(),
                first_canonical_term: first_canonical_term.clone(),
                second_canonical_term: second_canonical_term.clone(),
            },
            DictionaryError::CorruptJson { message } => DictionaryError::CorruptJson {
                message: message.clone(),
            },
            DictionaryError::DocumentTooLarge { size, max } => DictionaryError::DocumentTooLarge {
                size: *size,
                max: *max,
            },
            DictionaryError::DuplicateId { id } => DictionaryError::DuplicateId { id: id.clone() },
            DictionaryError::EmptyAlias { entry_id, alias_index } => DictionaryError::EmptyAlias {
                entry_id: entry_id.clone(),
                alias_index: *alias_index,
            },
            DictionaryError::EmptyCanonicalTerm { entry_id } =>
                DictionaryError::EmptyCanonicalTerm { entry_id: entry_id.clone() },
            DictionaryError::EmptyId { entry_index } => DictionaryError::EmptyId {
                entry_index: *entry_index,
            },
            DictionaryError::Storage { operation, message } => DictionaryError::Storage {
                operation: operation.clone(),
                message: message.clone(),
            },
            DictionaryError::TooManyAliases { entry_index, count, max } =>
                DictionaryError::TooManyAliases {
                entry_index: *entry_index,
                count: *count,
                max: *max,
            },
            DictionaryError::TooManyEntries { count, max } => DictionaryError::TooManyEntries {
                count: *count,
                max: *max,
            },
            DictionaryError::Unavailable { message } => DictionaryError::Unavailable {
                message: message.clone(),
            },
            DictionaryError::NullByte { field } => DictionaryError::NullByte {
                field: field.clone(),
            },
            DictionaryError::Regex { message } => DictionaryError::Regex {
                message: message.clone(),
            },
            DictionaryError::Serialization { message } => DictionaryError::Serialization {
                message: message.clone(),
            },
            DictionaryError::UnsupportedVersion { version } => DictionaryError::UnsupportedVersion {
                version: *version,
            },
        }
    }
}

} // verus!

verus! {

// ---------------------------------------------------------------------------
// Canonical form.

/// The key under which phrases are compared: Unicode simple case folding,
/// character by character.
pub open spec fn fold_key(s: Seq<char>) -> Seq<char> {
    s.map_values(|c: char| simple_case_fold(c))
}

pub open spec fn id_field(i: nat) -> Seq<char> {
    "entries["@ + decimal(i) + "].id"@
}

pub open spec fn term_field(i: nat) -> Seq<char> {
    "entries["@ + decimal(i) + "].term"@
}

pub open spec fn alias_field(i: nat, j: nat) -> Seq<char> {
    "entries["@ + decimal(i) + "].aliases["@ + decimal(j) + "]"@
}

/// Records that the phrase with comparison key `key` belongs to the
/// canonical term `term`; a key may belong to one canonical term only.
pub open spec fn register_owner(owners: Map<Seq<char>, Seq<char>>, key: Seq<char>, term: Seq<char>) -> Result<
    Map<Seq<char>, Seq<char>>,
    ErrorModel,
> {
    if owners.contains_key(key) {
        if owners[key] != term {
            Err(
                ErrorModel::AliasConflict {
                    alias: key,
                    first_canonical_term: owners[key],
                    second_canonical_term: term,
                },
            )
        } else {
            Ok(owners)
        }
    } else {
        Ok(owners.insert(key, term))
    }
}

/// Progress through the aliases of one entry.
pub struct AliasProgress {
    pub owners: Map<Seq<char>, Seq<char>>,
    pub seen: Seq<Seq<char>>,
    pub aliases: Seq<Seq<char>>,
}

/// The state after validating the first `n` raw aliases of entry `i`, whose
/// normalized id and term are `id` and `term`; `owners` is the owner table
/// after the term itself was registered.
pub open spec fn alias_progress(
    raw: Seq<Seq<char>>,
    n: nat,
    i: nat,
    id: Seq<char>,
    term: Seq<char>,
    owners: Map<Seq<char>, Seq<char>>,
) -> Result<AliasProgress, ErrorModel>
    decreases n,
{
    if n == 0 {
        Ok(AliasProgress { owners, seen: seq![fold_key(term)], aliases: Seq::empty() })
    } else {
        match alias_progress(raw, (n - 1) as nat, i, id, term, owners) {
            Err(e) => Err(e),
            Ok(p) => {
                let alias_raw = raw[n - 1];
                if alias_raw.contains('\0') {
                    Err(ErrorModel::NullByte { field: alias_field(i, (n - 1) as nat) })
                } else {
                    let alias = normalize_ws(alias_raw);
                    if alias.len() == 0 {
                        Err(ErrorModel::EmptyAlias { entry_id: id, alias_index: (n - 1) as nat })
                    } else {
                        let key = fold_key(alias);
                        match register_owner(p.owners, key, term) {
                            Err(e) => Err(e),
                            Ok(owners2) => Ok(
                                AliasProgress {
                                    owners: owners2,
                                    seen: if p.seen.contains(key) {
                                        p.seen
                                    } else {
                                        p.seen.push(key)
                                    },
                                    aliases: if p.seen.contains(key) {
                                        p.aliases
                                    } else {
                                        p.aliases.push(alias)
                                    },
                                },
                            ),
                        }
                    }
                }
            },
        }
    }
}

/// Progress through the entries of a document.
pub struct EntryProgress {
    pub entries: Seq<EntryModel>,
    pub ids: Seq<Seq<char>>,
    pub owners: Map<Seq<char>, Seq<char>>,
}

/// Validates and normalizes entry `i` on top of the progress `p` made on
/// the entries before it.
#[verifier::opaque]
pub open spec fn normalize_entry(e: EntryModel, i: nat, p: EntryProgress) -> Result<
    EntryProgress,
    ErrorModel,
> {
    if e.aliases.len() > MAX_ALIASES_PER_ENTRY {
        Err(
            ErrorModel::TooManyAliases {
                entry_index: i,
                count: e.aliases.len(),
                max: MAX_ALIASES_PER_ENTRY as nat,
            },
        )
    } else if e.id.contains('\0') {
        Err(ErrorModel::NullByte { field: id_field(i) })
    } else if normalize_ws(e.id).len() == 0 {
        Err(ErrorModel::EmptyId { entry_index: i })
    } else if p.ids.contains(normalize_ws(e.id)) {
        Err(ErrorModel::DuplicateId { id: normalize_ws(e.id) })
    } else if e.term.contains('\0') {
        Err(ErrorModel::NullByte { field: term_field(i) })
    } else if normalize_ws(e.term).len() == 0 {
        Err(ErrorModel::EmptyCanonicalTerm { entry_id: normalize_ws(e.id) })
    } else {
        let id = normalize_ws(e.id);
        let term = normalize_ws(e.term);
        match register_owner(p.owners, fold_key(term), term) {
            Err(err) => Err(err),
            Ok(owners) => match alias_progress(e.aliases, e.aliases.len(), i, id, term, owners) {
                Err(err) => Err(err),
                Ok(a) => Ok(
                    EntryProgress {
                        entries: p.entries.push(
                            EntryModel { id, term, aliases: a.aliases, enabled: e.enabled },
                        ),
                        ids: p.ids.push(id),
                        owners: a.owners,
                    },
                ),
            },
        }
    }
}

/// The state after the first `n` entries of `entries`.
#[verifier::opaque]
pub open spec fn entry_progress(entries: Seq<EntryModel>, n: nat) -> Result<EntryProgress, ErrorModel>
    decreases n,
{
    if n == 0 {
        Ok(EntryProgress { entries: Seq::empty(), ids: Seq::empty(), owners: Map::empty() })
    } else {
        match entry_progress(entries, (n - 1) as nat) {
            Err(e) => Err(e),
            Ok(p) => normalize_entry(entries[n - 1], (n - 1) as nat, p),
        }
    }
}

/// Size limit on the compact JSON text of a document.
#[verifier::opaque]
pub open spec fn size_check(d: DocumentModel) -> Option<ErrorModel> {
    if compact_document(d).len() > MAX_DICTIONARY_BYTES {
        Some(
            ErrorModel::DocumentTooLarge {
                size: compact_document(d).len(),
                max: MAX_DICTIONARY_BYTES as nat,
            },
        )
    } else {
        None
    }
}

/// The canonical form of a document, or the first reason it is invalid.
/// Checks run in this order: version, number of entries, serialized size;
/// then entry by entry (alias count, null byte in the id, empty id, duplicate
/// id, null byte in the term, empty term, owner of the term's key, then alias
/// by alias: null byte, empty alias, owner of the alias's key); finally the
/// serialized size of the canonical document. Every id, term and alias is
/// whitespace-normalized, aliases whose key repeats an earlier key of the
/// same entry (its term included) are dropped, and the version is the
/// current one.
pub open spec fn normalize_document(d: DocumentModel) -> Result<DocumentModel, ErrorModel> {
    if d.version != DICTIONARY_VERSION {
        Err(ErrorModel::UnsupportedVersion { version: d.version })
    } else if d.entries.len() > MAX_DICTIONARY_ENTRIES {
        Err(
            ErrorModel::TooManyEntries {
                count: d.entries.len(),
                max: MAX_DICTIONARY_ENTRIES as nat,
            },
        )
    } else if size_check(d) is Some {
        Err(size_check(d)->0)
    } else {
        match entry_progress(d.entries, d.entries.len()) {
            Err(e) => Err(e),
            Ok(p) => {
                let n = DocumentModel {
                    version: DICTIONARY_VERSION,
                    enabled: d.enabled,
                    entries: p.entries,
                };
                if size_check(n) is Some {
                    Err(size_check(n)->0)
                } else {
                    Ok(n)
                }
            },
        }
    }
}

pub open spec fn document_result_model(r: Result<DictionaryDocument, DictionaryError>) -> Result<
    DocumentModel,
    ErrorModel,
> {
    match r {
        Ok(d) => Ok(d@),
        Err(e) => Err(e@),
    }
}

} // verus!

verus! {

pub open spec fn char_views(v: Seq<Vec<char>>) -> Seq<Seq<char>> {
    v.map_values(|x: Vec<char>| x@)
}

pub open spec fn string_views(v: Seq<String>) -> Seq<Seq<char>> {
    v.map_values(|x: String| x@)
}

/// Position of `key` in `list`, if it occurs.
fn find_chars(list: &Vec<Vec<char>>, key: &Vec<char>) -> (r: Option<usize>)
    ensures
        match r {
            Some(i) => i < list@.len() && list@[i as int]@ == key@,
            None => !char_views(list@).contains(key@),
        },
{
    for i in 0..list.len()
        invariant
            forall|j: int| 0 <= j < i ==> list@[j]@ != key@,
    {
        if chars_equal(&list[i], key) {
            return Some(i);
        }
    }
    assert forall|j: int| 0 <= j < char_views(list@).len() implies char_views(list@)[j] != key@ by {
        assert(char_views(list@)[j] == list@[j]@);
    }
    None
}

/// Comparison key of a character sequence.
pub fn comparison_key(value: &Vec<char>) -> (r: Vec<char>)
    ensures
        r@ == fold_key(value@),
{
    let mut out: Vec<char> = Vec::new();
    for i in 0..value.len()
        invariant
            out@ == fold_key(value@.take(i as int)),
    {
        out.push(fold_char(value[i]));
        assert(fold_key(value@.take(i + 1)) == fold_key(value@.take(i as int)).push(
            simple_case_fold(value@[i as int]),
        ));
    }
    assert(value@.take(value@.len() as int) == value@);
    out
}

/// Which canonical term each registered comparison key belongs to.
struct OwnerTable {
    keys: Vec<Vec<char>>,
    terms: Vec<Vec<char>>,
    model: Ghost<Map<Seq<char>, Seq<char>>>,
}

impl OwnerTable {
    spec fn wf(&self) -> bool {
        &&& self.keys@.len() == self.terms@.len()
        &&& forall|i: int|
            0 <= i < self.keys@.len() ==> self.model@.contains_key(#[trigger] self.keys@[i]@)
                && self.model@[self.keys@[i]@] == self.terms@[i]@
        &&& forall|k: Seq<char>|
            #[trigger] self.model@.contains_key(k) ==> char_views(self.keys@).contains(k)
    }

    fn new() -> (r: Self)
        ensures
            r.wf(),
            r.model@ == Map::<Seq<char>, Seq<char>>::empty(),
    {
        OwnerTable { keys: Vec::new(), terms: Vec::new(), model: Ghost(Map::empty()) }
    }

    fn register(&mut self, key: &Vec<char>, term: &Vec<char>) -> (r: Result<(), DictionaryError>)
        requires
            old(self).wf(),
        ensures
            match register_owner(old(self).model@, key@, term@) {
                Ok(m) => r is Ok && final(self).wf() && final(self).model@ == m,
                Err(e) => match r {
                    Err(err) => err@ == e,
                    Ok(_) => false,
                },
            },
    {
        match find_chars(&self.keys, key) {
            Some(i) => {
                assert(self.model@.contains_key(self.keys@[i as int]@));
                if chars_equal(&self.terms[i], term) {
                    Ok(())
                } else {
                    Err(
                        DictionaryError::AliasConflict {
                            alias: string_of(key),
                            first_canonical_term: string_of(&self.terms[i]),
                            second_canonical_term: string_of(term),
                        },
                    )
                }
            },
            None => {
                let ghost old_model = self.model@;
                let ghost old_keys = self.keys@;
                assert(!old_model.contains_key(key@));
                self.keys.push(key.clone());
                self.terms.push(term.clone());
                self.model = Ghost(old_model.insert(key@, term@));
                assert forall|i: int| 0 <= i < self.keys@.len() implies self.model@.contains_key(
                    #[trigger] self.keys@[i]@,
                ) && self.model@[self.keys@[i]@] == self.terms@[i]@ by {
                    if i < old_keys.len() {
                        assert(self.keys@[i] == old_keys[i]);
                        assert(old_model.contains_key(old_keys[i]@));
                        assert(old_keys[i]@ != key@);
                    }
                }
                assert forall|k: Seq<char>| #[trigger]
                    self.model@.contains_key(k) implies char_views(self.keys@).contains(k) by {
                    if k == key@ {
                        assert(char_views(self.keys@)[old_keys.len() as int] == k);
                    } else {
                        assert(old_model.contains_key(k));
                        let j = choose|j: int|
                            0 <= j < char_views(old_keys).len() && char_views(old_keys)[j] == k;
                        assert(char_views(self.keys@)[j] == k);
                    }
                }
                Ok(())
            },
        }
    }
}

/// `"entries[" + i + "]" + suffix`-style field names of the stored format.
fn field_name(i: usize, suffix: &str) -> (r: String)
    ensures
        r@ == "entries["@ + decimal(i as nat) + suffix@,
{
    let mut out: Vec<char> = Vec::new();
    append_str(&mut out, "entries[");
    append_chars(&mut out, &decimal_chars(i));
    append_str(&mut out, suffix);
    string_of(&out)
}

fn alias_field_name(i: usize, j: usize) -> (r: String)
    ensures
        r@ == alias_field(i as nat, j as nat),
{
    let mut out: Vec<char> = Vec::new();
    append_str(&mut out, "entries[");
    append_chars(&mut out, &decimal_chars(i));
    append_str(&mut out, "].aliases[");
    append_chars(&mut out, &decimal_chars(j));
    append_str(&mut out, "]");
    let r = string_of(&out);
    assert(r@ =~= alias_field(i as nat, j as nat));
    r
}

proof fn lemma_alias_error_persists(
    raw: Seq<Seq<char>>,
    k: nat,
    n: nat,
    i: nat,
    id: Seq<char>,
    term: Seq<char>,
    owners: Map<Seq<char>, Seq<char>>,
)
    requires
        k <= n,
        alias_progress(raw, k, i, id, term, owners) is Err,
    ensures
        alias_progress(raw, n, i, id, term, owners) == alias_progress(raw, k, i, id, term, owners),
    decreases n,
{
    if n > k {
        lemma_alias_error_persists(raw, k, (n - 1) as nat, i, id, term, owners);
    }
}

proof fn lemma_entry_progress_step(entries: Seq<EntryModel>, i: nat)
    ensures
        entry_progress(entries, i + 1) == match entry_progress(entries, i) {
            Err(e) => Err(e),
            Ok(p) => normalize_entry(entries[i as int], i, p),
        },
{
    reveal(entry_progress);
}

proof fn lemma_entry_step_error(entries: Seq<EntryModel>, i: nat, p: EntryProgress, e: ErrorModel)
    requires
        i < entries.len(),
        entry_progress(entries, i) == Ok::<EntryProgress, ErrorModel>(p),
        normalize_entry(entries[i as int], i, p) == Err::<EntryProgress, ErrorModel>(e),
    ensures
        entry_progress(entries, entries.len()) == Err::<EntryProgress, ErrorModel>(e),
{
    lemma_entry_progress_step(entries, i);
    lemma_entry_error_persists(entries, i + 1, entries.len());
}

proof fn lemma_entry_error_persists(entries: Seq<EntryModel>, k: nat, n: nat)
    requires
        k <= n,
        entry_progress(entries, k) is Err,
    ensures
        entry_progress(entries, n) == entry_progress(entries, k),
    decreases n,
{
    if n > k {
        lemma_entry_error_persists(entries, k, (n - 1) as nat);
        lemma_entry_progress_step(entries, (n - 1) as nat);
    }
}

/// Validates and normalizes the aliases of entry `i`.
fn normalize_aliases(
    raw: &Vec<String>,
    i: usize,
    id: &Vec<char>,
    term: &Vec<char>,
    owners: &mut OwnerTable,
) -> (r: Result<Vec<String>, DictionaryError>)
    requires
        old(owners).wf(),
    ensures
        match alias_progress(
            string_views(raw@),
            raw@.len(),
            i as nat,
            id@,
            term@,
            old(owners).model@,
        ) {
            Ok(p) => match r {
                Ok(v) => string_views(v@) == p.aliases && final(owners).wf() && final(owners).model@
                    == p.owners,
                Err(_) => false,
            },
            Err(e) => match r {
                Err(err) => err@ == e,
                Ok(_) => false,
            },
        },
{
    let ghost rawm = string_views(raw@);
    let ghost owners0 = owners.model@;
    let mut seen: Vec<Vec<char>> = Vec::new();
    seen.push(comparison_key(term));
    let mut out: Vec<String> = Vec::new();
    assert(char_views(seen@) =~= seq![fold_key(term@)]);
    assert(string_views(out@) =~= Seq::<Seq<char>>::empty());
    for j in 0..raw.len()
        invariant
            rawm == string_views(raw@),
            owners0 == old(owners).model@,
            owners.wf(),
            alias_progress(rawm, j as nat, i as nat, id@, term@, owners0) == Ok::<
                AliasProgress,
                ErrorModel,
            >(
                AliasProgress {
                    owners: owners.model@,
                    seen: char_views(seen@),
                    aliases: string_views(out@),
                },
            ),
    {
        let ghost prev = alias_progress(rawm, j as nat, i as nat, id@, term@, owners0);
        let alias_raw = chars_of(raw[j].as_str());
        assert(rawm[j as int] == alias_raw@);
        if contains_char(&alias_raw, '\0') {
            proof {
                lemma_alias_error_persists(
                    rawm,
                    (j + 1) as nat,
                    raw@.len(),
                    i as nat,
                    id@,
                    term@,
                    owners0,
                );
            }
            return Err(DictionaryError::NullByte { field: alias_field_name(i, j) });
        }
        let alias = normalize_chars(&alias_raw);
        if alias.len() == 0 {
            proof {
                lemma_alias_error_persists(
                    rawm,
                    (j + 1) as nat,
                    raw@.len(),
                    i as nat,
                    id@,
                    term@,
                    owners0,
                );
            }
            return Err(DictionaryError::EmptyAlias { entry_id: string_of(id), alias_index: j });
        }
        let key = comparison_key(&alias);
        match owners.register(&key, term) {
            Err(e) => {
                proof {
                    lemma_alias_error_persists(
                        rawm,
                        (j + 1) as nat,
                        raw@.len(),
                        i as nat,
                        id@,
                        term@,
                        owners0,
                    );
                }
                return Err(e);
            },
            Ok(()) => {},
        }
        match find_chars(&seen, &key) {
            Some(w) => {
                assert(char_views(seen@)[w as int] == key@);
            },
            None => {
                seen.push(key);
                out.push(string_of(&alias));
                assert(char_views(seen@) =~= prev->Ok_0.seen.push(key@));
                assert(string_views(out@) =~= prev->Ok_0.aliases.push(alias@));
            },
        }
    }
    assert(raw@.len() == rawm.len());
    Ok(out)
}

} // verus!

verus! {

/// Rejects sizes above [`MAX_DICTIONARY_BYTES`].
pub fn ensure_size(size: usize) -> (r: Result<(), DictionaryError>)
    ensures
        size <= MAX_DICTIONARY_BYTES ==> r is Ok,
        size > MAX_DICTIONARY_BYTES ==> r == Err::<(), DictionaryError>(
            DictionaryError::DocumentTooLarge { size, max: MAX_DICTIONARY_BYTES },
        ),
{
    if size > MAX_DICTIONARY_BYTES {
        Err(DictionaryError::DocumentTooLarge { size, max: MAX_DICTIONARY_BYTES })
    } else {
        Ok(())
    }
}

/// Rejects documents whose compact JSON text exceeds the size limit.
fn validate_serialized_size(document: &DictionaryDocument) -> (r: Result<(), DictionaryError>)
    ensures
        match size_check(document@) {
            None => r is Ok,
            Some(e) => match r {
                Err(err) => err@ == e,
                Ok(_) => false,
            },
        },
{
    reveal(size_check);
    let text = compact_json(document);
    ensure_size(text.len())
}

/// The state tables that normalization threads through the entries.
fn normalize_one(
    entry: &DictionaryEntry,
    i: usize,
    ids: &mut Vec<Vec<char>>,
    owners: &mut OwnerTable,
    Ghost(done): Ghost<Seq<EntryModel>>,
) -> (r: Result<DictionaryEntry, DictionaryError>)
    requires
        old(owners).wf(),
    ensures
        match normalize_entry(
            entry@,
            i as nat,
            EntryProgress { entries: done, ids: char_views(old(ids)@), owners: old(owners).model@ },
        ) {
            Ok(p) => match r {
                Ok(e) => p == (EntryProgress {
                    entries: done.push(e@),
                    ids: char_views(final(ids)@),
                    owners: final(owners).model@,
                }) && final(owners).wf(),
                Err(_) => false,
            },
            Err(err) => match r {
                Err(e) => e@ == err,
                Ok(_) => false,
            },
        },
{
    reveal(normalize_entry);
    if entry.aliases.len() > MAX_ALIASES_PER_ENTRY {
        return Err(
            DictionaryError::TooManyAliases {
                entry_index: i,
                count: entry.aliases.len(),
                max: MAX_ALIASES_PER_ENTRY,
            },
        );
    }
    let id_raw = chars_of(entry.id.as_str());
    if contains_char(&id_raw, '\0') {
        return Err(DictionaryError::NullByte { field: field_name(i, "].id") });
    }
    let id = normalize_chars(&id_raw);
    if id.len() == 0 {
        return Err(DictionaryError::EmptyId { entry_index: i });
    }
    match find_chars(ids, &id) {
        Some(w) => {
            assert(char_views(ids@)[w as int] == id@);
            return Err(DictionaryError::DuplicateId { id: string_of(&id) });
        },
        None => {},
    }
    let term_raw = chars_of(entry.term.as_str());
    if contains_char(&term_raw, '\0') {
        return Err(DictionaryError::NullByte { field: field_name(i, "].term") });
    }
    let term = normalize_chars(&term_raw);
    if term.len() == 0 {
        return Err(DictionaryError::EmptyCanonicalTerm { entry_id: string_of(&id) });
    }
    let key = comparison_key(&term);
    match owners.register(&key, &term) {
        Err(e) => {
            return Err(e);
        },
        Ok(()) => {},
    }
    let aliases = match normalize_aliases(&entry.aliases, i, &id, &term, owners) {
        Err(e) => {
            return Err(e);
        },
        Ok(a) => a,
    };
    let ghost old_ids = char_views(ids@);
    ids.push(id.clone());
    assert(char_views(ids@) =~= old_ids.push(id@));
    let result = DictionaryEntry {
        id: string_of(&id),
        term: string_of(&term),
        aliases,
        enabled: entry.enabled,
    };
    assert(result@.aliases == string_views(result.aliases@));
    Ok(result)
}

impl DictionaryDocument {
    /// The canonical form of this document, or the first reason it is
    /// invalid (see [`normalize_document`]).
    #[verifier::rlimit(60)]
    pub fn normalized(&self) -> (r: Result<Self, DictionaryError>)
        ensures
            document_result_model(r) == normalize_document(self@),
    {
        if self.version != DICTIONARY_VERSION {
            return Err(DictionaryError::UnsupportedVersion { version: self.version });
        }
        if self.entries.len() > MAX_DICTIONARY_ENTRIES {
            return Err(
                DictionaryError::TooManyEntries {
                    count: self.entries.len(),
                    max: MAX_DICTIONARY_ENTRIES,
                },
            );
        }
        match validate_serialized_size(self) {
            Err(e) => {
                return Err(e);
            },
            Ok(()) => {},
        }
        let ghost es = self@.entries;
        let mut entries: Vec<DictionaryEntry> = Vec::new();
        let mut ids: Vec<Vec<char>> = Vec::new();
        let mut owners = OwnerTable::new();
        proof {
            reveal(entry_progress);
        }
        assert(char_views(ids@) =~= Seq::<Seq<char>>::empty());
        assert(entries@.map_values(|e: DictionaryEntry| e@) =~= Seq::<EntryModel>::empty());
        for i in 0..self.entries.len()
            invariant
                es == self@.entries,
                es.len() == self.entries@.len(),
                self.version == DICTIONARY_VERSION,
                es.len() <= MAX_DICTIONARY_ENTRIES,
                size_check(self@) is None,
                entries@.len() == i,
                owners.wf(),
                entry_progress(es, i as nat) == Ok::<EntryProgress, ErrorModel>(
                    EntryProgress {
                        entries: entries@.map_values(|e: DictionaryEntry| e@),
                        ids: char_views(ids@),
                        owners: owners.model@,
                    },
                ),
        {
            assert(es[i as int] == self.entries@[i as int]@);
            let ghost done = entries@.map_values(|e: DictionaryEntry| e@);
            let ghost old_ids = ids@;
            let ghost old_owners = owners.model@;
            match normalize_one(&self.entries[i], i, &mut ids, &mut owners, Ghost(done)) {
                Err(e) => {
                    proof {
                        lemma_entry_step_error(
                            es,
                            i as nat,
                            EntryProgress { entries: done, ids: char_views(old_ids), owners: old_owners },
                            e@,
                        );
                    }
                    return Err(e);
                },
                Ok(entry) => {
                    proof {
                        lemma_entry_progress_step(es, i as nat);
                    }
                    entries.push(entry);
                    assert(entries@.map_values(|e: DictionaryEntry| e@) =~= done.push(
                        entries@[i as int]@,
                    ));
                },
            }
        }
        let normalized = DictionaryDocument {
            version: DICTIONARY_VERSION,
            enabled: self.enabled,
            entries,
        };
        match validate_serialized_size(&normalized) {
            Err(e) => {
                return Err(e);
            },
            Ok(()) => {},
        }
        Ok(normalized)
    }
}

} // verus!

verus! {

fn copy_strings(v: &Vec<String>) -> (r: Vec<String>)
    ensures
        r@ == v@,
{
    let mut out: Vec<String> = Vec::new();
    for i in 0..v.len()
        invariant
            out@ == v@.take(i as int),
    {
        out.push(v[i].clone());
        assert(out@ =~= v@.take(i + 1));
    }
    assert(v@.take(v@.len() as int) =~= v@);
    out
}

impl DictionaryEntry {
    /// A copy of this entry.
    pub fn duplicate(&self) -> (r: Self)
        ensures
            r@ == self@,
    {
        DictionaryEntry {
            id: self.id.clone(),
            term: self.term.clone(),
            aliases: copy_strings(&self.aliases),
            enabled: self.enabled,
        }
    }
}

impl DictionaryDocument {
    /// A copy of this document.
    pub fn duplicate(&self) -> (r: Self)
        ensures
            r@ == self@,
    {
        let mut entries: Vec<DictionaryEntry> = Vec::new();
        for i in 0..self.entries.len()
            invariant
                entries@.len() == i,
                forall|j: int| 0 <= j < i ==> #[trigger] entries@[j]@ == self.entries@[j]@,
        {
            let d = self.entries[i].duplicate();
            entries.push(d);
        }
        let r = DictionaryDocument { version: self.version, enabled: self.enabled, entries };
        assert(r@.entries =~= self@.entries);
        assert(r@ =~= self@);
        r
    }
}

} // verus!

verus! {

/// The text of an error, as it is shown to the user.
pub open spec fn error_message(e: ErrorModel) -> Seq<char> {
    match e {
        ErrorModel::AliasConflict { alias, first_canonical_term, second_canonical_term } => "alias "@
            + debug_str(alias) + " belongs to both "@ + debug_str(first_canonical_term) + " and "@
            + debug_str(second_canonical_term),
        ErrorModel::CorruptJson { message } => "invalid dictionary JSON: "@ + message,
        ErrorModel::DocumentTooLarge { size, max } => "dictionary is "@ + decimal(size)
            + " bytes; maximum is "@ + decimal(max),
        ErrorModel::DuplicateId { id } => "duplicate dictionary entry id "@ + debug_str(id),
        ErrorModel::EmptyAlias { entry_id, alias_index } => "entry "@ + debug_str(entry_id)
            + " has an empty alias at "@ + decimal(alias_index),
        ErrorModel::EmptyCanonicalTerm { entry_id } => "entry "@ + debug_str(entry_id)
            + " has an empty canonical term"@,
        ErrorModel::EmptyId { entry_index } => "entry at index "@ + decimal(entry_index)
            + " has an empty id"@,
        ErrorModel::Storage { operation, message } => operation + ": "@ + message,
        ErrorModel::TooManyAliases { entry_index, count, max } => "entry at index "@ + decimal(
            entry_index,
        ) + " has "@ + decimal(count) + " aliases; maximum is "@ + decimal(max),
        ErrorModel::TooManyEntries { count, max } => "dictionary has "@ + decimal(count)
            + " entries; maximum is "@ + decimal(max),
        ErrorModel::Unavailable { message } => "dictionary unavailable: "@ + message,
        ErrorModel::NullByte { field } => field + " contains a null byte"@,
        ErrorModel::Regex { message } => "failed to compile dictionary: "@ + message,
        ErrorModel::Serialization { message } => "serialize dictionary: "@ + message,
        ErrorModel::UnsupportedVersion { version } => "unsupported dictionary version "@ + decimal(
            version as nat,
        ),
    }
}

fn text(s: &str) -> (r: String)
    ensures
        r@ == s@,
{
    String::from_str(s)
}

fn push_str(out: &mut String, s: &str)
    ensures
        final(out)@ == old(out)@ + s@,
{
    out.append(s);
}

fn push_string(out: &mut String, s: &String)
    ensures
        final(out)@ == old(out)@ + s@,
{
    out.append(s.as_str());
}

impl DictionaryError {
    /// The text of this error, as it is shown to the user.
    pub fn message(&self) -> (r: String)
        ensures
            r@ == error_message(self@),
    {
        match self {
            DictionaryError::AliasConflict { alias, first_canonical_term, second_canonical_term } => {
                let mut out = text("alias ");
                push_string(&mut out, &debug_quote(alias.as_str()));
                push_str(&mut out, " belongs to both ");
                push_string(&mut out, &debug_quote(first_canonical_term.as_str()));
                push_str(&mut out, " and ");
                push_string(&mut out, &debug_quote(second_canonical_term.as_str()));
                out
            },
            DictionaryError::CorruptJson { message } => {
                let mut out = text("invalid dictionary JSON: ");
                push_string(&mut out, message);
                out
            },
            DictionaryError::DocumentTooLarge { size, max } => {
                let mut out = text("dictionary is ");
                push_string(&mut out, &decimal_string(*size));
                push_str(&mut out, " bytes; maximum is ");
                push_string(&mut out, &decimal_string(*max));
                out
            },
            DictionaryError::DuplicateId { id } => {
                let mut out = text("duplicate dictionary entry id ");
                push_string(&mut out, &debug_quote(id.as_str()));
                out
            },
            DictionaryError::EmptyAlias { entry_id, alias_index } => {
                let mut out = text("entry ");
                push_string(&mut out, &debug_quote(entry_id.as_str()));
                push_str(&mut out, " has an empty alias at ");
                push_string(&mut out, &decimal_string(*alias_index));
                out
            },
            DictionaryError::EmptyCanonicalTerm { entry_id } => {
                let mut out = text("entry ");
                push_string(&mut out, &debug_quote(entry_id.as_str()));
                push_str(&mut out, " has an empty canonical term");
                out
            },
            DictionaryError::EmptyId { entry_index } => {
                let mut out = text("entry at index ");
                push_string(&mut out, &decimal_string(*entry_index));
                push_str(&mut out, " has an empty id");
                out
            },
            DictionaryError::Storage { operation, message } => {
                let mut out = operation.clone();
                push_str(&mut out, ": ");
                push_string(&mut out, message);
                out
            },
            DictionaryError::TooManyAliases { entry_index, count, max } => {
                let mut out = text("entry at index ");
                push_string(&mut out, &decimal_string(*entry_index));
                push_str(&mut out, " has ");
                push_string(&mut out, &decimal_string(*count));
                push_str(&mut out, " aliases; maximum is ");
                push_string(&mut out, &decimal_string(*max));
                out
            },
            DictionaryError::TooManyEntries { count, max } => {
                let mut out = text("dictionary has ");
                push_string(&mut out, &decimal_string(*count));
                push_str(&mut out, " entries; maximum is ");
                push_string(&mut out, &decimal_string(*max));
                out
            },
            DictionaryError::Unavailable { message } => {
                let mut out = text("dictionary unavailable: ");
                push_string(&mut out, message);
                out
            },
            DictionaryError::NullByte { field } => {
                let mut out = field.clone();
                push_str(&mut out, " contains a null byte");
                out
            },
            DictionaryError::Regex { message } => {
                let mut out = text("failed to compile dictionary: ");
                push_string(&mut out, message);
                out
            },
            DictionaryError::Serialization { message } => {
                let mut out = text("serialize dictionary: ");
                push_string(&mut out, message);
                out
            },
            DictionaryError::UnsupportedVersion { version } => {
                let mut out = text("unsupported dictionary version ");
                push_string(&mut out, &decimal_string(*version as usize));
                out
            },
        }
    }
}

} // verus!
