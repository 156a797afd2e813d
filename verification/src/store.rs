//! The dictionary held by the running application: the document in use,
//! its compiled snapshot and the error of the last failed load. The store
//! fails closed: whenever loading failed, its snapshot changes nothing.
//! Reading and writing the file are the caller's part; the store decides
//! what each outcome does to its state.

use crate::canonical::law_normalized_is_canonical;
use crate::compiled::{compile_outcome, document_rules, first_regex_error, DictionarySnapshot};
use crate::dictionary::{
    default_document, document_result_model, ensure_size, normalize_document, pretty_document,
    pretty_json, DictionaryDocument, DictionaryError, DocumentModel, ErrorModel,
    MAX_DICTIONARY_BYTES,
};
use crate::matcher::{law_no_rules_keep_text, replace_all, Rule};
use crate::models::{join_dir, join_path};
use vstd::prelude::*;

verus! {

/// Mathematical model of the store.
pub struct StoreModel {
    pub path: Option<Seq<char>>,
    pub current: DocumentModel,
    pub rules: Seq<Rule>,
    pub load_error: Option<ErrorModel>,
}

pub struct DictionaryStore {
    path: Option<String>,
    current: DictionaryDocument,
    snapshot: DictionarySnapshot,
    load_error: Option<DictionaryError>,
}

pub open spec fn error_option_model(e: Option<DictionaryError>) -> Option<ErrorModel> {
    match e {
        Some(e) => Some(e@),
        None => None,
    }
}

/// The state after a failed load.
pub open spec fn failed_model(path: Option<Seq<char>>, e: ErrorModel) -> StoreModel {
    StoreModel { path, current: default_document(), rules: Seq::empty(), load_error: Some(e) }
}

/// The state after a successful load of the canonical document `n`.
pub open spec fn loaded_model(path: Option<Seq<char>>, n: DocumentModel) -> StoreModel {
    StoreModel { path, current: n, rules: document_rules(n), load_error: None }
}

/// The error reported when the store has no file: its load error, or a
/// generic "unavailable" error.
pub open spec fn no_path_error(load_error: Option<ErrorModel>) -> ErrorModel {
    match load_error {
        Some(e) => e,
        None => ErrorModel::Unavailable { message: "dictionary path is unavailable"@ },
    }
}

/// The canonical form of `d` when it is valid and all its phrases compile.
pub open spec fn usable_document(d: DocumentModel) -> Result<DocumentModel, ErrorModel> {
    match normalize_document(d) {
        Err(e) => Err(e),
        Ok(n) => match first_regex_error(document_rules(n)) {
            Some(m) => Err(ErrorModel::Regex { message: m }),
            None => Ok(n),
        },
    }
}

/// What reading the file gave, once normalized and compiled.
pub open spec fn load_outcome(read: Result<DocumentModel, ErrorModel>) -> Result<DocumentModel, ErrorModel> {
    match read {
        Err(e) => Err(e),
        Ok(d) => usable_document(d),
    }
}

/// Normalizes and compiles what reading the file gave.
fn compile_read(read: Result<DictionaryDocument, DictionaryError>) -> (r: Result<
    (DictionaryDocument, DictionarySnapshot),
    DictionaryError,
>)
    ensures
        match load_outcome(document_result_model(read)) {
            Ok(n) => r matches Ok((d, s)) && d@ == n && s.rules() == document_rules(n),
            Err(e) => r matches Err(err) && err@ == e,
        },
{
    let document = match read {
        Ok(d) => d,
        Err(e) => {
            return Err(e);
        },
    };
    let normalized = match document.normalized() {
        Ok(n) => n,
        Err(e) => {
            return Err(e);
        },
    };
    proof {
        law_normalized_is_canonical(document@);
    }
    match DictionarySnapshot::from_normalized(&normalized) {
        Ok(snapshot) => Ok((normalized, snapshot)),
        Err(e) => Err(e),
    }
}

impl View for DictionaryStore {
    type V = StoreModel;

    closed spec fn view(&self) -> StoreModel {
        StoreModel {
            path: match self.path {
                Some(p) => Some(p@),
                None => None,
            },
            current: self.current@,
            rules: self.snapshot.rules(),
            load_error: error_option_model(self.load_error),
        }
    }
}

impl DictionaryStore {
    #[verifier::type_invariant]
    spec fn fails_closed(&self) -> bool {
        match self.load_error {
            Some(_) => self.snapshot.rules() == Seq::<Rule>::empty(),
            None => self.snapshot.rules() == document_rules(self.current@),
        }
    }

    fn failed(path: Option<String>, error: DictionaryError) -> (r: Self)
        ensures
            r@ == failed_model(
                match path {
                    Some(p) => Some(p@),
                    None => None,
                },
                error@,
            ),
    {
        DictionaryStore {
            path,
            current: DictionaryDocument::new_default(),
            snapshot: DictionarySnapshot::disabled(),
            load_error: Some(error),
        }
    }

    /// A store without a file, failed with an `Unavailable` error carrying
    /// `message`.
    pub fn unavailable(message: String) -> (r: Self)
        ensures
            r@ == failed_model(None, ErrorModel::Unavailable { message: message@ }),
    {
        Self::failed(None, DictionaryError::Unavailable { message })
    }

    /// The store for the file at `path`, given what reading it gave: the
    /// parsed document (the default document when the file does not exist),
    /// or the error that stopped reading or parsing it.
    pub fn from_loaded(path: String, read: Result<DictionaryDocument, DictionaryError>) -> (r: Self)
        ensures
            r@ == match load_outcome(document_result_model(read)) {
                Ok(n) => loaded_model(Some(path@), n),
                Err(e) => failed_model(Some(path@), e),
            },
    {
        match compile_read(read) {
            Ok((document, snapshot)) => {
                DictionaryStore { path: Some(path), current: document, snapshot, load_error: None }
            },
            Err(e) => Self::failed(Some(path), e),
        }
    }

    /// The file this store reads and writes, if it has one.
    pub fn path(&self) -> (r: Option<&String>)
        ensures
            match r {
                Some(p) => self@.path == Some(p@),
                None => self@.path is None,
            },
    {
        self.path.as_ref()
    }

    /// The document in use.
    pub fn current(&self) -> (r: &DictionaryDocument)
        ensures
            r@ == self@.current,
    {
        &self.current
    }

    /// The error of the last failed load, if the store is failed.
    pub fn load_error(&self) -> (r: Option<&DictionaryError>)
        ensures
            match r {
                Some(e) => self@.load_error == Some(e@),
                None => self@.load_error is None,
            },
    {
        self.load_error.as_ref()
    }

    /// The compiled dictionary in use.
    pub fn snapshot(&self) -> (r: DictionarySnapshot)
        ensures
            r.rules() == self@.rules,
            self@.load_error is Some ==> self@.rules == Seq::<Rule>::empty(),
            self@.load_error is None ==> self@.rules == document_rules(self@.current),
    {
        proof {
            use_type_invariant(self);
        }
        self.snapshot.share()
    }

    /// Applies what re-reading the file gave (`read`, as for
    /// [`Self::from_loaded`]; ignored when the store has no file). On success
    /// the reloaded document becomes current and the load error clears; on
    /// failure the snapshot is disabled, the error is kept and the current
    /// document stays.
    pub fn reload(&mut self, read: Result<DictionaryDocument, DictionaryError>) -> (r: Result<
        DictionaryDocument,
        DictionaryError,
    >)
        ensures
            match old(self)@.path {
                None => {
                    &&& document_result_model(r) == Err::<DocumentModel, ErrorModel>(
                        no_path_error(old(self)@.load_error),
                    )
                    &&& final(self)@ == StoreModel {
                        rules: Seq::empty(),
                        load_error: Some(no_path_error(old(self)@.load_error)),
                        ..old(self)@
                    }
                },
                Some(p) => match load_outcome(document_result_model(read)) {
                    Ok(n) => {
                        &&& document_result_model(r) == Ok::<DocumentModel, ErrorModel>(n)
                        &&& final(self)@ == loaded_model(Some(p), n)
                    },
                    Err(e) => {
                        &&& document_result_model(r) == Err::<DocumentModel, ErrorModel>(e)
                        &&& final(self)@ == StoreModel {
                            rules: Seq::empty(),
                            load_error: Some(e),
                            ..old(self)@
                        }
                    },
                },
            },
    {
        let path = match &self.path {
            Some(p) => p.clone(),
            None => {
                let error = match &self.load_error {
                    Some(e) => e.duplicate(),
                    None => DictionaryError::Unavailable {
                        message: String::from_str("dictionary path is unavailable"),
                    },
                };
                let current = self.current.duplicate();
                *self = DictionaryStore {
                    path: None,
                    current,
                    snapshot: DictionarySnapshot::disabled(),
                    load_error: Some(error.duplicate()),
                };
                return Err(error);
            },
        };
        match compile_read(read) {
            Ok((document, snapshot)) => {
                let result = document.duplicate();
                *self = DictionaryStore {
                    path: Some(path),
                    current: document,
                    snapshot,
                    load_error: None,
                };
                Ok(result)
            },
            Err(e) => {
                let current = self.current.duplicate();
                *self = DictionaryStore {
                    path: Some(path),
                    current,
                    snapshot: DictionarySnapshot::disabled(),
                    load_error: Some(e.duplicate()),
                };
                Err(e)
            },
        }
    }
}

/// A validated change of the stored document, ready to be written: the
/// canonical document, its compiled snapshot, and the bytes to write to
/// `path`. The store takes it over with [`DictionaryStore::commit_update`]
/// once the bytes are on disk.
pub struct PendingUpdate {
    path: String,
    document: DictionaryDocument,
    snapshot: DictionarySnapshot,
    bytes: Vec<u8>,
}

impl PendingUpdate {
    #[verifier::type_invariant]
    spec fn compiled_from_document(&self) -> bool {
        self.snapshot.rules() == document_rules(self.document@)
    }

    pub closed spec fn path_view(&self) -> Seq<char> {
        self.path@
    }

    pub closed spec fn document_view(&self) -> DocumentModel {
        self.document@
    }

    pub closed spec fn bytes_view(&self) -> Seq<u8> {
        self.bytes@
    }

    /// The file to write.
    pub fn path(&self) -> (r: &String)
        ensures
            r@ == self.path_view(),
    {
        &self.path
    }

    /// The canonical document that the update stores.
    pub fn document(&self) -> (r: &DictionaryDocument)
        ensures
            r@ == self.document_view(),
    {
        &self.document
    }

    /// The pretty JSON text to write.
    pub fn bytes(&self) -> (r: &Vec<u8>)
        ensures
            r@ == self.bytes_view(),
    {
        &self.bytes
    }
}

/// What an update of the store to `document` does before anything is
/// written: the file it goes to (or the error of a store without a file),
/// the canonical form of the document, and the size of its pretty JSON text.
pub open spec fn update_plan(store: StoreModel, document: DocumentModel) -> Result<
    (Seq<char>, DocumentModel),
    ErrorModel,
> {
    match store.path {
        None => Err(no_path_error(store.load_error)),
        Some(p) => match usable_document(document) {
            Err(e) => Err(e),
            Ok(n) => if pretty_document(n).len() > MAX_DICTIONARY_BYTES {
                Err(
                    ErrorModel::DocumentTooLarge {
                        size: pretty_document(n).len(),
                        max: MAX_DICTIONARY_BYTES as nat,
                    },
                )
            } else {
                Ok((p, n))
            },
        },
    }
}

impl DictionaryStore {
    /// Validates an update of the store to `document`. Nothing changes until
    /// the returned bytes are written and [`Self::commit_update`] is called;
    /// an error leaves the store as it was.
    pub fn prepare_update(&self, document: &DictionaryDocument) -> (r: Result<
        PendingUpdate,
        DictionaryError,
    >)
        ensures
            match update_plan(self@, document@) {
                Ok((p, n)) => match r {
                    Ok(u) => {
                        &&& u.path_view() == p
                        &&& u.document_view() == n
                        &&& u.bytes_view() == pretty_document(n)
                    },
                    Err(_) => false,
                },
                Err(e) => match r {
                    Err(err) => err@ == e,
                    Ok(_) => false,
                },
            },
    {
        let path = match &self.path {
            Some(p) => p.clone(),
            None => {
                return Err(
                    match &self.load_error {
                        Some(e) => e.duplicate(),
                        None => DictionaryError::Unavailable {
                            message: String::from_str("dictionary path is unavailable"),
                        },
                    },
                );
            },
        };
        let normalized = match document.normalized() {
            Ok(n) => n,
            Err(e) => {
                return Err(e);
            },
        };
        proof {
            law_normalized_is_canonical(document@);
        }
        let snapshot = match DictionarySnapshot::from_normalized(&normalized) {
            Ok(s) => s,
            Err(e) => {
                return Err(e);
            },
        };
        let bytes = pretty_json(&normalized);
        match ensure_size(bytes.len()) {
            Err(e) => {
                return Err(e);
            },
            Ok(()) => {},
        }
        Ok(PendingUpdate { path, document: normalized, snapshot, bytes })
    }

    /// Validates a reset of the store to the default document.
    pub fn prepare_reset(&self) -> (r: Result<PendingUpdate, DictionaryError>)
        ensures
            match update_plan(self@, default_document()) {
                Ok((p, n)) => match r {
                    Ok(u) => {
                        &&& u.path_view() == p
                        &&& u.document_view() == n
                        &&& u.bytes_view() == pretty_document(n)
                    },
                    Err(_) => false,
                },
                Err(e) => match r {
                    Err(err) => err@ == e,
                    Ok(_) => false,
                },
            },
    {
        self.prepare_update(&DictionaryDocument::new_default())
    }

    /// Finishes an update once writing its bytes was attempted: when the
    /// write succeeded its document becomes current, its snapshot is used,
    /// the load error clears and the stored document is returned; when it
    /// failed the store stays as it was and the write's error is returned.
    pub fn commit_update(&mut self, update: PendingUpdate, written: Result<(), DictionaryError>) -> (r: Result<
        DictionaryDocument,
        DictionaryError,
    >)
        ensures
            match written {
                Ok(()) => {
                    &&& r matches Ok(d) && d@ == update.document_view()
                    &&& final(self)@ == loaded_model(old(self)@.path, update.document_view())
                },
                Err(e) => r == Err::<DictionaryDocument, DictionaryError>(e) && final(self)@ == old(self)@,
            },
    {
        proof {
            use_type_invariant(&update);
        }
        if let Err(e) = written {
            return Err(e);
        }
        let path = match &self.path {
            Some(p) => Some(p.clone()),
            None => None,
        };
        let PendingUpdate { path: _, document, snapshot, bytes: _ } = update;
        let result = document.duplicate();
        *self = DictionaryStore { path, current: document, snapshot, load_error: None };
        Ok(result)
    }
}

/// What an update of the store to `d` comes to once writing its text was
/// attempted (`written`): the stored canonical document and the new state,
/// or the error and the state as it was.
pub open spec fn update_outcome(s: StoreModel, d: DocumentModel, written: Result<(), ErrorModel>) -> (
    Result<DocumentModel, ErrorModel>,
    StoreModel,
) {
    match update_plan(s, d) {
        Err(e) => (Err(e), s),
        Ok((_, n)) => match written {
            Err(e) => (Err(e), s),
            Ok(()) => (Ok(n), loaded_model(s.path, n)),
        },
    }
}

/// An update is all or nothing. It succeeds exactly when the store has a
/// file, the document is valid, all its phrases compile, its pretty text
/// fits the size limit and the write succeeds. Then the canonical form of
/// the document becomes current, the load error clears, the rules in use
/// are those the saved document compiles to, and the file stays the same.
/// Otherwise the store is left exactly as it was.
pub proof fn law_update_is_all_or_nothing(s: StoreModel, d: DocumentModel, written: Result<(), ErrorModel>)
    ensures
        update_outcome(s, d, written).0 is Ok <==> {
            &&& s.path is Some
            &&& compile_outcome(d) is Ok
            &&& pretty_document(normalize_document(d)->Ok_0).len() <= MAX_DICTIONARY_BYTES
            &&& written is Ok
        },
        match update_outcome(s, d, written) {
            (Ok(n), after) => {
                &&& normalize_document(d) == Ok::<DocumentModel, ErrorModel>(n)
                &&& compile_outcome(d) == Ok::<Seq<Rule>, ErrorModel>(after.rules)
                &&& compile_outcome(n) == Ok::<Seq<Rule>, ErrorModel>(after.rules)
                &&& after.current == n
                &&& after.load_error is None
                &&& after.path == s.path
            },
            (Err(_), after) => after == s,
        },
{
    law_normalized_is_canonical(d);
}

} // verus!

verus! {

/// A store whose load failed leaves every text unchanged.
pub proof fn law_failed_store_keeps_text(path: Option<Seq<char>>, e: ErrorModel, t: Seq<char>)
    ensures
        replace_all(failed_model(path, e).rules, t) == t,
{
    law_no_rules_keep_text(t);
}

/// The dictionary file in the app data directory `dir`.
pub fn dictionary_path(dir: &String) -> (r: String)
    ensures
        r@ == join_path(dir@, "dictionary.json"@),
{
    join_dir(dir, &String::from_str("dictionary.json"))
}

/// A failure of the file operation `operation`, with the system's message.
pub fn storage_error(operation: &str, message: String) -> (r: DictionaryError)
    ensures
        r@ == (ErrorModel::Storage { operation: operation@, message: message@ }),
{
    DictionaryError::Storage { operation: String::from_str(operation), message }
}

} // verus!
