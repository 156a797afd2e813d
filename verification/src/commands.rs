//! The errors that the dictionary commands report to the settings window,
//! and the read of the stored dictionary that those commands answer.

use crate::dictionary::{error_message, DictionaryDocument, DictionaryError, DocumentModel, ErrorModel};
use crate::canonical::law_normalized_is_canonical;
use crate::compiled::document_rules;
use crate::store::{loaded_model, update_plan, DictionaryStore, StoreModel};
use vstd::prelude::*;

verus! {

/// The stable category of a dictionary command failure.
#[derive(Clone, Copy, Debug, PartialEq, Eq, Structural)]
pub enum DictionaryErrorCode {
    CorruptJson,
    UnsupportedVersion,
    Storage,
    Validation,
    Unavailable,
    Internal,
}

/// A dictionary command failure: its category and its text.
#[derive(Clone, Debug, PartialEq, Eq)]
pub struct DictionaryCommandError {
    pub code: DictionaryErrorCode,
    pub message: String,
}

/// The category under which an error is reported.
pub open spec fn error_code(e: ErrorModel) -> DictionaryErrorCode {
    match e {
        ErrorModel::CorruptJson { .. } => DictionaryErrorCode::CorruptJson,
        ErrorModel::UnsupportedVersion { .. } => DictionaryErrorCode::UnsupportedVersion,
        ErrorModel::Storage { .. } => DictionaryErrorCode::Storage,
        ErrorModel::Unavailable { .. } => DictionaryErrorCode::Unavailable,
        ErrorModel::Regex { .. } | ErrorModel::Serialization { .. } => DictionaryErrorCode::Internal,
        _ => DictionaryErrorCode::Validation,
    }
}

impl DictionaryCommandError {
    /// An internal failure with the given text.
    pub fn internal(message: String) -> (r: Self)
        ensures
            r.code == DictionaryErrorCode::Internal,
            r.message@ == message@,
    {
        DictionaryCommandError { code: DictionaryErrorCode::Internal, message }
    }

    /// The report of `error`: its category and its text.
    pub fn from_error(error: DictionaryError) -> (r: Self)
        ensures
            r.code == error_code(error@),
            r.message@ == error_message(error@),
    {
        let code = match &error {
            DictionaryError::CorruptJson { .. } => DictionaryErrorCode::CorruptJson,
            DictionaryError::UnsupportedVersion { .. } => DictionaryErrorCode::UnsupportedVersion,
            DictionaryError::Storage { .. } => DictionaryErrorCode::Storage,
            DictionaryError::Unavailable { .. } => DictionaryErrorCode::Unavailable,
            DictionaryError::AliasConflict { .. }
            | DictionaryError::DocumentTooLarge { .. }
            | DictionaryError::DuplicateId { .. }
            | DictionaryError::EmptyAlias { .. }
            | DictionaryError::EmptyCanonicalTerm { .. }
            | DictionaryError::EmptyId { .. }
            | DictionaryError::NullByte { .. }
            | DictionaryError::TooManyAliases { .. }
            | DictionaryError::TooManyEntries { .. } => DictionaryErrorCode::Validation,
            DictionaryError::Regex { .. } | DictionaryError::Serialization { .. } => {
                DictionaryErrorCode::Internal
            },
        };
        DictionaryCommandError { code, message: error.message() }
    }
}

/// What the command that reads the dictionary answers for a store: its
/// load error, or its current document.
pub open spec fn get_dictionary_answer(load_error: Option<ErrorModel>, current: DocumentModel) -> Result<
    DocumentModel,
    (DictionaryErrorCode, Seq<char>),
> {
    match load_error {
        Some(e) => Err((error_code(e), error_message(e))),
        None => Ok(current),
    }
}

/// Answers the command that reads the dictionary: a store whose last load
/// failed reports that failure; otherwise its current document.
pub fn get_dictionary_from(store: &DictionaryStore) -> (r: Result<DictionaryDocument, DictionaryCommandError>)
    ensures
        match get_dictionary_answer(store@.load_error, store@.current) {
            Ok(d) => r matches Ok(doc) && doc@ == d,
            Err((code, message)) => r matches Err(err) && err.code == code && err.message@ == message,
        },
{
    match store.load_error() {
        Some(error) => Err(DictionaryCommandError::from_error(error.duplicate())),
        None => Ok(store.current().duplicate()),
    }
}

} // verus!

verus! {

/// What a read gives back of a write: after a successful update, the
/// dictionary command answers the canonical document that was written, the
/// snapshot in use is compiled from it, and writing that answer back again
/// would store the very same document.
pub proof fn law_read_after_update(s: StoreModel, d: DocumentModel)
    ensures
        match update_plan(s, d) {
            Ok((p, n)) => {
                let after = loaded_model(s.path, n);
                &&& get_dictionary_answer(after.load_error, after.current) == Ok::<
                    DocumentModel,
                    (DictionaryErrorCode, Seq<char>),
                >(n)
                &&& after.rules == document_rules(n)
                &&& update_plan(after, n) == Ok::<(Seq<char>, DocumentModel), ErrorModel>((p, n))
            },
            Err(_) => true,
        },
{
    law_normalized_is_canonical(d);
}

} // verus!
