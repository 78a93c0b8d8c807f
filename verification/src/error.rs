//! The library's error type.

use crate::text::{
    append_decimal, append_signed_decimal, debug_quoted, debug_text, decimal, signed_decimal,
};
use vstd::prelude::*;
use vstd::string::*;

verus! {

pub type SearchxResult<T> = Result<T, SearchxError>;

/// What can go wrong. A failure of the file system, of the index or of the database carries the
/// text in which it was reported.
#[allow(inconsistent_fields)]
#[derive(Debug, Clone)]
pub enum SearchxError {
    Io { message: String },
    Ignore { message: String },
    Heed { message: String },
    Milli { message: String },
    Sqlite { message: String },
    SerdeJson { message: String },
    IntegerConversion,
    StripPrefix,
    ManifestIntegerOverflow { field: &'static str, value: u64 },
    ManifestNegativeValue { field: &'static str, value: i64 },
    IndexedEntryWithSkipReason { reason: String },
    MissingSkipReason,
    InvalidManifestState { state: String, reason: Option<String> },
    ScanCanceled,
    IndexingCanceled,
    IndexingPipelineDisconnected,
    ScanThreadPanicked { message: String },
    EmbeddingThreadPanicked { message: String },
    Embedding { message: String },
}

/// The `Debug` formatting of an optional text.
pub open spec fn debug_option(text: Option<Seq<char>>) -> Seq<char> {
    match text {
        Some(text) => "Some("@ + debug_text(text) + ")"@,
        None => "None"@,
    }
}

impl SearchxError {
    /// The text in which the error is reported.
    pub open spec fn text(&self) -> Seq<char> {
        match self {
            SearchxError::Io { message } => message@,
            SearchxError::Ignore { message } => message@,
            SearchxError::Heed { message } => message@,
            SearchxError::Milli { message } => message@,
            SearchxError::Sqlite { message } => message@,
            SearchxError::SerdeJson { message } => message@,
            SearchxError::IntegerConversion =>
                "out of range integral type conversion attempted"@,
            SearchxError::StripPrefix => "prefix not found"@,
            SearchxError::ManifestIntegerOverflow { field, value } => "manifest "@ + field@
                + " value "@ + decimal(*value as nat) + " exceeds sqlite INTEGER range"@,
            SearchxError::ManifestNegativeValue { field, value } => "manifest "@ + field@
                + " value "@ + signed_decimal(*value as int) + " is negative and invalid"@,
            SearchxError::IndexedEntryWithSkipReason { reason } =>
                "indexed entry cannot have skip reason "@ + reason@,
            SearchxError::MissingSkipReason => "skipped entry is missing a skip reason"@,
            SearchxError::InvalidManifestState { state, reason } => "invalid manifest state "@
                + debug_text(state@) + " with reason "@ + debug_option(reason.deep_view()),
            SearchxError::ScanCanceled => "scan canceled"@,
            SearchxError::IndexingCanceled => "indexing canceled"@,
            SearchxError::IndexingPipelineDisconnected => "indexing pipeline disconnected"@,
            SearchxError::ScanThreadPanicked { message } => "scan thread panicked: "@ + message@,
            SearchxError::EmbeddingThreadPanicked { message } => "embedding thread panicked: "@
                + message@,
            SearchxError::Embedding { message } => "embedding failed: "@ + message@,
        }
    }

    /// The text in which the error is reported.
    pub fn to_text(&self) -> (text: String)
        ensures
            text@ == self.text(),
    {
        match self {
            SearchxError::Io { message } => message.clone(),
            SearchxError::Ignore { message } => message.clone(),
            SearchxError::Heed { message } => message.clone(),
            SearchxError::Milli { message } => message.clone(),
            SearchxError::Sqlite { message } => message.clone(),
            SearchxError::SerdeJson { message } => message.clone(),
            SearchxError::IntegerConversion =>
                "out of range integral type conversion attempted".to_string(),
            SearchxError::StripPrefix => "prefix not found".to_string(),
            SearchxError::ManifestIntegerOverflow { field, value } => {
                let mut text = "manifest ".to_string();
                text.append(field);
                text.append(" value ");
                append_decimal(&mut text, *value);
                text.append(" exceeds sqlite INTEGER range");
                text
            },
            SearchxError::ManifestNegativeValue { field, value } => {
                let mut text = "manifest ".to_string();
                text.append(field);
                text.append(" value ");
                append_signed_decimal(&mut text, *value);
                text.append(" is negative and invalid");
                text
            },
            SearchxError::IndexedEntryWithSkipReason { reason } => {
                let mut text = "indexed entry cannot have skip reason ".to_string();
                text.append(reason.as_str());
                text
            },
            SearchxError::MissingSkipReason => "skipped entry is missing a skip reason".to_string(),
            SearchxError::InvalidManifestState { state, reason } => {
                let mut text = "invalid manifest state ".to_string();
                text.append(debug_quoted(state.as_str()).as_str());
                text.append(" with reason ");
                match reason {
                    Some(reason) => {
                        let mut shown = "Some(".to_string();
                        shown.append(debug_quoted(reason.as_str()).as_str());
                        shown.append(")");
                        text.append(shown.as_str());
                    },
                    None => text.append("None"),
                }
                text
            },
            SearchxError::ScanCanceled => "scan canceled".to_string(),
            SearchxError::IndexingCanceled => "indexing canceled".to_string(),
            SearchxError::IndexingPipelineDisconnected =>
                "indexing pipeline disconnected".to_string(),
            SearchxError::ScanThreadPanicked { message } => {
                let mut text = "scan thread panicked: ".to_string();
                text.append(message.as_str());
                text
            },
            SearchxError::EmbeddingThreadPanicked { message } => {
                let mut text = "embedding thread panicked: ".to_string();
                text.append(message.as_str());
                text
            },
            SearchxError::Embedding { message } => {
                let mut text = "embedding failed: ".to_string();
                text.append(message.as_str());
                text
            },
        }
    }
}

/// An error that carries a message is reported with it, at the end; one of a field and a value names
/// both.
pub proof fn law_error_is_reported_with_its_message(message: String, field: &'static str, n: u64, i: i64)
    ensures
        (SearchxError::Io { message }).text() == message@,
        (SearchxError::Ignore { message }).text() == message@,
        (SearchxError::Heed { message }).text() == message@,
        (SearchxError::Milli { message }).text() == message@,
        (SearchxError::Sqlite { message }).text() == message@,
        (SearchxError::SerdeJson { message }).text() == message@,
        message@.is_suffix_of((SearchxError::ScanThreadPanicked { message }).text()),
        message@.is_suffix_of((SearchxError::EmbeddingThreadPanicked { message }).text()),
        message@.is_suffix_of((SearchxError::Embedding { message }).text()),
        message@.is_suffix_of((SearchxError::IndexedEntryWithSkipReason { reason: message }).text()),
        tells_both(
            (SearchxError::ManifestIntegerOverflow { field, value: n }).text(),
            field@,
            decimal(n as nat),
        ),
        tells_both(
            (SearchxError::ManifestNegativeValue { field, value: i }).text(),
            field@,
            signed_decimal(i as int),
        ),
{
    lemma_told_last("scan thread panicked: "@, message@);
    lemma_told_last("embedding thread panicked: "@, message@);
    lemma_told_last("embedding failed: "@, message@);
    lemma_told_last("indexed entry cannot have skip reason "@, message@);
}

/// The text tells one text, and then another.
pub open spec fn tells_both(text: Seq<char>, first: Seq<char>, second: Seq<char>) -> bool {
    exists|head: Seq<char>, between: Seq<char>, rest: Seq<char>|
        text == #[trigger] (head + first + between + second + rest)
}

proof fn lemma_told_last(head: Seq<char>, message: Seq<char>)
    ensures
        message.is_suffix_of(head + message),
{
    let text = head + message;
    assert(message =~= text.subrange(text.len() - message.len(), text.len() as int));
}

/// An error is reported by its text.
pub proof fn law_error_is_reported_by_its_text(error: SearchxError, text: String)
    requires
        call_ensures(SearchxError::to_text, (&error,), text),
    ensures
        text@ == error.text(),
        error matches SearchxError::Io { message } ==> text@ == message@,
        error matches SearchxError::Embedding { message } ==> message@.is_suffix_of(text@),
{
    if let SearchxError::Embedding { message } = error {
        lemma_told_last("embedding failed: "@, message@);
    }
}

} // verus!
