//! The manifest: what is known of each file, and how it is stored.

use crate::constants::MANIFEST_VERSION;
use crate::error::SearchxError;
use crate::error::debug_option;
use crate::paths::{display_text, displayed, path_bytes};
use crate::text::{debug_text, signed_decimal, text_eq};
use crate::text_map::TextMap;
use std::path::Path;
use vstd::prelude::*;
use vstd::string::*;

verus! {

/// What is known of the files below a root.
#[derive(Debug, PartialEq, Eq)]
pub struct Manifest {
    pub version: u32,
    pub root: String,
    pub files: TextMap<ManifestEntry>,
}

/// A [`Manifest`] as text and a map.
pub struct ManifestView {
    pub version: u32,
    pub root: Seq<char>,
    pub files: Map<Seq<char>, ManifestEntry>,
}

impl View for Manifest {
    type V = ManifestView;

    open spec fn view(&self) -> ManifestView {
        ManifestView { version: self.version, root: self.root@, files: self.files@ }
    }
}

/// What is known of one file: its size, when it was modified, and what became of it.
#[derive(Debug, Clone, Copy, PartialEq, Eq, Structural)]
pub struct ManifestEntry {
    pub size: u64,
    pub modified_secs: u64,
    pub modified_nanos: u32,
    pub state: FileState,
}

/// What became of a file.
#[derive(Debug, Clone, Copy, PartialEq, Eq, Structural)]
pub enum FileState {
    /// Indexed with its contents.
    Indexed,
    /// Indexed with its contents, the embedding still to come.
    IndexedPendingEmbedding,
    /// Indexed by its name alone.
    IndexedMetadata { reason: SkipReason },
    /// Indexed by its name alone, the embedding still to come.
    IndexedMetadataPendingEmbedding { reason: SkipReason },
    /// Not indexed.
    Skipped { reason: SkipReason },
}

/// Why the contents of a file are left out.
#[derive(Debug, Clone, Copy, PartialEq, Eq, Structural)]
pub enum SkipReason {
    TooLarge,
    Binary,
}

/// By what a file is taken to be unchanged.
#[derive(Debug, Clone, Copy, PartialEq, Eq, Structural)]
pub struct FileFingerprint {
    pub size: u64,
    pub modified_secs: u64,
    pub modified_nanos: u32,
}

impl Manifest {
    /// The manifest of a root of which nothing is known.
    #[must_use]
    pub fn new(root: &Path) -> (manifest: Self)
        ensures
            manifest@ == empty_manifest(displayed(path_bytes(root))),
    {
        Manifest::for_root(display_text(root))
    }

    /// The manifest of a root of which nothing is known, given how the root is displayed.
    pub fn for_root(root: String) -> (manifest: Self)
        ensures
            manifest@ == empty_manifest(root@),
    {
        Manifest { version: MANIFEST_VERSION, root, files: TextMap::new() }
    }
}

/// The manifest of a root of which nothing is known.
pub open spec fn empty_manifest(root: Seq<char>) -> ManifestView {
    ManifestView { version: MANIFEST_VERSION, root, files: Map::empty() }
}

impl Clone for Manifest {
    fn clone(&self) -> (manifest: Self)
        ensures
            manifest@ == self@,
            manifest.files.ordered() == self.files.ordered(),
    {
        let files = self.files.clone();
        assert(files.ordered() =~= self.files.ordered());
        Manifest { version: self.version, root: self.root.clone(), files }
    }
}

impl Default for Manifest {
    fn default() -> (manifest: Self)
        ensures
            manifest@ == (ManifestView { version: 0, root: Seq::empty(), files: Map::empty() }),
    {
        Manifest { version: 0, root: String::new(), files: TextMap::new() }
    }
}

impl FileState {
    /// The file has a document in the index, or is about to have one.
    pub open spec fn indexed(self) -> bool {
        !(self is Skipped)
    }

    /// The contents of the file are left out.
    pub open spec fn without_contents(self) -> bool {
        ||| self is IndexedMetadata
        ||| self is IndexedMetadataPendingEmbedding
        ||| self is Skipped
    }

    /// The embedding of the file's document has not been stored yet.
    pub open spec fn pending(self) -> bool {
        ||| self is IndexedPendingEmbedding
        ||| self is IndexedMetadataPendingEmbedding
    }
}

impl ManifestEntry {
    /// What the entry says of the file itself.
    pub open spec fn fingerprint(self) -> FileFingerprint {
        FileFingerprint {
            size: self.size,
            modified_secs: self.modified_secs,
            modified_nanos: self.modified_nanos,
        }
    }

    pub fn from_fingerprint(fingerprint: FileFingerprint, state: FileState) -> (entry: Self)
        ensures
            entry.fingerprint() == fingerprint,
            entry.state == state,
    {
        ManifestEntry {
            size: fingerprint.size,
            modified_secs: fingerprint.modified_secs,
            modified_nanos: fingerprint.modified_nanos,
            state,
        }
    }

    /// Whether the file is as it was when the entry was made.
    pub fn matches(&self, fingerprint: FileFingerprint) -> (same: bool)
        ensures
            same == (self.fingerprint() == fingerprint),
    {
        self.size == fingerprint.size && self.modified_secs == fingerprint.modified_secs
            && self.modified_nanos == fingerprint.modified_nanos
    }

    pub fn is_indexed(&self) -> (indexed: bool)
        ensures
            indexed == self.state.indexed(),
            indexed == !(self.state is Skipped),
    {
        match self.state {
            FileState::Skipped { .. } => false,
            _ => true,
        }
    }

    pub fn skips_contents(&self) -> (skips: bool)
        ensures
            skips == self.state.without_contents(),
            skips == !(self.state is Indexed || self.state is IndexedPendingEmbedding),
    {
        match self.state {
            FileState::Indexed | FileState::IndexedPendingEmbedding => false,
            _ => true,
        }
    }

    pub fn embedding_pending(&self) -> (pending: bool)
        ensures
            pending == self.state.pending(),
            pending == !(self.state is Indexed || self.state is IndexedMetadata
                || self.state is Skipped),
    {
        match self.state {
            FileState::IndexedPendingEmbedding => true,
            FileState::IndexedMetadataPendingEmbedding { .. } => true,
            _ => false,
        }
    }
}

impl FileFingerprint {
    /// From the size of a file and the time since the epoch at which it was modified, in seconds
    /// and nanoseconds; where that time is unknown it is taken to be the epoch.
    pub fn from_metadata(size: u64, modified: Option<(u64, u32)>) -> (fingerprint: Self)
        ensures
            fingerprint == (match modified {
                Some((secs, nanos)) => FileFingerprint {
                    size,
                    modified_secs: secs,
                    modified_nanos: nanos,
                },
                None => FileFingerprint { size, modified_secs: 0, modified_nanos: 0 },
            }),
    {
        match modified {
            Some((secs, nanos)) => FileFingerprint {
                size,
                modified_secs: secs,
                modified_nanos: nanos,
            },
            None => FileFingerprint { size, modified_secs: 0, modified_nanos: 0 },
        }
    }
}

/// How a skip reason is stored.
pub open spec fn reason_column(reason: SkipReason) -> Seq<char> {
    match reason {
        SkipReason::TooLarge => "too_large"@,
        SkipReason::Binary => "binary"@,
    }
}

/// How a file state is stored: the state column and the reason column.
pub open spec fn state_columns(state: FileState) -> (Seq<char>, Option<Seq<char>>) {
    match state {
        FileState::Indexed => ("indexed"@, None),
        FileState::IndexedPendingEmbedding => ("indexed_pending_embedding"@, None),
        FileState::IndexedMetadata { reason } => ("indexed"@, Some(reason_column(reason))),
        FileState::IndexedMetadataPendingEmbedding { reason } => (
            "indexed_pending_embedding"@,
            Some(reason_column(reason)),
        ),
        FileState::Skipped { reason } => ("skipped"@, Some(reason_column(reason))),
    }
}

/// The skip reason that a column stands for, where there is one.
pub open spec fn column_reason(column: Seq<char>) -> Option<SkipReason> {
    if column == "too_large"@ {
        Some(SkipReason::TooLarge)
    } else if column == "binary"@ {
        Some(SkipReason::Binary)
    } else {
        None
    }
}

/// The state that a pair of columns stands for, where there is one.
pub open spec fn columns_state(columns: (Seq<char>, Option<Seq<char>>)) -> Option<FileState> {
    match columns.1 {
        None => if columns.0 == "indexed"@ {
            Some(FileState::Indexed)
        } else if columns.0 == "indexed_pending_embedding"@ {
            Some(FileState::IndexedPendingEmbedding)
        } else {
            None
        },
        Some(column) => match column_reason(column) {
            Some(reason) => if columns.0 == "indexed"@ {
                Some(FileState::IndexedMetadata { reason })
            } else if columns.0 == "indexed_pending_embedding"@ {
                Some(FileState::IndexedMetadataPendingEmbedding { reason })
            } else if columns.0 == "skipped"@ {
                Some(FileState::Skipped { reason })
            } else {
                None
            },
            None => None,
        },
    }
}

/// An optional text as characters.
pub open spec fn optional_text(text: Option<&str>) -> Option<Seq<char>> {
    match text {
        Some(text) => Some(text@),
        None => None,
    }
}

proof fn lemma_column_texts_differ()
    ensures
        "too_large"@ != "binary"@,
        "indexed"@ != "indexed_pending_embedding"@,
        "indexed"@ != "skipped"@,
        "indexed_pending_embedding"@ != "skipped"@,
{
    reveal_strlit("too_large");
    reveal_strlit("binary");
    reveal_strlit("indexed");
    reveal_strlit("indexed_pending_embedding");
    reveal_strlit("skipped");
    assert("too_large"@.len() == 9 && "binary"@.len() == 6);
    assert("indexed"@.len() == 7 && "skipped"@.len() == 7);
    assert("indexed_pending_embedding"@.len() == 25);
    assert("indexed"@[0] == 'i' && "skipped"@[0] == 's');
}

/// A stored file state reads back as the state that was stored.
pub proof fn law_state_columns_read_back(state: FileState)
    ensures
        columns_state(state_columns(state)) == Some(state),
{
    lemma_column_texts_differ();
}

/// The columns in which a file state is stored.
pub fn file_state_to_db(state: &FileState) -> (columns: (&'static str, Option<&'static str>))
    ensures
        (columns.0@, optional_text(columns.1)) == state_columns(*state),
{
    match state {
        FileState::Indexed => ("indexed", None),
        FileState::IndexedPendingEmbedding => ("indexed_pending_embedding", None),
        FileState::IndexedMetadata { reason } => ("indexed", Some(skip_reason_to_db(reason))),
        FileState::IndexedMetadataPendingEmbedding { reason } => (
            "indexed_pending_embedding",
            Some(skip_reason_to_db(reason)),
        ),
        FileState::Skipped { reason } => ("skipped", Some(skip_reason_to_db(reason))),
    }
}

fn skip_reason_to_db(reason: &SkipReason) -> (column: &'static str)
    ensures
        column@ == reason_column(*reason),
{
    match reason {
        SkipReason::TooLarge => "too_large",
        SkipReason::Binary => "binary",
    }
}

/// The error that columns without a state give.
pub open spec fn is_state_error(
    error: SearchxError,
    columns: (Seq<char>, Option<Seq<char>>),
) -> bool {
    if columns == ("skipped"@, None::<Seq<char>>) {
        error is MissingSkipReason
    } else {
        error matches SearchxError::InvalidManifestState { state, reason } && (
            state@,
            reason.deep_view(),
        ) == columns
    }
}

/// Reads a file state back from its columns.
pub fn file_state_from_db(state: &str, skip_reason: Option<&str>) -> (result: Result<
    FileState,
    SearchxError,
>)
    ensures
        match columns_state((state@, optional_text(skip_reason))) {
            Some(stored) => result is Ok && result->Ok_0 == stored,
            None => result is Err && is_state_error(
                result->Err_0,
                (state@, optional_text(skip_reason)),
            ),
        },
{
    proof {
        lemma_column_texts_differ();
    }
    let reason: Option<SkipReason> = match skip_reason {
        Some(text) => if text_eq(text, "too_large") {
            Some(SkipReason::TooLarge)
        } else if text_eq(text, "binary") {
            Some(SkipReason::Binary)
        } else {
            None
        },
        None => None,
    };
    let known = match (skip_reason, reason) {
        (Some(_), None) => false,
        _ => true,
    };
    if known {
        if text_eq(state, "indexed") {
            return match reason {
                Some(reason) => Ok(FileState::IndexedMetadata { reason }),
                None => Ok(FileState::Indexed),
            };
        }
        if text_eq(state, "indexed_pending_embedding") {
            return match reason {
                Some(reason) => Ok(FileState::IndexedMetadataPendingEmbedding { reason }),
                None => Ok(FileState::IndexedPendingEmbedding),
            };
        }
        if text_eq(state, "skipped") {
            return match reason {
                Some(reason) => Ok(FileState::Skipped { reason }),
                None => Err(SearchxError::MissingSkipReason),
            };
        }
    }
    Err(
        SearchxError::InvalidManifestState {
            state: state.to_string(),
            reason: match skip_reason {
                Some(text) => Some(text.to_string()),
                None => None,
            },
        },
    )
}

/// A size or time as a database integer.
pub fn i64_from_u64(value: u64, field: &'static str) -> (result: Result<i64, SearchxError>)
    ensures
        if value <= i64::MAX {
            result is Ok && result->Ok_0 == value
        } else {
            result is Err && result->Err_0 == (SearchxError::ManifestIntegerOverflow {
                field,
                value,
            })
        },
{
    if value <= i64::MAX as u64 {
        Ok(value as i64)
    } else {
        Err(SearchxError::ManifestIntegerOverflow { field, value })
    }
}

/// A database integer as a size or time.
pub fn u64_from_i64(value: i64, field: &'static str) -> (result: Result<u64, SearchxError>)
    ensures
        if value >= 0 {
            result is Ok && result->Ok_0 == value
        } else {
            result is Err && result->Err_0 == (SearchxError::ManifestNegativeValue {
                field,
                value,
            })
        },
{
    if value >= 0 {
        Ok(value as u64)
    } else {
        Err(SearchxError::ManifestNegativeValue { field, value })
    }
}

/// A row of a manifest table.
#[derive(Debug, Clone, PartialEq, Eq)]
pub struct ManifestRow {
    pub path: String,
    pub size: i64,
    pub modified_secs: i64,
    pub modified_nanos: i64,
    pub state: String,
    pub skip_reason: Option<String>,
}

/// The columns of a [`ManifestRow`] beside its path.
pub struct RowColumns {
    pub size: i64,
    pub modified_secs: i64,
    pub modified_nanos: i64,
    pub state: Seq<char>,
    pub skip_reason: Option<Seq<char>>,
}

impl ManifestRow {
    pub open spec fn columns(&self) -> RowColumns {
        RowColumns {
            size: self.size,
            modified_secs: self.modified_secs,
            modified_nanos: self.modified_nanos,
            state: self.state@,
            skip_reason: self.skip_reason.deep_view(),
        }
    }
}

impl View for ManifestRow {
    type V = (Seq<char>, RowColumns);

    open spec fn view(&self) -> (Seq<char>, RowColumns) {
        (self.path@, self.columns())
    }
}

impl DeepView for ManifestRow {
    type V = (Seq<char>, RowColumns);

    open spec fn deep_view(&self) -> (Seq<char>, RowColumns) {
        self@
    }
}

/// The columns in which an entry is stored.
pub open spec fn entry_columns(entry: ManifestEntry) -> RowColumns {
    RowColumns {
        size: entry.size as i64,
        modified_secs: entry.modified_secs as i64,
        modified_nanos: entry.modified_nanos as i64,
        state: state_columns(entry.state).0,
        skip_reason: state_columns(entry.state).1,
    }
}

/// The entry can be stored: its size and time fit a database integer.
pub open spec fn storable(entry: ManifestEntry) -> bool {
    entry.size <= i64::MAX && entry.modified_secs <= i64::MAX
}

/// The text of the error that columns without a state give.
pub open spec fn state_error_text(columns: (Seq<char>, Option<Seq<char>>)) -> Seq<char> {
    if columns == ("skipped"@, None::<Seq<char>>) {
        "skipped entry is missing a skip reason"@
    } else {
        "invalid manifest state "@ + debug_text(columns.0) + " with reason "@ + debug_option(
            columns.1,
        )
    }
}

/// The text of the error that a negative value gives.
pub open spec fn negative_text(field: Seq<char>, value: i64) -> Seq<char> {
    "manifest "@ + field + " value "@ + signed_decimal(value as int) + " is negative and invalid"@
}

/// The entry that columns stand for, or the text of the error they give.
pub open spec fn columns_entry(columns: RowColumns) -> Result<ManifestEntry, Seq<char>> {
    match columns_state((columns.state, columns.skip_reason)) {
        None => Err(state_error_text((columns.state, columns.skip_reason))),
        Some(state) => if columns.size < 0 {
            Err(negative_text("size"@, columns.size))
        } else if columns.modified_secs < 0 {
            Err(negative_text("modified_secs"@, columns.modified_secs))
        } else if !(0 <= columns.modified_nanos <= u32::MAX) {
            Err("out of range integral type conversion attempted"@)
        } else {
            Ok(
                ManifestEntry {
                    size: columns.size as u64,
                    modified_secs: columns.modified_secs as u64,
                    modified_nanos: columns.modified_nanos as u32,
                    state,
                },
            )
        },
    }
}

/// The error is the one that the columns call for.
pub open spec fn is_columns_error(error: SearchxError, columns: RowColumns) -> bool {
    if columns_state((columns.state, columns.skip_reason)) is None {
        is_state_error(error, (columns.state, columns.skip_reason))
    } else if columns.size < 0 {
        error matches SearchxError::ManifestNegativeValue { field, value } && field@ == "size"@
            && value == columns.size
    } else if columns.modified_secs < 0 {
        error matches SearchxError::ManifestNegativeValue { field, value } && field@
            == "modified_secs"@ && value == columns.modified_secs
    } else {
        error is IntegerConversion
    }
}

/// A stored entry reads back as the entry that was stored.
pub proof fn law_entry_columns_read_back(entry: ManifestEntry)
    requires
        storable(entry),
    ensures
        columns_entry(entry_columns(entry)) == Ok::<ManifestEntry, Seq<char>>(entry),
{
    law_state_columns_read_back(entry.state);
}

/// The row in which an entry is stored under its path.
pub fn manifest_row(path: &str, entry: &ManifestEntry) -> (row: Result<ManifestRow, SearchxError>)
    ensures
        if storable(*entry) {
            row is Ok && row->Ok_0@ == (path@, entry_columns(*entry))
        } else if entry.size > i64::MAX {
            row is Err && (row->Err_0 matches SearchxError::ManifestIntegerOverflow {
                field,
                value,
            } && field@ == "size"@ && value == entry.size)
        } else {
            row is Err && (row->Err_0 matches SearchxError::ManifestIntegerOverflow {
                field,
                value,
            } && field@ == "modified_secs"@ && value == entry.modified_secs)
        },
{
    let (state, skip_reason) = file_state_to_db(&entry.state);
    let size: i64 = match i64_from_u64(entry.size, "size") {
        Ok(value) => value,
        Err(error) => return Err(error),
    };
    let modified_secs: i64 = match i64_from_u64(entry.modified_secs, "modified_secs") {
        Ok(value) => value,
        Err(error) => return Err(error),
    };
    Ok(
        ManifestRow {
            path: path.to_string(),
            size,
            modified_secs,
            modified_nanos: entry.modified_nanos as i64,
            state: state.to_string(),
            skip_reason: match skip_reason {
                Some(reason) => Some(reason.to_string()),
                None => None,
            },
        },
    )
}

/// The entry that a row stands for.
pub fn entry_from_row(row: &ManifestRow) -> (entry: Result<ManifestEntry, SearchxError>)
    ensures
        match columns_entry(row.columns()) {
            Ok(stored) => entry is Ok && entry->Ok_0 == stored,
            Err(text) => entry is Err && is_columns_error(entry->Err_0, row.columns())
                && entry->Err_0.text() == text,
        },
{
    let skip_reason: Option<&str> = match &row.skip_reason {
        Some(reason) => Some(reason.as_str()),
        None => None,
    };
    assert(optional_text(skip_reason) == row.columns().skip_reason);
    let state = match file_state_from_db(row.state.as_str(), skip_reason) {
        Ok(state) => state,
        Err(error) => return Err(error),
    };
    let size: u64 = match u64_from_i64(row.size, "size") {
        Ok(value) => value,
        Err(error) => return Err(error),
    };
    let modified_secs: u64 = match u64_from_i64(row.modified_secs, "modified_secs") {
        Ok(value) => value,
        Err(error) => return Err(error),
    };
    if row.modified_nanos < 0 || row.modified_nanos > u32::MAX as i64 {
        return Err(SearchxError::IntegerConversion);
    }
    Ok(ManifestEntry { size, modified_secs, modified_nanos: row.modified_nanos as u32, state })
}

/// The files that rows stand for, or the text of the first row's error. Of two rows with one
/// path the later counts.
pub open spec fn rows_files(rows: Seq<(Seq<char>, RowColumns)>) -> Result<
    Map<Seq<char>, ManifestEntry>,
    Seq<char>,
>
    decreases rows.len(),
{
    if rows.len() == 0 {
        Ok(Map::empty())
    } else {
        match rows_files(rows.drop_last()) {
            Err(text) => Err(text),
            Ok(files) => match columns_entry(rows.last().1) {
                Err(text) => Err(text),
                Ok(entry) => Ok(files.insert(rows.last().0, entry)),
            },
        }
    }
}

/// Once a row gives an error, the rows after it do not matter.
proof fn lemma_rows_error_stays(rows: Seq<(Seq<char>, RowColumns)>, n: int)
    requires
        0 <= n <= rows.len(),
        rows_files(rows.take(n)) is Err,
    ensures
        rows_files(rows) == rows_files(rows.take(n)),
    decreases rows.len(),
{
    if n == rows.len() {
        assert(rows.take(n) =~= rows);
    } else {
        assert(rows.drop_last().take(n) =~= rows.take(n));
        lemma_rows_error_stays(rows.drop_last(), n);
    }
}

/// Collects the files of a manifest table.
pub fn files_from_rows(rows: &Vec<ManifestRow>) -> (files: Result<
    TextMap<ManifestEntry>,
    SearchxError,
>)
    ensures
        match rows_files(rows.deep_view()) {
            Ok(stored) => files is Ok && files->Ok_0@ == stored,
            Err(text) => files is Err && files->Err_0.text() == text,
        },
        files is Err ==> exists|i: int|
            0 <= i < rows@.len() && is_columns_error(files->Err_0, (#[trigger] rows@[i]).columns()),
{
    let ghost all = rows.deep_view();
    let mut files: TextMap<ManifestEntry> = TextMap::new();
    for i in 0..rows.len()
        invariant
            all == rows.deep_view(),
            rows_files(all.take(i as int)) == Ok::<Map<Seq<char>, ManifestEntry>, Seq<char>>(
                files@,
            ),
    {
        assert(all.take(i + 1).drop_last() =~= all.take(i as int));
        assert(all.take(i + 1).last() == rows@[i as int]@);
        match entry_from_row(&rows[i]) {
            Ok(entry) => {
                files.insert(rows[i].path.clone(), entry);
            },
            Err(error) => {
                proof {
                    lemma_rows_error_stays(all, i + 1);
                }
                return Err(error);
            },
        }
    }
    assert(all.take(rows@.len() as int) =~= all);
    Ok(files)
}

/// Every state but that of a skipped file is one of a file with a document, there or about to come.
/// The contents are missing from those indexed by their names, and the embedding from those that
/// wait.
pub proof fn law_every_state_says_what_the_index_holds(state: FileState)
    ensures
        state.indexed() <==> state is Indexed || state is IndexedPendingEmbedding
            || state is IndexedMetadata || state is IndexedMetadataPendingEmbedding,
        state.without_contents() <==> !(state is Indexed) && !(state is IndexedPendingEmbedding),
        state.pending() <==> !(state is Indexed) && !(state is IndexedMetadata) && !(
        state is Skipped),
        state is Skipped ==> !state.indexed() && state.without_contents() && !state.pending(),
{
}

/// An entry fits a file exactly where size, seconds and nanoseconds are all the same.
pub proof fn law_fingerprints_tell_modified_files(entry: ManifestEntry, fingerprint: FileFingerprint)
    ensures
        entry.fingerprint() == fingerprint <==> entry.size == fingerprint.size
            && entry.modified_secs == fingerprint.modified_secs && entry.modified_nanos
            == fingerprint.modified_nanos,
{
}

/// The columns of a state name it: the first says whether the file is indexed, waits or is skipped,
/// the second why its contents are left out, where they are.
pub proof fn law_columns_name_the_state(state: FileState)
    ensures
        ({
            let (name, reason) = state_columns(state);
            &&& name == "skipped"@ <==> state is Skipped
            &&& name == "indexed_pending_embedding"@ <==> state.pending()
            &&& name == "indexed"@ <==> state is Indexed || state is IndexedMetadata
            &&& reason is Some <==> state.without_contents()
            &&& state.without_contents() ==> (reason == Some("too_large"@) <==> state
                == (FileState::IndexedMetadata { reason: SkipReason::TooLarge }) || state
                == (FileState::IndexedMetadataPendingEmbedding { reason: SkipReason::TooLarge })
                || state == (FileState::Skipped { reason: SkipReason::TooLarge }))
            &&& state.without_contents() ==> reason == Some("too_large"@) || reason == Some(
                "binary"@,
            )
        }),
{
    lemma_column_texts_differ();
}

/// What is stored of an entry are its own figures.
pub proof fn law_entry_is_stored_with_its_figures(entry: ManifestEntry)
    requires
        entry.size <= i64::MAX,
        entry.modified_secs <= i64::MAX,
    ensures
        storable(entry),
        entry_columns(entry).size == entry.size,
        entry_columns(entry).modified_secs == entry.modified_secs,
        entry_columns(entry).modified_nanos == entry.modified_nanos,
        (entry_columns(entry).state, entry_columns(entry).skip_reason) == state_columns(
            entry.state,
        ),
{
}

/// Columns that give an entry hold its figures, none of them negative; those that give none are at
/// fault in one of four ways.
pub proof fn law_columns_give_an_entry_or_a_fault(columns: RowColumns)
    ensures
        columns_entry(columns) matches Ok(entry) ==> entry.size == columns.size
            && entry.modified_secs == columns.modified_secs && entry.modified_nanos
            == columns.modified_nanos && columns_state((columns.state, columns.skip_reason))
            == Some(entry.state),
        columns_entry(columns) is Err <==> columns_state((columns.state, columns.skip_reason)) is None
            || columns.size < 0 || columns.modified_secs < 0 || columns.modified_nanos < 0
            || columns.modified_nanos > u32::MAX,
{
}

/// Only the columns of a state stand for it: whatever else a table holds is a fault.
pub proof fn law_only_columns_of_a_state_stand_for_it(
    columns: (Seq<char>, Option<Seq<char>>),
    state: FileState,
)
    requires
        columns_state(columns) == Some(state),
    ensures
        state_columns(state) == columns,
{
    lemma_column_texts_differ();
}

/// The manifest of a root of which nothing is known is that of the root, and empty.
pub proof fn law_new_manifest_knows_no_file(root: Seq<char>, path: Seq<char>)
    ensures
        empty_manifest(root).root == root,
        empty_manifest(root).version == MANIFEST_VERSION,
        !empty_manifest(root).files.contains_key(path),
{
}

/// A row that was made of an entry gives the entry back.
pub proof fn law_row_gives_its_entry_back(
    path: &str,
    entry: ManifestEntry,
    row: ManifestRow,
    read: Result<ManifestEntry, SearchxError>,
)
    requires
        call_ensures(manifest_row, (path, &entry), Ok(row)),
        call_ensures(entry_from_row, (&row,), read),
    ensures
        row.path@ == path@,
        row.size == entry.size,
        row.modified_secs == entry.modified_secs,
        row.modified_nanos == entry.modified_nanos,
        row.skip_reason is Some <==> entry.state is IndexedMetadata
            || entry.state is IndexedMetadataPendingEmbedding || entry.state is Skipped,
        row.state@ == "skipped"@ <==> entry.state is Skipped,
        row.state@ == "indexed"@ <==> entry.state is Indexed || entry.state is IndexedMetadata,
        read is Ok,
        read->Ok_0 == entry,
{
    law_state_columns_read_back(entry.state);
    law_columns_name_the_state(entry.state);
    assert(row.columns() == entry_columns(entry));
}

/// A state that was written into columns is read back from them.
pub proof fn law_written_state_is_read_back(
    state: FileState,
    columns: (&'static str, Option<&'static str>),
    read: Result<FileState, SearchxError>,
)
    requires
        call_ensures(file_state_to_db, (&state,), columns),
        call_ensures(file_state_from_db, (columns.0, columns.1), read),
    ensures
        read is Ok,
        read->Ok_0 == state,
{
    law_state_columns_read_back(state);
}

/// A text that is no column of a state is refused, with what was found.
pub proof fn law_unknown_columns_are_refused(
    state: &str,
    reason: Option<&str>,
    read: Result<FileState, SearchxError>,
)
    requires
        call_ensures(file_state_from_db, (state, reason), read),
    ensures
        state@ != "indexed"@ && state@ != "indexed_pending_embedding"@ && state@ != "skipped"@
            ==> read is Err,
        reason is Some && reason->Some_0@ != "too_large"@ && reason->Some_0@ != "binary"@
            ==> read is Err,
        state@ == "skipped"@ && reason is None ==> read is Err && read->Err_0
            is MissingSkipReason,
        read matches Err(SearchxError::InvalidManifestState { state: found, .. }) ==> found@
            == state@,
{
    lemma_column_texts_differ();
}

/// A number that fits a database integer comes back as it was; one that does not is refused with its
/// value.
pub proof fn law_number_is_stored_and_read_back(
    value: u64,
    field: &'static str,
    stored: Result<i64, SearchxError>,
    read: Result<u64, SearchxError>,
)
    requires
        call_ensures(i64_from_u64, (value, field), stored),
        stored is Ok ==> call_ensures(u64_from_i64, (stored->Ok_0, field), read),
    ensures
        stored is Ok <==> value < 0x8000_0000_0000_0000,
        stored is Ok ==> stored->Ok_0 == value && read is Ok && read->Ok_0 == value,
        stored is Err ==> stored->Err_0 == (SearchxError::ManifestIntegerOverflow {
            field,
            value,
        }),
{
}

/// A negative number is refused with its value.
pub proof fn law_negative_number_is_refused(
    value: i64,
    field: &'static str,
    read: Result<u64, SearchxError>,
)
    requires
        call_ensures(u64_from_i64, (value, field), read),
    ensures
        value < 0 <==> read is Err,
        value < 0 ==> read->Err_0 == (SearchxError::ManifestNegativeValue { field, value }),
        value >= 0 ==> read->Ok_0 == value,
{
}

/// An entry is made of a file as it is, fits it as long as nothing of it changes, and says of its
/// document what the state says.
pub proof fn law_entry_fits_the_file_it_was_made_of(
    size: u64,
    modified: Option<(u64, u32)>,
    fingerprint: FileFingerprint,
    state: FileState,
    entry: ManifestEntry,
    later: FileFingerprint,
    same: bool,
)
    requires
        call_ensures(FileFingerprint::from_metadata, (size, modified), fingerprint),
        call_ensures(ManifestEntry::from_fingerprint, (fingerprint, state), entry),
        call_ensures(ManifestEntry::matches, (&entry, later), same),
    ensures
        entry.size == size,
        modified is Some ==> entry.modified_secs == modified->Some_0.0 && entry.modified_nanos
            == modified->Some_0.1,
        modified is None ==> entry.modified_secs == 0 && entry.modified_nanos == 0,
        entry.state == state,
        same <==> later == fingerprint,
{
}

/// What an entry says of the index: all but a skipped file have a document there, or are about to.
pub proof fn law_entry_says_what_the_index_holds(
    entry: ManifestEntry,
    indexed: bool,
    skips: bool,
    pending: bool,
)
    requires
        call_ensures(ManifestEntry::is_indexed, (&entry,), indexed),
        call_ensures(ManifestEntry::skips_contents, (&entry,), skips),
        call_ensures(ManifestEntry::embedding_pending, (&entry,), pending),
    ensures
        match entry.state {
            FileState::Indexed => indexed && !skips && !pending,
            FileState::IndexedPendingEmbedding => indexed && !skips && pending,
            FileState::IndexedMetadata { .. } => indexed && skips && !pending,
            FileState::IndexedMetadataPendingEmbedding { .. } => indexed && skips && pending,
            FileState::Skipped { .. } => !indexed && skips && !pending,
        },
{
}

/// A new manifest is that of its root, and knows no file.
pub proof fn law_manifest_begins_empty(
    root: String,
    manifest: Manifest,
    directory: &Path,
    other: Manifest,
    path: Seq<char>,
)
    requires
        call_ensures(Manifest::for_root, (root,), manifest),
        call_ensures(Manifest::new, (directory,), other),
    ensures
        manifest.root@ == root@,
        other.root@ == displayed(path_bytes(directory)),
        manifest.version == MANIFEST_VERSION && other.version == MANIFEST_VERSION,
        !manifest.files@.contains_key(path) && !other.files@.contains_key(path),
{
}

/// A manifest table is read row by row: the entry of the last row of a path counts, and nothing else
/// is there.
pub proof fn law_table_is_read_row_by_row(
    rows: Vec<ManifestRow>,
    files: Result<TextMap<ManifestEntry>, SearchxError>,
    i: int,
    entry: Result<ManifestEntry, SearchxError>,
)
    requires
        call_ensures(files_from_rows, (&rows,), files),
        0 <= i < rows@.len(),
        call_ensures(entry_from_row, (&rows@[i],), entry),
        forall|j: int| i < j < rows@.len() ==> (#[trigger] rows@[j]).path@ != rows@[i].path@,
    ensures
        entry is Err ==> files is Err,
        files matches Ok(files) ==> files@.contains_key(rows@[i].path@) && entry
            == Ok::<ManifestEntry, SearchxError>(files@[rows@[i].path@]),
{
    let all = rows.deep_view();
    assert(all[i] == rows@[i]@);
    assert forall|j: int| i < j < all.len() implies (#[trigger] all[j]).0 != all[i].0 by {
        assert(all[j] == rows@[j]@);
        assert(rows@[j].path@ != rows@[i].path@);
    }
    lemma_last_row_counts(all, i);
}

proof fn lemma_last_row_counts(rows: Seq<(Seq<char>, RowColumns)>, i: int)
    requires
        0 <= i < rows.len(),
        forall|j: int| i < j < rows.len() ==> (#[trigger] rows[j]).0 != rows[i].0,
    ensures
        columns_entry(rows[i].1) is Err ==> rows_files(rows) is Err,
        rows_files(rows) matches Ok(files) ==> files.contains_key(rows[i].0) && columns_entry(
            rows[i].1,
        ) == Ok::<ManifestEntry, Seq<char>>(files[rows[i].0]),
    decreases rows.len(),
{
    let rest = rows.drop_last();
    if i < rest.len() {
        assert(rest[i] == rows[i]);
        assert forall|j: int| i < j < rest.len() implies (#[trigger] rest[j]).0 != rest[i].0 by {
            assert(rest[j] == rows[j]);
        }
        lemma_last_row_counts(rest, i);
        assert(rows[rows.len() - 1].0 != rows[i].0);
    }
}

/// Every file that a table gives stands in one of its rows.
pub proof fn law_table_gives_only_its_rows(
    rows: Vec<ManifestRow>,
    files: Result<TextMap<ManifestEntry>, SearchxError>,
    path: Seq<char>,
)
    requires
        call_ensures(files_from_rows, (&rows,), files),
        files is Ok,
        files->Ok_0@.contains_key(path),
    ensures
        exists|i: int| 0 <= i < rows@.len() && (#[trigger] rows@[i]).path@ == path,
{
    let all = rows.deep_view();
    lemma_row_of_path(all, path);
    let i = choose|i: int| 0 <= i < all.len() && (#[trigger] all[i]).0 == path;
    assert(all[i] == rows@[i]@);
}

proof fn lemma_row_of_path(rows: Seq<(Seq<char>, RowColumns)>, path: Seq<char>)
    requires
        rows_files(rows) is Ok,
        rows_files(rows)->Ok_0.contains_key(path),
    ensures
        exists|i: int| 0 <= i < rows.len() && (#[trigger] rows[i]).0 == path,
    decreases rows.len(),
{
    if rows.len() > 0 {
        if rows.last().0 == path {
            assert(rows[rows.len() - 1].0 == path);
        } else {
            lemma_row_of_path(rows.drop_last(), path);
            let i = choose|i: int|
                0 <= i < rows.drop_last().len() && (#[trigger] rows.drop_last()[i]).0 == path;
            assert(rows[i] == rows.drop_last()[i]);
        }
    }
}

/// A row gives the entry of its own figures; where one of them cannot be, it gives the error of the
/// first that cannot: the size, then the seconds, then the nanoseconds.
pub proof fn law_row_gives_its_entry_or_its_first_fault(
    row: ManifestRow,
    entry: Result<ManifestEntry, SearchxError>,
)
    requires
        call_ensures(entry_from_row, (&row,), entry),
        row.state@ == "indexed"@,
        row.skip_reason is None,
    ensures
        entry is Ok <==> row.size >= 0 && row.modified_secs >= 0 && 0 <= row.modified_nanos
            <= u32::MAX,
        entry is Ok ==> entry->Ok_0.state is Indexed && entry->Ok_0.size == row.size
            && entry->Ok_0.modified_secs == row.modified_secs && entry->Ok_0.modified_nanos
            == row.modified_nanos,
        row.size < 0 ==> (entry matches Err(SearchxError::ManifestNegativeValue { field, value })
            && field@ == "size"@ && value == row.size),
        row.size >= 0 && row.modified_secs < 0 ==> (entry matches Err(
            SearchxError::ManifestNegativeValue { field, value },
        ) && field@ == "modified_secs"@ && value == row.modified_secs),
        row.size >= 0 && row.modified_secs >= 0 && !(0 <= row.modified_nanos <= u32::MAX)
            ==> entry is Err && entry->Err_0 is IntegerConversion,
{
    lemma_column_texts_differ();
    let columns = row.columns();
    assert(columns.skip_reason is None);
    assert(columns_state((columns.state, columns.skip_reason)) == Some(FileState::Indexed));
}

} // verus!
