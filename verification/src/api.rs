//! Requests, results and reports.

use crate::constants::{DEFAULT_DATA_DIR_NAME, DEFAULT_MAX_FILE_BYTES};
use crate::manifest::Manifest;
use crate::paths::{path_buf_bytes, path_from_text};
use std::path::PathBuf;
use vstd::prelude::*;
use vstd::string::*;
use vstd::utf8::*;

verus! {

#[derive(Debug)]
pub struct ScanOptions {
    /// Rebuild the index from nothing.
    pub rebuild: bool,
    /// A larger file is indexed by its name alone.
    pub max_file_bytes: u64,
    /// What the walk leaves out, one rule each, as in a `.gitignore` file.
    pub ignore_rules: Vec<String>,
}

/// The rules in force where none are given.
pub open spec fn default_rules() -> Seq<Seq<char>> {
    seq![
        ".git/"@,
        "node_modules/"@,
        "target/"@,
        "dist/"@,
        "build/"@,
        ".next/"@,
        ".turbo/"@,
        ".cache/"@,
        "coverage/"@,
        "__pycache__/"@,
        ".venv/"@,
        "venv/"@,
        ".pytest_cache/"@,
        ".mypy_cache/"@,
        ".ruff_cache/"@,
    ]
}

/// The rules in force where none are given.
#[must_use]
pub fn default_ignore_rules() -> (rules: Vec<String>)
    ensures
        rules.deep_view() == default_rules(),
{
    let rules: Vec<String> = vec![
        ".git/".to_string(),
        "node_modules/".to_string(),
        "target/".to_string(),
        "dist/".to_string(),
        "build/".to_string(),
        ".next/".to_string(),
        ".turbo/".to_string(),
        ".cache/".to_string(),
        "coverage/".to_string(),
        "__pycache__/".to_string(),
        ".venv/".to_string(),
        "venv/".to_string(),
        ".pytest_cache/".to_string(),
        ".mypy_cache/".to_string(),
        ".ruff_cache/".to_string(),
    ];
    assert(rules.deep_view() =~= default_rules());
    rules
}

impl Default for ScanOptions {
    fn default() -> (options: Self)
        ensures
            !options.rebuild,
            options.max_file_bytes == DEFAULT_MAX_FILE_BYTES,
            options.ignore_rules.deep_view() == default_rules(),
    {
        ScanOptions {
            rebuild: false,
            max_file_bytes: DEFAULT_MAX_FILE_BYTES,
            ignore_rules: default_ignore_rules(),
        }
    }
}

impl Clone for ScanOptions {
    fn clone(&self) -> (options: Self)
        ensures
            options.rebuild == self.rebuild,
            options.max_file_bytes == self.max_file_bytes,
            options.ignore_rules.deep_view() == self.ignore_rules.deep_view(),
    {
        let ignore_rules = self.ignore_rules.clone();
        assert(ignore_rules.deep_view() =~= self.ignore_rules.deep_view());
        ScanOptions { rebuild: self.rebuild, max_file_bytes: self.max_file_bytes, ignore_rules }
    }
}

/// What to index, where to keep the index, and how.
#[derive(Debug)]
pub struct SyncRequest {
    pub root: PathBuf,
    pub data_dir: PathBuf,
    pub options: ScanOptions,
}

impl Clone for SyncRequest {
    fn clone(&self) -> (request: Self)
        ensures
            request.root == self.root,
            request.data_dir == self.data_dir,
            request.options.rebuild == self.options.rebuild,
            request.options.max_file_bytes == self.options.max_file_bytes,
            request.options.ignore_rules.deep_view() == self.options.ignore_rules.deep_view(),
    {
        SyncRequest {
            root: self.root.clone(),
            data_dir: self.data_dir.clone(),
            options: self.options.clone(),
        }
    }
}

impl SyncRequest {
    /// A request for `root` with the default data directory and the default options.
    #[must_use]
    pub fn new(root: PathBuf) -> (request: Self)
        ensures
            request.root == root,
            path_buf_bytes(&request.data_dir) == encode_utf8(DEFAULT_DATA_DIR_NAME@),
            !request.options.rebuild,
            request.options.max_file_bytes == DEFAULT_MAX_FILE_BYTES,
            request.options.ignore_rules.deep_view() == default_rules(),
    {
        SyncRequest {
            root,
            data_dir: path_from_text(DEFAULT_DATA_DIR_NAME),
            options: ScanOptions::default(),
        }
    }

    #[must_use]
    pub fn with_data_dir(self, data_dir: PathBuf) -> (request: Self)
        ensures
            request == (SyncRequest { data_dir, ..self }),
    {
        SyncRequest { root: self.root, data_dir, options: self.options }
    }

    #[must_use]
    pub fn with_options(self, options: ScanOptions) -> (request: Self)
        ensures
            request == (SyncRequest { options, ..self }),
    {
        SyncRequest { root: self.root, data_dir: self.data_dir, options }
    }
}

/// What a run reports while it goes on.
#[derive(Debug, Clone)]
pub enum SyncProgress {
    Rebuilding { reason: String },
    Indexing { path: String },
    ScanError(ScanError),
}

/// What a finished run leaves: the open index and the figures of the run.
pub struct SyncIndexResult<I> {
    pub root: PathBuf,
    pub data_paths: DataPaths,
    pub index: I,
    pub stats: SyncStats,
    pub rebuild_reason: Option<String>,
}

/// The files below the data directory.
#[derive(Debug)]
pub struct DataPaths {
    pub base: PathBuf,
    pub index: PathBuf,
    pub manifest: PathBuf,
    pub incomplete_marker: PathBuf,
}

impl Clone for DataPaths {
    fn clone(&self) -> (paths: Self)
        ensures
            paths == *self,
    {
        DataPaths {
            base: self.base.clone(),
            index: self.index.clone(),
            manifest: self.manifest.clone(),
            incomplete_marker: self.incomplete_marker.clone(),
        }
    }
}

/// A cell that may hold a value.
#[derive(Debug)]
pub struct OptionalCell<T> {
    value: Option<T>,
}

impl<T> View for OptionalCell<T> {
    type V = Option<T>;

    closed spec fn view(&self) -> Option<T> {
        self.value
    }
}

impl<T> Default for OptionalCell<T> {
    fn default() -> (cell: Self)
        ensures
            cell@ == None::<T>,
    {
        OptionalCell { value: None }
    }
}

impl<T> OptionalCell<T> {
    #[must_use]
    pub fn new() -> (cell: Self)
        ensures
            cell@ == None::<T>,
    {
        OptionalCell { value: None }
    }

    pub fn set(&mut self, value: T)
        ensures
            final(self)@ == Some(value),
    {
        self.value = Some(value);
    }

    pub fn clear(&mut self)
        ensures
            final(self)@ == None::<T>,
    {
        self.value = None;
    }
}

impl<T: Clone> OptionalCell<T> {
    /// A clone of what the cell holds.
    #[must_use]
    pub fn get(&self) -> (value: Option<T>)
        ensures
            value is Some == self@ is Some,
            value is Some ==> cloned(self@->Some_0, value->Some_0),
    {
        match &self.value {
            Some(value) => Some(value.clone()),
            None => None,
        }
    }
}

/// Where a scan shows the file it is at.
#[derive(Debug)]
pub struct ScanHook {
    current_file: OptionalCell<String>,
}

impl View for ScanHook {
    type V = Option<Seq<char>>;

    closed spec fn view(&self) -> Option<Seq<char>> {
        self.current_file@.deep_view()
    }
}

impl Default for ScanHook {
    fn default() -> (hook: Self)
        ensures
            hook@ == None::<Seq<char>>,
    {
        ScanHook { current_file: OptionalCell::new() }
    }
}

impl ScanHook {
    #[must_use]
    pub fn new() -> (hook: Self)
        ensures
            hook@ == None::<Seq<char>>,
    {
        ScanHook { current_file: OptionalCell::new() }
    }

    pub fn set_current_file(&mut self, path: String)
        ensures
            final(self)@ == Some(path@),
    {
        self.current_file.set(path);
    }

    pub fn clear_current_file(&mut self)
        ensures
            final(self)@ == None::<Seq<char>>,
    {
        self.current_file.clear();
    }

    #[must_use]
    pub fn current_file(&self) -> (path: Option<String>)
        ensures
            path.deep_view() == self@,
    {
        self.current_file.get()
    }
}

#[derive(Debug, Clone, Copy, PartialEq, Eq, Structural)]
pub enum ScanErrorKind {
    Walk,
    Metadata,
    Read,
}

impl ScanErrorKind {
    /// How the kind is written in reports.
    pub open spec fn label(self) -> Seq<char> {
        match self {
            ScanErrorKind::Walk => "walk"@,
            ScanErrorKind::Metadata => "metadata"@,
            ScanErrorKind::Read => "read"@,
        }
    }

    /// How the kind is written in reports.
    pub fn to_text(self) -> (text: String)
        ensures
            text@ == self.label(),
    {
        match self {
            ScanErrorKind::Walk => "walk".to_string(),
            ScanErrorKind::Metadata => "metadata".to_string(),
            ScanErrorKind::Read => "read".to_string(),
        }
    }
}

/// A file or directory that a scan could not read.
#[derive(Debug, Clone)]
pub struct ScanError {
    pub kind: ScanErrorKind,
    pub path: Option<String>,
    pub message: String,
}

/// A [`ScanError`] as text.
pub struct ScanErrorView {
    pub kind: ScanErrorKind,
    pub path: Option<Seq<char>>,
    pub message: Seq<char>,
}

impl View for ScanError {
    type V = ScanErrorView;

    open spec fn view(&self) -> ScanErrorView {
        ScanErrorView { kind: self.kind, path: self.path.deep_view(), message: self.message@ }
    }
}

impl DeepView for ScanError {
    type V = ScanErrorView;

    open spec fn deep_view(&self) -> ScanErrorView {
        self@
    }
}

impl ScanErrorView {
    /// The text in which the error is reported.
    pub open spec fn text(self) -> Seq<char> {
        match self.path {
            Some(path) => self.kind.label() + " error for "@ + path + ": "@ + self.message,
            None => self.kind.label() + " error: "@ + self.message,
        }
    }
}

impl ScanError {
    pub fn walk(message: String) -> (error: Self)
        ensures
            error@ == (ScanErrorView {
                kind: ScanErrorKind::Walk,
                path: None,
                message: message@,
            }),
    {
        ScanError { kind: ScanErrorKind::Walk, path: None, message }
    }

    pub fn metadata(path: String, message: String) -> (error: Self)
        ensures
            error@ == (ScanErrorView {
                kind: ScanErrorKind::Metadata,
                path: Some(path@),
                message: message@,
            }),
    {
        ScanError { kind: ScanErrorKind::Metadata, path: Some(path), message }
    }

    pub fn read(path: String, message: String) -> (error: Self)
        ensures
            error@ == (ScanErrorView {
                kind: ScanErrorKind::Read,
                path: Some(path@),
                message: message@,
            }),
    {
        ScanError { kind: ScanErrorKind::Read, path: Some(path), message }
    }

    /// The text in which the error is reported.
    pub fn to_text(&self) -> (text: String)
        ensures
            text@ == self@.text(),
    {
        let mut text = self.kind.to_text();
        match &self.path {
            Some(path) => {
                text.append(" error for ");
                text.append(path.as_str());
                text.append(": ");
            },
            None => {
                text.append(" error: ");
            },
        }
        text.append(self.message.as_str());
        text
    }
}

/// The figures of a run.
#[derive(Debug, Clone, Copy, PartialEq, Eq, Structural)]
pub struct SyncStats {
    pub scanned_files: u64,
    pub unchanged_indexed: u64,
    pub unchanged_skipped: u64,
    pub indexed_or_updated: u64,
    pub deleted_missing: u64,
    pub deleted_became_unsupported: u64,
    pub skipped_too_large: u64,
    pub skipped_binary: u64,
    pub read_errors: u64,
    pub walk_errors: u64,
}

/// The figures of a run that has done nothing.
pub open spec fn no_stats() -> SyncStats {
    SyncStats {
        scanned_files: 0,
        unchanged_indexed: 0,
        unchanged_skipped: 0,
        indexed_or_updated: 0,
        deleted_missing: 0,
        deleted_became_unsupported: 0,
        skipped_too_large: 0,
        skipped_binary: 0,
        read_errors: 0,
        walk_errors: 0,
    }
}

impl Default for SyncStats {
    fn default() -> (stats: Self)
        ensures
            stats == no_stats(),
    {
        SyncStats {
            scanned_files: 0,
            unchanged_indexed: 0,
            unchanged_skipped: 0,
            indexed_or_updated: 0,
            deleted_missing: 0,
            deleted_became_unsupported: 0,
            skipped_too_large: 0,
            skipped_binary: 0,
            read_errors: 0,
            walk_errors: 0,
        }
    }
}

impl SyncStats {
    /// All documents deleted, for whatever reason.
    #[must_use]
    pub fn deleted_total(&self) -> (total: u64)
        requires
            self.deleted_missing + self.deleted_became_unsupported <= u64::MAX,
        ensures
            total == self.deleted_missing + self.deleted_became_unsupported,
    {
        self.deleted_missing + self.deleted_became_unsupported
    }
}

/// The manifest a run starts from.
#[derive(Debug)]
pub struct ManifestLoad {
    pub manifest: Manifest,
    /// Why the index must be built anew, where it must.
    pub rebuild_reason: Option<String>,
    /// Whether the run takes up where an unfinished one stopped.
    pub resume_from_incomplete: bool,
}

/// The text of an error ends with its message, and names the file, where it is about one, and the
/// kind of error.
pub proof fn law_error_text_names_file_and_message(error: ScanErrorView)
    ensures
        error.message.is_suffix_of(error.text()),
        error.kind.label().is_prefix_of(error.text()),
        error.path is Some ==> exists|head: Seq<char>, rest: Seq<char>|
            error.text() == #[trigger] (head + error.path->Some_0 + rest),
        error.kind == ScanErrorKind::Walk <==> error.kind.label() == "walk"@,
        error.kind == ScanErrorKind::Metadata <==> error.kind.label() == "metadata"@,
        error.kind == ScanErrorKind::Read <==> error.kind.label() == "read"@,
{
    reveal_strlit("walk");
    reveal_strlit("metadata");
    reveal_strlit("read");
    assert("walk"@[0] == 'w' && "metadata"@[0] == 'm' && "read"@[0] == 'r');
    let text = error.text();
    let label = error.kind.label();
    assert(error.message =~= text.subrange(text.len() - error.message.len(), text.len() as int));
    assert(label =~= text.subrange(0, label.len() as int));
    if let Some(path) = error.path {
        assert(text =~= (label + " error for "@) + path + (": "@ + error.message));
    }
}

/// Where no rules are given, the directories of version control, of dependencies, of builds and of
/// caches are left out, and nothing else.
pub proof fn law_default_rules_leave_out_these_directories(rules: Vec<String>, rule: Seq<char>)
    requires
        call_ensures(default_ignore_rules, (), rules),
    ensures
        rules.deep_view().contains(rule) <==> {
            ||| rule == ".git/"@
            ||| rule == "node_modules/"@
            ||| rule == "target/"@
            ||| rule == "dist/"@
            ||| rule == "build/"@
            ||| rule == ".next/"@
            ||| rule == ".turbo/"@
            ||| rule == ".cache/"@
            ||| rule == "coverage/"@
            ||| rule == "__pycache__/"@
            ||| rule == ".venv/"@
            ||| rule == "venv/"@
            ||| rule == ".pytest_cache/"@
            ||| rule == ".mypy_cache/"@
            ||| rule == ".ruff_cache/"@
        },
{
    let all = rules.deep_view();
    assert(all[0] == ".git/"@);
    assert(all[1] == "node_modules/"@);
    assert(all[2] == "target/"@);
    assert(all[3] == "dist/"@);
    assert(all[4] == "build/"@);
    assert(all[5] == ".next/"@);
    assert(all[6] == ".turbo/"@);
    assert(all[7] == ".cache/"@);
    assert(all[8] == "coverage/"@);
    assert(all[9] == "__pycache__/"@);
    assert(all[10] == ".venv/"@);
    assert(all[11] == "venv/"@);
    assert(all[12] == ".pytest_cache/"@);
    assert(all[13] == ".mypy_cache/"@);
    assert(all[14] == ".ruff_cache/"@);
}

/// A run that has done nothing has counted nothing.
pub proof fn law_figures_begin_at_zero()
    ensures
        no_stats().scanned_files + no_stats().unchanged_indexed + no_stats().unchanged_skipped
            + no_stats().indexed_or_updated + no_stats().deleted_missing
            + no_stats().deleted_became_unsupported + no_stats().skipped_too_large
            + no_stats().skipped_binary + no_stats().read_errors + no_stats().walk_errors == 0,
{
}

/// A request is for its root with the default data directory and the default options, until others
/// are given, and keeps all else when they are.
pub proof fn law_request_keeps_what_it_was_given(
    root: PathBuf,
    data_dir: PathBuf,
    options: ScanOptions,
    fresh: SyncRequest,
    moved: SyncRequest,
    changed: SyncRequest,
)
    requires
        call_ensures(SyncRequest::new, (root,), fresh),
        call_ensures(SyncRequest::with_data_dir, (fresh, data_dir), moved),
        call_ensures(SyncRequest::with_options, (moved, options), changed),
    ensures
        fresh.root == root,
        path_buf_bytes(&fresh.data_dir) == encode_utf8(".searchx-data"@),
        !fresh.options.rebuild,
        fresh.options.max_file_bytes == 50 * 1024 * 1024,
        moved.root == root,
        moved.data_dir == data_dir,
        moved.options == fresh.options,
        changed.root == root,
        changed.data_dir == data_dir,
        changed.options == options,
{
}

/// A cell holds what was last set, until it is cleared.
pub proof fn law_cell_holds_what_was_set(
    cell: &mut OptionalCell<u64>,
    value: u64,
    emptied: &mut OptionalCell<u64>,
    fresh: OptionalCell<u64>,
)
    requires
        call_ensures(OptionalCell::<u64>::set, (cell, value), ()),
        call_ensures(OptionalCell::<u64>::clear, (emptied,), ()),
        call_ensures(OptionalCell::<u64>::new, (), fresh),
    ensures
        final(cell)@ == Some(value),
        final(emptied)@ is None,
        fresh@ is None,
{
}

/// A hook shows the file that was last set, until it is cleared.
pub proof fn law_hook_shows_the_file_that_was_set(
    hook: &mut ScanHook,
    path: String,
    emptied: &mut ScanHook,
    shown: ScanHook,
    file: Option<String>,
)
    requires
        call_ensures(ScanHook::set_current_file, (hook, path), ()),
        call_ensures(ScanHook::clear_current_file, (emptied,), ()),
        call_ensures(ScanHook::current_file, (&shown,), file),
    ensures
        final(hook)@ == Some(path@),
        final(emptied)@ is None,
        file is Some <==> shown@ is Some,
        file is Some ==> shown@ == Some(file->Some_0@),
{
}

/// An error says of which kind it is, and of which file, and why.
pub proof fn law_scan_error_says_kind_file_and_reason(
    path: String,
    message: String,
    walk: ScanError,
    metadata: ScanError,
    read: ScanError,
    text: String,
)
    requires
        call_ensures(ScanError::walk, (message,), walk),
        call_ensures(ScanError::metadata, (path, message), metadata),
        call_ensures(ScanError::read, (path, message), read),
        call_ensures(ScanError::to_text, (&read,), text),
    ensures
        walk.kind is Walk && walk.path is None && walk.message@ == message@,
        metadata.kind is Metadata && metadata.message@ == message@,
        metadata.path is Some && metadata.path->Some_0@ == path@,
        read.kind is Read && read.message@ == message@,
        read.path is Some && read.path->Some_0@ == path@,
        message@.is_suffix_of(text@),
        "read"@.is_prefix_of(text@),
        exists|head: Seq<char>, rest: Seq<char>| text@ == #[trigger] (head + path@ + rest),
{
    law_error_text_names_file_and_message(read@);
}

/// All documents deleted are counted, for whichever reason they went.
pub proof fn law_deleted_documents_are_counted_together(stats: SyncStats, total: u64)
    requires
        call_ensures(SyncStats::deleted_total, (&stats,), total),
    ensures
        total == stats.deleted_missing + stats.deleted_became_unsupported,
{
}

} // verus!
