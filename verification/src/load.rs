//! Loading the manifest a run starts from: which questions to ask of the store, and what follows
//! from the answers.

use crate::api::ManifestLoad;
use crate::constants::MANIFEST_VERSION;
use crate::error::SearchxError;
use crate::manifest::{
    columns_entry, empty_manifest, files_from_rows, is_columns_error, rows_files, Manifest,
    ManifestEntry, ManifestRow, ManifestView, RowColumns,
};
use crate::paths::{display_text, displayed, path_bytes};
use crate::text::{append_decimal, decimal, text_eq};
use crate::text_map::TextMap;
use std::path::Path;
use vstd::prelude::*;
use vstd::string::*;

verus! {

/// A [`ManifestLoad`] as text and a map.
pub struct LoadView {
    pub manifest: ManifestView,
    pub rebuild_reason: Option<Seq<char>>,
    pub resume_from_incomplete: bool,
}

impl View for ManifestLoad {
    type V = LoadView;

    open spec fn view(&self) -> LoadView {
        LoadView {
            manifest: self.manifest@,
            rebuild_reason: self.rebuild_reason.deep_view(),
            resume_from_incomplete: self.resume_from_incomplete,
        }
    }
}

/// What the manifest tables hold: a manifest of the root, none, or one that cannot be used.
#[derive(Debug)]
pub enum StoredManifestState {
    Ready(Manifest),
    Missing,
    Rebuild(String),
}

/// A [`StoredManifestState`] as text and a map.
pub enum StoredView {
    Ready(ManifestView),
    Missing,
    Rebuild(Seq<char>),
}

impl View for StoredManifestState {
    type V = StoredView;

    open spec fn view(&self) -> StoredView {
        match self {
            StoredManifestState::Ready(manifest) => StoredView::Ready(manifest@),
            StoredManifestState::Missing => StoredView::Missing,
            StoredManifestState::Rebuild(reason) => StoredView::Rebuild(reason@),
        }
    }
}

/// Version and root as an info table holds them, or the text of the error on reading them.
pub type InfoView = Result<Option<(u32, Seq<char>)>, Seq<char>>;

/// The files of a table, or the text of the error on reading them.
pub type FilesView = Result<Map<Seq<char>, ManifestEntry>, Seq<char>>;

/// What is true of the store while a manifest is loaded. The manifest file is looked for and
/// opened twice: for the manifest itself, and for the working manifest of an unfinished run.
pub struct StoreFacts {
    pub manifest_exists: bool,
    pub opened: Result<(), Seq<char>>,
    pub info: InfoView,
    pub files: FilesView,
    pub marker_exists: bool,
    pub manifest_exists_again: bool,
    pub reopened: Result<(), Seq<char>>,
    pub working_info: InfoView,
    pub working_files: FilesView,
    pub index_data_exists: bool,
}

/// The reason for a rebuild on a manifest of another version.
pub open spec fn version_reason(version: u32) -> Seq<char> {
    "manifest version "@ + decimal(version as nat) + " does not match "@ + decimal(
        MANIFEST_VERSION as nat,
    )
}

/// The reason for a rebuild on the manifest of another root.
pub open spec fn root_reason(stored: Seq<char>, root: Seq<char>) -> Seq<char> {
    "manifest root "@ + stored + " does not match "@ + root
}

/// What the manifest tables hold for `root`.
pub open spec fn stored_state(root: Seq<char>, facts: StoreFacts) -> StoredView {
    if !facts.manifest_exists {
        StoredView::Missing
    } else if facts.opened is Err {
        StoredView::Rebuild("manifest could not be opened: "@ + facts.opened->Err_0)
    } else {
        match facts.info {
            Err(error) => StoredView::Rebuild("manifest could not be read: "@ + error),
            Ok(None) => StoredView::Missing,
            Ok(Some((version, stored_root))) => if version != MANIFEST_VERSION {
                StoredView::Rebuild(version_reason(version))
            } else if stored_root != root {
                StoredView::Rebuild(root_reason(stored_root, root))
            } else {
                match facts.files {
                    Err(error) => StoredView::Rebuild("manifest could not be read: "@ + error),
                    Ok(files) => StoredView::Ready(ManifestView { version, root, files }),
                }
            },
        }
    }
}

/// An info table speaks of `root`, in this version.
pub open spec fn info_fits(root: Seq<char>, info: Option<(u32, Seq<char>)>) -> bool {
    info == Some((MANIFEST_VERSION, root))
}

/// The working manifest of an unfinished run on `root`, where there is one.
pub open spec fn working_manifest(root: Seq<char>, facts: StoreFacts) -> Result<
    Option<ManifestView>,
    Seq<char>,
> {
    match facts.working_info {
        Err(error) => Err(error),
        Ok(info) => if !info_fits(root, info) {
            Ok(None)
        } else {
            match facts.working_files {
                Err(error) => Err(error),
                Ok(files) => Ok(Some(ManifestView { version: MANIFEST_VERSION, root, files })),
            }
        },
    }
}

/// Start from nothing, for `reason`.
pub open spec fn rebuild_load(root: Seq<char>, reason: Seq<char>) -> LoadView {
    LoadView {
        manifest: empty_manifest(root),
        rebuild_reason: Some(reason),
        resume_from_incomplete: false,
    }
}

/// Start from what the manifest tables hold.
pub open spec fn settled_load(
    root: Seq<char>,
    stored: StoredView,
    index_data_exists: bool,
) -> LoadView {
    match stored {
        StoredView::Ready(manifest) => LoadView {
            manifest,
            rebuild_reason: None,
            resume_from_incomplete: false,
        },
        StoredView::Missing => LoadView {
            manifest: empty_manifest(root),
            rebuild_reason: if index_data_exists {
                Some("manifest is missing"@)
            } else {
                None
            },
            resume_from_incomplete: false,
        },
        StoredView::Rebuild(reason) => rebuild_load(root, reason),
    }
}

/// Take up an unfinished run: what it recorded counts over what the manifest tables hold.
pub open spec fn resumed_load(stored: StoredView, working: ManifestView) -> LoadView {
    LoadView {
        manifest: match stored {
            StoredView::Ready(manifest) => ManifestView {
                files: manifest.files.union_prefer_right(working.files),
                ..manifest
            },
            _ => working,
        },
        rebuild_reason: None,
        resume_from_incomplete: true,
    }
}

/// The manifest that a run on `root` starts from.
pub open spec fn expected_load(root: Seq<char>, force_rebuild: bool, facts: StoreFacts) -> LoadView {
    let stored = stored_state(root, facts);
    if force_rebuild {
        rebuild_load(root, "forced by --rebuild"@)
    } else if stored is Rebuild || !facts.marker_exists || !facts.manifest_exists_again {
        settled_load(root, stored, facts.index_data_exists)
    } else if facts.reopened is Err {
        rebuild_load(root, "manifest could not be opened: "@ + facts.reopened->Err_0)
    } else {
        match working_manifest(root, facts) {
            Err(error) => rebuild_load(root, "working manifest could not be read: "@ + error),
            Ok(Some(working)) => resumed_load(stored, working),
            Ok(None) => settled_load(root, stored, facts.index_data_exists),
        }
    }
}

/// What a load asks of the store next.
#[derive(Debug, Clone, Copy, PartialEq, Eq, Structural)]
pub enum LoadQuestion {
    ManifestExists,
    OpenManifest,
    ReadInfo,
    ReadFiles,
    MarkerExists,
    ManifestExistsAgain,
    ReopenManifest,
    ReadWorkingInfo,
    ReadWorkingFiles,
    IndexDataExists,
}

/// What the store answers. The rows of a table come in the order in which they are read; where
/// reading stops with an error, with the rows read before it.
#[derive(Debug)]
pub enum LoadAnswer {
    Exists(bool),
    Opened(Result<(), String>),
    Info(Result<Option<(u32, String)>, String>),
    Rows { rows: Vec<ManifestRow>, failure: Option<String> },
}

/// The files that a table gives: the first bad row decides, then the failure to read on.
pub open spec fn rows_outcome(
    rows: Seq<(Seq<char>, RowColumns)>,
    failure: Option<Seq<char>>,
) -> FilesView {
    match rows_files(rows) {
        Err(text) => Err(text),
        Ok(files) => match failure {
            Some(text) => Err(text),
            None => Ok(files),
        },
    }
}

pub open spec fn opened_view(opened: Result<(), String>) -> Result<(), Seq<char>> {
    match opened {
        Ok(()) => Ok(()),
        Err(text) => Err(text@),
    }
}

pub open spec fn info_view(info: Result<Option<(u32, String)>, String>) -> InfoView {
    match info {
        Ok(Some((version, root))) => Ok(Some((version, root@))),
        Ok(None) => Ok(None),
        Err(text) => Err(text@),
    }
}

impl LoadQuestion {
    /// The answer is of the kind asked for.
    pub open spec fn takes(self, answer: LoadAnswer) -> bool {
        match self {
            LoadQuestion::ManifestExists => answer is Exists,
            LoadQuestion::OpenManifest => answer is Opened,
            LoadQuestion::ReadInfo => answer is Info,
            LoadQuestion::ReadFiles => answer is Rows,
            LoadQuestion::MarkerExists => answer is Exists,
            LoadQuestion::ManifestExistsAgain => answer is Exists,
            LoadQuestion::ReopenManifest => answer is Opened,
            LoadQuestion::ReadWorkingInfo => answer is Info,
            LoadQuestion::ReadWorkingFiles => answer is Rows,
            LoadQuestion::IndexDataExists => answer is Exists,
        }
    }

    /// The answer is true of the store.
    pub open spec fn answered(self, answer: LoadAnswer, facts: StoreFacts) -> bool {
        match (self, answer) {
            (LoadQuestion::ManifestExists, LoadAnswer::Exists(found)) => found
                == facts.manifest_exists,
            (LoadQuestion::OpenManifest, LoadAnswer::Opened(opened)) => opened_view(opened)
                == facts.opened,
            (LoadQuestion::ReadInfo, LoadAnswer::Info(info)) => info_view(info) == facts.info,
            (LoadQuestion::ReadFiles, LoadAnswer::Rows { rows, failure }) => rows_outcome(
                rows.deep_view(),
                failure.deep_view(),
            ) == facts.files,
            (LoadQuestion::MarkerExists, LoadAnswer::Exists(found)) => found
                == facts.marker_exists,
            (LoadQuestion::ManifestExistsAgain, LoadAnswer::Exists(found)) => found
                == facts.manifest_exists_again,
            (LoadQuestion::ReopenManifest, LoadAnswer::Opened(opened)) => opened_view(opened)
                == facts.reopened,
            (LoadQuestion::ReadWorkingInfo, LoadAnswer::Info(info)) => info_view(info)
                == facts.working_info,
            (LoadQuestion::ReadWorkingFiles, LoadAnswer::Rows { rows, failure }) => rows_outcome(
                rows.deep_view(),
                failure.deep_view(),
            ) == facts.working_files,
            (LoadQuestion::IndexDataExists, LoadAnswer::Exists(found)) => found
                == facts.index_data_exists,
            _ => false,
        }
    }
}

/// How far a load has come.
#[derive(Debug)]
pub enum LoadStep {
    ManifestExists,
    OpenManifest,
    ReadInfo,
    ReadFiles,
    MarkerExists { stored: StoredManifestState },
    ManifestExistsAgain { stored: StoredManifestState },
    ReopenManifest { stored: StoredManifestState },
    ReadWorkingInfo { stored: StoredManifestState },
    ReadWorkingFiles { stored: StoredManifestState },
    IndexDataExists,
    Done { load: ManifestLoad },
}

/// A load under way.
#[derive(Debug)]
pub struct ManifestLoader {
    root: String,
    force_rebuild: bool,
    step: LoadStep,
}

impl ManifestLoader {
    /// How the root is displayed.
    pub closed spec fn root(&self) -> Seq<char> {
        self.root@
    }

    pub closed spec fn forced(&self) -> bool {
        self.force_rebuild
    }

    pub closed spec fn step(&self) -> LoadStep {
        self.step
    }

    /// The question the load is at.
    pub open spec fn asks(&self) -> Option<LoadQuestion> {
        match self.step() {
            LoadStep::ManifestExists => Some(LoadQuestion::ManifestExists),
            LoadStep::OpenManifest => Some(LoadQuestion::OpenManifest),
            LoadStep::ReadInfo => Some(LoadQuestion::ReadInfo),
            LoadStep::ReadFiles => Some(LoadQuestion::ReadFiles),
            LoadStep::MarkerExists { .. } => Some(LoadQuestion::MarkerExists),
            LoadStep::ManifestExistsAgain { .. } => Some(LoadQuestion::ManifestExistsAgain),
            LoadStep::ReopenManifest { .. } => Some(LoadQuestion::ReopenManifest),
            LoadStep::ReadWorkingInfo { .. } => Some(LoadQuestion::ReadWorkingInfo),
            LoadStep::ReadWorkingFiles { .. } => Some(LoadQuestion::ReadWorkingFiles),
            LoadStep::IndexDataExists => Some(LoadQuestion::IndexDataExists),
            LoadStep::Done { .. } => None,
        }
    }

    /// How many questions may still come.
    pub open spec fn rank(&self) -> nat {
        match self.step() {
            LoadStep::ManifestExists => 10,
            LoadStep::OpenManifest => 9,
            LoadStep::ReadInfo => 8,
            LoadStep::ReadFiles => 7,
            LoadStep::MarkerExists { .. } => 6,
            LoadStep::ManifestExistsAgain { .. } => 5,
            LoadStep::ReopenManifest { .. } => 4,
            LoadStep::ReadWorkingInfo { .. } => 3,
            LoadStep::ReadWorkingFiles { .. } => 2,
            LoadStep::IndexDataExists => 1,
            LoadStep::Done { .. } => 0,
        }
    }

    /// What has been learnt so far is true of the store, and once the load is done its result is
    /// the one that the store calls for.
    pub open spec fn agrees(&self, facts: StoreFacts) -> bool {
        let expected = stored_state(self.root(), facts);
        match self.step() {
            LoadStep::ManifestExists => !self.forced(),
            LoadStep::OpenManifest => !self.forced() && facts.manifest_exists,
            LoadStep::ReadInfo => !self.forced() && facts.manifest_exists && facts.opened is Ok,
            LoadStep::ReadFiles => !self.forced() && facts.manifest_exists && facts.opened is Ok
                && facts.info is Ok && info_fits(self.root(), facts.info->Ok_0),
            LoadStep::MarkerExists { stored } => !self.forced() && stored@ == expected && !(
            expected is Rebuild),
            LoadStep::ManifestExistsAgain { stored } => !self.forced() && stored@ == expected && !(
            expected is Rebuild) && facts.marker_exists,
            LoadStep::ReopenManifest { stored } => !self.forced() && stored@ == expected && !(
            expected is Rebuild) && facts.marker_exists && facts.manifest_exists_again,
            LoadStep::ReadWorkingInfo { stored } => !self.forced() && stored@ == expected && !(
            expected is Rebuild) && facts.marker_exists && facts.manifest_exists_again
                && facts.reopened is Ok,
            LoadStep::ReadWorkingFiles { stored } => !self.forced() && stored@ == expected && !(
            expected is Rebuild) && facts.marker_exists && facts.manifest_exists_again
                && facts.reopened is Ok && facts.working_info is Ok && info_fits(
                self.root(),
                facts.working_info->Ok_0,
            ),
            LoadStep::IndexDataExists => !self.forced() && expected_load(self.root(), false, facts)
                == settled_load(self.root(), StoredView::Missing, facts.index_data_exists),
            LoadStep::Done { load } => load@ == expected_load(self.root(), self.forced(), facts),
        }
    }
}

/// A load with all that belongs to it.
pub fn manifest_load(
    manifest: Manifest,
    rebuild_reason: Option<String>,
    resume_from_incomplete: bool,
) -> (load: ManifestLoad)
    ensures
        load@ == (LoadView {
            manifest: manifest@,
            rebuild_reason: rebuild_reason.deep_view(),
            resume_from_incomplete,
        }),
{
    ManifestLoad { manifest, rebuild_reason, resume_from_incomplete }
}

/// A load that knows nothing of the files below `root`.
pub fn manifest_load_with_reason(root: String, rebuild_reason: Option<String>) -> (load:
    ManifestLoad)
    ensures
        load@ == (LoadView {
            manifest: empty_manifest(root@),
            rebuild_reason: rebuild_reason.deep_view(),
            resume_from_incomplete: false,
        }),
{
    manifest_load(Manifest::for_root(root), rebuild_reason, false)
}

/// A load that starts from nothing, for `reason`.
pub fn rebuild_manifest_load(root: String, reason: String) -> (load: ManifestLoad)
    ensures
        load@ == rebuild_load(root@, reason@),
{
    manifest_load_with_reason(root, Some(reason))
}

/// A load where no manifest is stored: an index without one is built anew.
pub fn missing_manifest_load(root: String, index_data_exists: bool) -> (load: ManifestLoad)
    ensures
        load@ == settled_load(root@, StoredView::Missing, index_data_exists),
{
    let reason: Option<String> = if index_data_exists {
        Some("manifest is missing".to_string())
    } else {
        None
    };
    manifest_load_with_reason(root, reason)
}

/// Whether an info table speaks of `root`, in this version.
pub fn manifest_info_fits(info: &Option<(u32, String)>, root: &str) -> (fits: bool)
    ensures
        fits == info_fits(root@, info_view(Ok(*info))->Ok_0),
{
    match info {
        Some((version, stored_root)) => *version == MANIFEST_VERSION && text_eq(
            stored_root.as_str(),
            root,
        ),
        None => false,
    }
}

/// Whether the working tables must be emptied before a run records its progress in them: always,
/// unless the run takes up an unfinished one on the same root.
pub fn working_manifest_needs_reset(
    resume_existing: bool,
    info: &Option<(u32, String)>,
    root: &str,
) -> (reset: bool)
    ensures
        reset == !(resume_existing && info_fits(root@, info_view(Ok(*info))->Ok_0)),
{
    !(resume_existing && manifest_info_fits(info, root))
}

/// What the info of the manifest tables says by itself: a state, or `None` where the files decide.
pub fn stored_state_from_info(
    info: Result<Option<(u32, String)>, String>,
    root: &str,
) -> (stored: Option<StoredManifestState>)
    ensures
        match info_view(info) {
            Err(error) => stored is Some && stored->Some_0@ == StoredView::Rebuild(
                "manifest could not be read: "@ + error,
            ),
            Ok(None) => stored is Some && stored->Some_0@ == StoredView::Missing,
            Ok(Some((version, stored_root))) => if version != MANIFEST_VERSION {
                stored is Some && stored->Some_0@ == StoredView::Rebuild(version_reason(version))
            } else if stored_root != root@ {
                stored is Some && stored->Some_0@ == StoredView::Rebuild(
                    root_reason(stored_root, root@),
                )
            } else {
                stored is None
            },
        },
{
    match info {
        Err(error) => Some(
            StoredManifestState::Rebuild(prefixed("manifest could not be read: ", error.as_str())),
        ),
        Ok(None) => Some(StoredManifestState::Missing),
        Ok(Some((version, stored_root))) => {
            if version != MANIFEST_VERSION {
                let mut reason = "manifest version ".to_string();
                append_decimal(&mut reason, version as u64);
                reason.append(" does not match ");
                append_decimal(&mut reason, MANIFEST_VERSION as u64);
                Some(StoredManifestState::Rebuild(reason))
            } else if !text_eq(stored_root.as_str(), root) {
                let mut reason = "manifest root ".to_string();
                reason.append(stored_root.as_str());
                reason.append(" does not match ");
                reason.append(root);
                Some(StoredManifestState::Rebuild(reason))
            } else {
                None
            }
        },
    }
}

/// The files of a table, or the text of the error on reading them.
fn read_files(rows: Vec<ManifestRow>, failure: Option<String>) -> (files: Result<
    TextMap<ManifestEntry>,
    String,
>)
    ensures
        match rows_outcome(rows.deep_view(), failure.deep_view()) {
            Ok(expected) => files is Ok && files->Ok_0@ == expected,
            Err(text) => files is Err && files->Err_0@ == text,
        },
{
    match files_from_rows(&rows) {
        Err(error) => Err(error.to_text()),
        Ok(files) => match failure {
            Some(text) => Err(text),
            None => Ok(files),
        },
    }
}

fn prefixed(prefix: &str, text: &str) -> (whole: String)
    ensures
        whole@ == prefix@ + text@,
{
    let mut whole = prefix.to_string();
    whole.append(text);
    whole
}

/// The working manifest of a run on `root`, from the rows of its table and the failure to read on,
/// where there is one. A bad row comes before the failure.
pub fn working_manifest_from_rows(
    root: &str,
    rows: &Vec<ManifestRow>,
    failure: Option<SearchxError>,
) -> (manifest: Result<Manifest, SearchxError>)
    ensures
        match rows_files(rows.deep_view()) {
            Ok(files) => match failure {
                Some(error) => manifest == Err::<Manifest, SearchxError>(error),
                None => manifest is Ok && manifest->Ok_0@ == (ManifestView {
                    version: MANIFEST_VERSION,
                    root: root@,
                    files,
                }),
            },
            Err(text) => manifest is Err && manifest->Err_0.text() == text && exists|i: int|
                0 <= i < rows@.len() && is_columns_error(
                    manifest->Err_0,
                    (#[trigger] rows@[i]).columns(),
                ),
        },
{
    match files_from_rows(rows) {
        Ok(files) => match failure {
            Some(error) => Err(error),
            None => Ok(Manifest { version: MANIFEST_VERSION, root: root.to_string(), files }),
        },
        Err(error) => Err(error),
    }
}

/// Combines what an unfinished run recorded with what the manifest tables hold.
pub fn resume_manifest(stored: StoredManifestState, working: Manifest) -> (load: ManifestLoad)
    ensures
        load@ == resumed_load(stored@, working@),
{
    match stored {
        StoredManifestState::Ready(manifest) => {
            let Manifest { version, root, files } = manifest;
            let mut files = files;
            files.extend(working.files);
            manifest_load(Manifest { version, root, files }, None, true)
        },
        _ => manifest_load(working, None, true),
    }
}

impl ManifestLoader {
    /// Begins to load the manifest of `root`.
    pub fn new(root: &Path, force_rebuild: bool) -> (loader: Self)
        ensures
            loader.root() == displayed(path_bytes(root)),
            loader.forced() == force_rebuild,
            loader.asks() == (if force_rebuild {
                None
            } else {
                Some(LoadQuestion::ManifestExists)
            }),
            forall|facts: StoreFacts| loader.agrees(facts),
    {
        let root = display_text(root);
        let step = if force_rebuild {
            LoadStep::Done {
                load: rebuild_manifest_load(root.clone(), "forced by --rebuild".to_string()),
            }
        } else {
            LoadStep::ManifestExists
        };
        ManifestLoader { root, force_rebuild, step }
    }

    /// The next question, until the load is done.
    pub fn question(&self) -> (question: Option<LoadQuestion>)
        ensures
            question == self.asks(),
    {
        match &self.step {
            LoadStep::ManifestExists => Some(LoadQuestion::ManifestExists),
            LoadStep::OpenManifest => Some(LoadQuestion::OpenManifest),
            LoadStep::ReadInfo => Some(LoadQuestion::ReadInfo),
            LoadStep::ReadFiles => Some(LoadQuestion::ReadFiles),
            LoadStep::MarkerExists { .. } => Some(LoadQuestion::MarkerExists),
            LoadStep::ManifestExistsAgain { .. } => Some(LoadQuestion::ManifestExistsAgain),
            LoadStep::ReopenManifest { .. } => Some(LoadQuestion::ReopenManifest),
            LoadStep::ReadWorkingInfo { .. } => Some(LoadQuestion::ReadWorkingInfo),
            LoadStep::ReadWorkingFiles { .. } => Some(LoadQuestion::ReadWorkingFiles),
            LoadStep::IndexDataExists => Some(LoadQuestion::IndexDataExists),
            LoadStep::Done { .. } => None,
        }
    }

    /// Takes the answer to the question the load is at.
    pub fn answer(self, answer: LoadAnswer) -> (next: Self)
        requires
            self.asks() is Some,
            self.asks()->Some_0.takes(answer),
        ensures
            next.root() == self.root(),
            next.forced() == self.forced(),
            next.rank() < self.rank(),
            forall|facts: StoreFacts|
                self.agrees(facts) && #[trigger] self.asks()->Some_0.answered(answer, facts)
                    ==> next.agrees(facts),
    {
        let ManifestLoader { root, force_rebuild, step } = self;
        let next = match (step, answer) {
            (LoadStep::ManifestExists, LoadAnswer::Exists(found)) => {
                if found {
                    LoadStep::OpenManifest
                } else {
                    LoadStep::MarkerExists { stored: StoredManifestState::Missing }
                }
            },
            (LoadStep::OpenManifest, LoadAnswer::Opened(opened)) => match opened {
                Ok(()) => LoadStep::ReadInfo,
                Err(error) => LoadStep::Done {
                    load: rebuild_manifest_load(
                        root.clone(),
                        prefixed("manifest could not be opened: ", error.as_str()),
                    ),
                },
            },
            (LoadStep::ReadInfo, LoadAnswer::Info(info)) => match stored_state_from_info(
                info,
                root.as_str(),
            ) {
                None => LoadStep::ReadFiles,
                Some(StoredManifestState::Rebuild(reason)) => LoadStep::Done {
                    load: rebuild_manifest_load(root.clone(), reason),
                },
                Some(stored) => LoadStep::MarkerExists { stored },
            },
            (LoadStep::ReadFiles, LoadAnswer::Rows { rows, failure }) => match read_files(
                rows,
                failure,
            ) {
                Ok(files) => LoadStep::MarkerExists {
                    stored: StoredManifestState::Ready(
                        Manifest { version: MANIFEST_VERSION, root: root.clone(), files },
                    ),
                },
                Err(error) => LoadStep::Done {
                    load: rebuild_manifest_load(
                        root.clone(),
                        prefixed("manifest could not be read: ", error.as_str()),
                    ),
                },
            },
            (LoadStep::MarkerExists { stored }, LoadAnswer::Exists(found)) => {
                if found {
                    LoadStep::ManifestExistsAgain { stored }
                } else {
                    Self::settle(stored, root.as_str())
                }
            },
            (LoadStep::ManifestExistsAgain { stored }, LoadAnswer::Exists(found)) => {
                if found {
                    LoadStep::ReopenManifest { stored }
                } else {
                    Self::settle(stored, root.as_str())
                }
            },
            (LoadStep::ReopenManifest { stored }, LoadAnswer::Opened(opened)) => match opened {
                Ok(()) => LoadStep::ReadWorkingInfo { stored },
                Err(error) => LoadStep::Done {
                    load: rebuild_manifest_load(
                        root.clone(),
                        prefixed("manifest could not be opened: ", error.as_str()),
                    ),
                },
            },
            (LoadStep::ReadWorkingInfo { stored }, LoadAnswer::Info(info)) => match info {
                Ok(info) => if manifest_info_fits(&info, root.as_str()) {
                    LoadStep::ReadWorkingFiles { stored }
                } else {
                    Self::settle(stored, root.as_str())
                },
                Err(error) => LoadStep::Done {
                    load: rebuild_manifest_load(
                        root.clone(),
                        prefixed("working manifest could not be read: ", error.as_str()),
                    ),
                },
            },
            (LoadStep::ReadWorkingFiles { stored }, LoadAnswer::Rows { rows, failure }) => {
                match read_files(rows, failure) {
                    Ok(files) => LoadStep::Done {
                        load: resume_manifest(
                            stored,
                            Manifest { version: MANIFEST_VERSION, root: root.clone(), files },
                        ),
                    },
                    Err(error) => LoadStep::Done {
                        load: rebuild_manifest_load(
                            root.clone(),
                            prefixed("working manifest could not be read: ", error.as_str()),
                        ),
                    },
                }
            },
            (LoadStep::IndexDataExists, LoadAnswer::Exists(found)) => LoadStep::Done {
                load: missing_manifest_load(root.clone(), found),
            },
            (step, _) => step,
        };
        ManifestLoader { root, force_rebuild, step: next }
    }

    /// Goes on from what the manifest tables hold.
    fn settle(stored: StoredManifestState, root: &str) -> (step: LoadStep)
        ensures
            match stored@ {
                StoredView::Missing => step is IndexDataExists,
                _ => step matches LoadStep::Done { load } && load@ == settled_load(
                    root@,
                    stored@,
                    false,
                ),
            },
    {
        match stored {
            StoredManifestState::Ready(manifest) => LoadStep::Done {
                load: manifest_load(manifest, None, false),
            },
            StoredManifestState::Missing => LoadStep::IndexDataExists,
            StoredManifestState::Rebuild(reason) => LoadStep::Done {
                load: rebuild_manifest_load(root.to_string(), reason),
            },
        }
    }

    /// The result of a load that is done: for every store of which all answers were true, the
    /// load that the store calls for.
    pub fn into_load(self) -> (load: ManifestLoad)
        requires
            self.asks() is None,
        ensures
            self.step() == (LoadStep::Done { load }),
            forall|facts: StoreFacts| #[trigger]
                self.agrees(facts) ==> load@ == expected_load(self.root(), self.forced(), facts),
    {
        match self.step {
            LoadStep::Done { load } => load,
            _ => rebuild_manifest_load(self.root, String::new()),
        }
    }
}

/// The manifest tables can be used: they can be read, and are those of this root in this version.
pub open spec fn usable(root: Seq<char>, facts: StoreFacts) -> bool {
    &&& facts.manifest_exists
    &&& facts.opened is Ok
    &&& facts.info matches Ok(Some((version, stored_root)))
    &&& version == MANIFEST_VERSION
    &&& stored_root == root
    &&& facts.files is Ok
}

/// There is no manifest: no file, or one in which nothing has been committed.
pub open spec fn without_manifest(facts: StoreFacts) -> bool {
    !facts.manifest_exists || (facts.opened is Ok && facts.info is Ok && facts.info->Ok_0 is None)
}

/// There may be an unfinished run to take up: it is marked, and nothing is wrong with the manifest.
pub open spec fn may_resume(root: Seq<char>, facts: StoreFacts) -> bool {
    &&& usable(root, facts) || without_manifest(facts)
    &&& facts.marker_exists
    &&& facts.manifest_exists_again
}

/// What an unfinished run on this root recorded can be read.
pub open spec fn resumable(root: Seq<char>, facts: StoreFacts) -> bool {
    &&& may_resume(root, facts)
    &&& facts.reopened is Ok
    &&& facts.working_info matches Ok(Some((version, stored_root)))
    &&& version == MANIFEST_VERSION
    &&& stored_root == root
    &&& facts.working_files is Ok
}

/// What an unfinished run recorded cannot be read.
pub open spec fn working_lost(root: Seq<char>, facts: StoreFacts) -> bool {
    &&& may_resume(root, facts)
    &&& {
        ||| facts.reopened is Err
        ||| facts.working_info is Err
        ||| {
            &&& facts.working_info matches Ok(Some((version, stored_root)))
            &&& version == MANIFEST_VERSION
            &&& stored_root == root
            &&& facts.working_files is Err
        }
    }
}

/// The index is built anew exactly where this is asked for, where there is a manifest that cannot be
/// used, where what an unfinished run recorded cannot be read, and where there is an index without
/// a manifest or a run to take up.
pub proof fn law_index_is_rebuilt_only_where_it_must_be(
    root: Seq<char>,
    force_rebuild: bool,
    facts: StoreFacts,
)
    ensures
        expected_load(root, force_rebuild, facts).rebuild_reason is Some <==> {
            ||| force_rebuild
            ||| !usable(root, facts) && !without_manifest(facts)
            ||| working_lost(root, facts)
            ||| without_manifest(facts) && !resumable(root, facts) && facts.index_data_exists
        },
        expected_load(root, force_rebuild, facts).resume_from_incomplete <==> !force_rebuild
            && resumable(root, facts),
{
}

/// A load is that of its root in this version. One that builds anew knows no file. Any other knows
/// exactly the files of the manifest, where that can be used, and those that an unfinished run
/// recorded, where it is taken up: what the run recorded counts over the manifest.
pub proof fn law_load_knows_what_was_stored(
    root: Seq<char>,
    force_rebuild: bool,
    facts: StoreFacts,
    path: Seq<char>,
)
    ensures
        ({
            let load = expected_load(root, force_rebuild, facts);
            let known = load.manifest.files;
            let recorded = load.resume_from_incomplete
                && facts.working_files->Ok_0.contains_key(path);
            let stored = usable(root, facts) && facts.files->Ok_0.contains_key(path);
            &&& load.manifest.root == root
            &&& load.manifest.version == MANIFEST_VERSION
            &&& load.rebuild_reason is Some ==> !known.contains_key(path)
                && !load.resume_from_incomplete
            &&& load.rebuild_reason is None ==> {
                &&& known.contains_key(path) <==> recorded || stored
                &&& recorded ==> known[path] == facts.working_files->Ok_0[path]
                &&& !recorded && stored ==> known[path] == facts.files->Ok_0[path]
            }
        }),
{
}

/// The reason for building anew says what was found: the error where something could not be opened
/// or read, the two versions, or the two roots.
pub proof fn law_rebuild_reason_says_what_was_found(root: Seq<char>, facts: StoreFacts)
    ensures
        facts.manifest_exists && facts.opened is Err ==> facts.opened->Err_0.is_suffix_of(
            expected_load(root, false, facts).rebuild_reason->Some_0,
        ),
        facts.manifest_exists && facts.opened is Ok && facts.info is Err
            ==> facts.info->Err_0.is_suffix_of(
            expected_load(root, false, facts).rebuild_reason->Some_0,
        ),
        facts.manifest_exists && facts.opened is Ok ==> (facts.info matches Ok(
            Some((version, stored_root)),
        ) ==> {
            let reason = expected_load(root, false, facts).rebuild_reason;
            &&& version != MANIFEST_VERSION ==> decimal(MANIFEST_VERSION as nat).is_suffix_of(
                reason->Some_0,
            ) && says(reason->Some_0, decimal(version as nat))
            &&& version == MANIFEST_VERSION && stored_root != root ==> root.is_suffix_of(
                reason->Some_0,
            ) && says(reason->Some_0, stored_root)
        }),
        working_lost(root, facts) && facts.reopened is Err ==> facts.reopened->Err_0.is_suffix_of(
            expected_load(root, false, facts).rebuild_reason->Some_0,
        ),
        working_lost(root, facts) && facts.reopened is Ok && facts.working_info is Err
            ==> facts.working_info->Err_0.is_suffix_of(
            expected_load(root, false, facts).rebuild_reason->Some_0,
        ),
        working_lost(root, facts) && facts.reopened is Ok && facts.working_info is Ok
            ==> facts.working_files->Err_0.is_suffix_of(
            expected_load(root, false, facts).rebuild_reason->Some_0,
        ),
{
    let reason = expected_load(root, false, facts).rebuild_reason->Some_0;
    if facts.manifest_exists && facts.opened is Err {
        lemma_suffix("manifest could not be opened: "@, facts.opened->Err_0);
    } else if facts.manifest_exists && facts.info is Err {
        lemma_suffix("manifest could not be read: "@, facts.info->Err_0);
    } else if facts.manifest_exists {
        if let Ok(Some((version, stored_root))) = facts.info {
            if version != MANIFEST_VERSION {
                let written = decimal(version as nat);
                let wanted = decimal(MANIFEST_VERSION as nat);
                lemma_suffix("manifest version "@ + written + " does not match "@, wanted);
                assert(reason =~= "manifest version "@ + written + (" does not match "@ + wanted));
            } else if stored_root != root {
                lemma_suffix("manifest root "@ + stored_root + " does not match "@, root);
                assert(reason =~= "manifest root "@ + stored_root + (" does not match "@ + root));
            }
        }
    }
    if working_lost(root, facts) {
        if facts.reopened is Err {
            lemma_suffix("manifest could not be opened: "@, facts.reopened->Err_0);
        } else if facts.working_info is Err {
            lemma_suffix("working manifest could not be read: "@, facts.working_info->Err_0);
        } else {
            lemma_suffix("working manifest could not be read: "@, facts.working_files->Err_0);
        }
    }
}

/// The text holds another somewhere.
pub open spec fn says(text: Seq<char>, part: Seq<char>) -> bool {
    exists|head: Seq<char>, rest: Seq<char>| text == #[trigger] (head + part + rest)
}

proof fn lemma_suffix(head: Seq<char>, end: Seq<char>)
    ensures
        end.is_suffix_of(head + end),
{
    let text = head + end;
    assert(end =~= text.subrange(text.len() - end.len(), text.len() as int));
}

/// A table gives its files only where every row was read and is in order; the first fault decides,
/// and a row that is at fault comes before a failure to read on.
pub proof fn law_table_is_read_whole_or_not_at_all(
    rows: Seq<(Seq<char>, RowColumns)>,
    failure: Option<Seq<char>>,
    i: int,
)
    ensures
        failure is Some ==> rows_outcome(rows, failure) is Err,
        0 <= i < rows.len() && columns_entry(rows[i].1) is Err && (forall|j: int|
            0 <= j < i ==> columns_entry((#[trigger] rows[j]).1) is Ok) ==> {
            &&& rows_outcome(rows, failure) is Err
            &&& rows_outcome(rows, failure)->Err_0 == columns_entry(
                rows[i].1,
            )->Err_0
        },
        failure is Some && (forall|j: int|
            0 <= j < rows.len() ==> columns_entry((#[trigger] rows[j]).1) is Ok)
            ==> rows_outcome(rows, failure) == Err::<Map<Seq<char>, ManifestEntry>, Seq<char>>(
            failure->Some_0,
        ),
        failure is None && (forall|j: int|
            0 <= j < rows.len() ==> columns_entry((#[trigger] rows[j]).1) is Ok)
            ==> rows_outcome(rows, failure) is Ok,
{
    lemma_first_fault(rows, i);
}

proof fn lemma_first_fault(rows: Seq<(Seq<char>, RowColumns)>, i: int)
    ensures
        0 <= i < rows.len() && columns_entry(rows[i].1) is Err && (forall|j: int|
            0 <= j < i ==> columns_entry((#[trigger] rows[j]).1) is Ok) ==> {
            &&& rows_files(rows) is Err
            &&& rows_files(rows)->Err_0 == columns_entry(rows[i].1)->Err_0
        },
        (forall|j: int|
            0 <= j < rows.len() ==> columns_entry((#[trigger] rows[j]).1) is Ok)
            ==> rows_files(rows) is Ok,
    decreases rows.len(),
{
    if rows.len() > 0 {
        let rest = rows.drop_last();
        lemma_first_fault(rest, i);
        assert(rows[rows.len() - 1] == rows.last());
        assert forall|j: int| 0 <= j < rest.len() implies #[trigger] rest[j] == rows[j] by {}
        if forall|j: int|
            0 <= j < rows.len() ==> columns_entry((#[trigger] rows[j]).1) is Ok {
            assert forall|j: int| 0 <= j < rest.len() implies columns_entry(
                (#[trigger] rest[j]).1,
            ) is Ok by {
                assert(rest[j] == rows[j]);
            }
        }
        if 0 <= i < rows.len() && columns_entry(rows[i].1) is Err && (forall|
            j: int,
        |
            0 <= j < i ==> columns_entry((#[trigger] rows[j]).1) is Ok) {
            assert forall|j: int| 0 <= j < i && j < rest.len() implies columns_entry(
                (#[trigger] rest[j]).1,
            ) is Ok by {
                assert(rest[j] == rows[j]);
            }
            if i < rest.len() {
                assert(rest[i] == rows[i]);
            }
        }
    }
}

/// What is said of the answers of the store is said of what it answered.
pub proof fn law_answers_are_taken_as_they_are(version: u32, root: String, text: String)
    ensures
        info_view(Ok(Some((version, root)))) == Ok::<Option<(u32, Seq<char>)>, Seq<char>>(
            Some((version, root@)),
        ),
        info_view(Ok(None)) == Ok::<Option<(u32, Seq<char>)>, Seq<char>>(None),
        info_view(Err(text)) == Err::<Option<(u32, Seq<char>)>, Seq<char>>(text@),
        opened_view(Ok(())) == Ok::<(), Seq<char>>(()),
        opened_view(Err(text)) == Err::<(), Seq<char>>(text@),
{
}

/// An answer is true of the store where it says what is the case of just what was asked for.
pub proof fn law_answer_is_about_its_question(
    found: bool,
    opened: Result<(), String>,
    info: Result<Option<(u32, String)>, String>,
    facts: StoreFacts,
)
    ensures
        LoadQuestion::ManifestExists.answered(LoadAnswer::Exists(found), facts) <==> found
            == facts.manifest_exists,
        LoadQuestion::MarkerExists.answered(LoadAnswer::Exists(found), facts) <==> found
            == facts.marker_exists,
        LoadQuestion::ManifestExistsAgain.answered(LoadAnswer::Exists(found), facts) <==> found
            == facts.manifest_exists_again,
        LoadQuestion::IndexDataExists.answered(LoadAnswer::Exists(found), facts) <==> found
            == facts.index_data_exists,
        LoadQuestion::OpenManifest.answered(LoadAnswer::Opened(opened), facts) ==> (
        opened is Ok <==> facts.opened is Ok),
        LoadQuestion::ReopenManifest.answered(LoadAnswer::Opened(opened), facts) ==> (
        opened is Ok <==> facts.reopened is Ok),
        LoadQuestion::ReadInfo.answered(LoadAnswer::Info(info), facts) ==> (info is Ok
            <==> facts.info is Ok),
        LoadQuestion::ReadWorkingInfo.answered(LoadAnswer::Info(info), facts) ==> (info is Ok
            <==> facts.working_info is Ok),
{
}

/// The rows that answer a question give the files of the table that was asked for.
pub proof fn law_rows_answer_for_their_table(
    rows: Vec<ManifestRow>,
    failure: Option<String>,
    facts: StoreFacts,
    path: Seq<char>,
)
    ensures
        LoadQuestion::ReadFiles.answered(LoadAnswer::Rows { rows, failure }, facts)
            && failure is Some ==> facts.files is Err,
        LoadQuestion::ReadWorkingFiles.answered(LoadAnswer::Rows { rows, failure }, facts)
            && failure is Some ==> facts.working_files is Err,
        LoadQuestion::ReadFiles.answered(LoadAnswer::Rows { rows, failure }, facts)
            && failure is None ==> facts.files == rows_files(rows.deep_view()),
        LoadQuestion::ReadWorkingFiles.answered(LoadAnswer::Rows { rows, failure }, facts)
            && failure is None ==> facts.working_files == rows_files(rows.deep_view()),
{
    law_table_is_read_whole_or_not_at_all(rows.deep_view(), failure.deep_view(), 0);
}

/// A load that has come to its end with true answers gives the manifest of the root: none of the
/// files where the index is to be built anew, and otherwise those that were stored, with those that
/// an unfinished run recorded over them.
pub proof fn law_finished_load_knows_what_was_stored(
    loader: ManifestLoader,
    load: ManifestLoad,
    facts: StoreFacts,
    path: Seq<char>,
)
    requires
        call_ensures(ManifestLoader::into_load, (loader,), load),
        loader.agrees(facts),
    ensures
        load.manifest.root@ == loader.root(),
        load.manifest.version == MANIFEST_VERSION,
        load.rebuild_reason is Some <==> {
            ||| loader.forced()
            ||| !usable(loader.root(), facts) && !without_manifest(facts)
            ||| working_lost(loader.root(), facts)
            ||| without_manifest(facts) && !resumable(loader.root(), facts)
                && facts.index_data_exists
        },
        load.resume_from_incomplete <==> !loader.forced() && resumable(loader.root(), facts),
        load.rebuild_reason is Some ==> !load.manifest.files@.contains_key(path),
        load.rebuild_reason is None ==> ({
            let recorded = load.resume_from_incomplete
                && facts.working_files->Ok_0.contains_key(path);
            let stored = usable(loader.root(), facts) && facts.files->Ok_0.contains_key(path);
            &&& load.manifest.files@.contains_key(path) <==> recorded || stored
            &&& recorded ==> load.manifest.files@[path] == facts.working_files->Ok_0[path]
            &&& !recorded && stored ==> load.manifest.files@[path] == facts.files->Ok_0[path]
        }),
{
    law_index_is_rebuilt_only_where_it_must_be(loader.root(), loader.forced(), facts);
    law_load_knows_what_was_stored(loader.root(), loader.forced(), facts, path);
    assert(load@ == expected_load(loader.root(), loader.forced(), facts));
}

/// A load begins with the root and the wish that it was given; one that is forced asks nothing.
pub proof fn law_load_begins_with_its_root(root: &Path, force_rebuild: bool, loader: ManifestLoader)
    requires
        call_ensures(ManifestLoader::new, (root, force_rebuild), loader),
    ensures
        loader.root() == displayed(path_bytes(root)),
        loader.forced() == force_rebuild,
        loader.asks() is None <==> force_rebuild,
{
}

/// A working manifest is reset unless an unfinished run on the same root, in the same version, is
/// taken up.
pub proof fn law_working_manifest_of_another_run_is_reset(
    resume_existing: bool,
    info: Option<(u32, String)>,
    root: &str,
    reset: bool,
    fits: bool,
)
    requires
        call_ensures(working_manifest_needs_reset, (resume_existing, &info, root), reset),
        call_ensures(manifest_info_fits, (&info, root), fits),
    ensures
        fits <==> info is Some && info->Some_0.0 == MANIFEST_VERSION && info->Some_0.1@ == root@,
        reset <==> !resume_existing || !fits,
{
}

/// A run that is taken up knows what it recorded, and of all other files what the manifest says.
pub proof fn law_resumed_run_knows_both(
    stored: StoredManifestState,
    working: Manifest,
    load: ManifestLoad,
    path: Seq<char>,
)
    requires
        call_ensures(resume_manifest, (stored, working), load),
    ensures
        load.resume_from_incomplete,
        load.rebuild_reason is None,
        working.files@.contains_key(path) ==> load.manifest.files@.contains_key(path)
            && load.manifest.files@[path] == working.files@[path],
        !working.files@.contains_key(path) ==> (stored matches StoredManifestState::Ready(manifest)
            ==> load.manifest.files@.contains_key(path) == manifest.files@.contains_key(path) && (
        manifest.files@.contains_key(path) ==> load.manifest.files@[path]
            == manifest.files@[path])),
        !working.files@.contains_key(path) && !(stored is Ready)
            ==> !load.manifest.files@.contains_key(path),
{
    assert(load@ == resumed_load(stored@, working@));
    match stored {
        StoredManifestState::Ready(manifest) => {
            assert(load.manifest.files@ == manifest.files@.union_prefer_right(working.files@));
        },
        StoredManifestState::Missing => {
            assert(load.manifest.files@ == working.files@);
        },
        StoredManifestState::Rebuild(_) => {
            assert(load.manifest.files@ == working.files@);
        },
    }
}

/// A load that starts from nothing says why, where there is a reason, and knows no file.
pub proof fn law_load_from_nothing_knows_no_file(
    root: String,
    reason: String,
    rebuilt: ManifestLoad,
    index_data_exists: bool,
    missing: ManifestLoad,
    path: Seq<char>,
)
    requires
        call_ensures(rebuild_manifest_load, (root, reason), rebuilt),
        call_ensures(missing_manifest_load, (root, index_data_exists), missing),
    ensures
        rebuilt.rebuild_reason is Some && rebuilt.rebuild_reason->Some_0@ == reason@,
        !rebuilt.resume_from_incomplete && !missing.resume_from_incomplete,
        rebuilt.manifest.root@ == root@ && missing.manifest.root@ == root@,
        !rebuilt.manifest.files@.contains_key(path) && !missing.manifest.files@.contains_key(path),
        missing.rebuild_reason is Some <==> index_data_exists,
{
    assert(rebuilt@ == rebuild_load(root@, reason@));
    assert(missing@ == settled_load(root@, StoredView::Missing, index_data_exists));
}

/// The working manifest that is read from rows is that of the root, with the files of the rows; a
/// row at fault, or a failure to read on, gives none.
pub proof fn law_working_manifest_is_read_from_its_rows(
    root: &str,
    rows: Vec<ManifestRow>,
    failure: Option<SearchxError>,
    manifest: Result<Manifest, SearchxError>,
)
    requires
        call_ensures(working_manifest_from_rows, (root, &rows, failure), manifest),
    ensures
        failure is Some ==> manifest is Err,
        manifest is Ok ==> manifest->Ok_0.root@ == root@ && manifest->Ok_0.version
            == MANIFEST_VERSION && rows_files(rows.deep_view()) == Ok::<
            Map<Seq<char>, ManifestEntry>,
            Seq<char>,
        >(manifest->Ok_0.files@),
        rows_files(rows.deep_view()) is Ok && failure is None ==> manifest is Ok,
        rows_files(rows.deep_view()) is Ok && failure is Some ==> manifest->Err_0
            == failure->Some_0,
{
}

/// What the info of a manifest says by itself: it is missing, or cannot be used, or the files are to
/// be read, which they are exactly where root and version fit.
pub proof fn law_info_decides_whether_files_are_read(
    info: Result<Option<(u32, String)>, String>,
    root: &str,
    stored: Option<StoredManifestState>,
)
    requires
        call_ensures(stored_state_from_info, (info, root), stored),
    ensures
        stored is None <==> info is Ok && info->Ok_0 is Some && info->Ok_0->Some_0.0
            == MANIFEST_VERSION && info->Ok_0->Some_0.1@ == root@,
        info is Ok && info->Ok_0 is None ==> stored == Some(StoredManifestState::Missing),
        info is Err || (info->Ok_0 is Some && stored is Some) ==> stored->Some_0 is Rebuild,
{
    if let Some(state) = stored {
        match state {
            StoredManifestState::Ready(manifest) => {},
            StoredManifestState::Missing => {},
            StoredManifestState::Rebuild(reason) => {},
        }
    }
}

/// A load is made of what it is given.
pub proof fn law_load_is_made_of_what_it_is_given(
    manifest: Manifest,
    reason: Option<String>,
    resume: bool,
    load: ManifestLoad,
    root: String,
    empty: ManifestLoad,
    path: Seq<char>,
)
    requires
        call_ensures(manifest_load, (manifest, reason, resume), load),
        call_ensures(manifest_load_with_reason, (root, reason), empty),
    ensures
        load.manifest@ == manifest@,
        load.resume_from_incomplete == resume,
        load.rebuild_reason.deep_view() == reason.deep_view(),
        empty.manifest.root@ == root@,
        !empty.manifest.files@.contains_key(path),
        !empty.resume_from_incomplete,
        empty.rebuild_reason.deep_view() == reason.deep_view(),
{
    assert(load@.manifest == manifest@);
    assert(empty@.manifest.files == Map::<Seq<char>, ManifestEntry>::empty());
}

} // verus!
