use searchx::constants::{
    INCOMPLETE_FILE_NAME, INDEX_DATA_FILE_NAME, MANIFEST_FILE_NAME, MANIFEST_VERSION,
};
use searchx::error::SearchxError;
use searchx::load::{
    manifest_info_fits, working_manifest_from_rows, working_manifest_needs_reset, LoadAnswer,
    LoadQuestion, ManifestLoader,
};
use searchx::manifest::{
    entry_from_row, file_state_from_db, file_state_to_db, files_from_rows, i64_from_u64,
    manifest_row, u64_from_i64, FileFingerprint, FileState, ManifestEntry, ManifestRow, SkipReason,
};
use searchx::scan::ProgressUpdate;
use searchx::store::{
    commit_working_manifest, data_paths, discard_working_manifest, index_data_file,
    open_working_manifest, update_entries, update_entry, StoreAction,
};
use searchx::{Manifest, ManifestLoad};
use std::collections::BTreeMap;
use std::path::{Path, PathBuf};

const ROOT: &str = "/data/root";

#[derive(Default)]
struct Store {
    info: Option<(u32, String)>,
    files: BTreeMap<String, ManifestRow>,
    working_info: Option<(u32, String)>,
    working_files: BTreeMap<String, ManifestRow>,
    marker: bool,
    exists: bool,
    index_data: bool,
    open_error: Option<String>,
    info_error: Option<String>,
    files_failure: Option<String>,
    working_failure: Option<String>,
}

impl Store {
    fn new() -> Self {
        Store { exists: true, ..Store::default() }
    }

    fn run(&mut self, actions: Vec<StoreAction>) {
        self.exists = true;
        for action in actions {
            match action {
                StoreAction::ClearWorkingInfo => self.working_info = None,
                StoreAction::ClearWorkingFiles => self.working_files.clear(),
                StoreAction::PutWorkingInfo { version, root } => {
                    self.working_info = Some((version, root));
                }
                StoreAction::PutWorkingFile { row } => {
                    self.working_files.insert(row.path.clone(), row);
                }
                StoreAction::PutInfo { version, root } => self.info = Some((version, root)),
                StoreAction::ClearFiles => self.files.clear(),
                StoreAction::CopyWorkingFiles => {
                    self.files.extend(self.working_files.clone());
                }
            }
        }
    }

    fn open_working(&mut self, resume: bool) {
        let info = self.working_info.clone();
        self.run(open_working_manifest(ROOT, resume, &info));
    }

    fn record(&mut self, path: &str, entry: &ManifestEntry) {
        self.run(vec![update_entry(path, entry).unwrap()]);
    }

    fn answer(&self, question: LoadQuestion) -> LoadAnswer {
        let opened = match &self.open_error {
            Some(error) => Err(error.clone()),
            None => Ok(()),
        };
        match question {
            LoadQuestion::ManifestExists => LoadAnswer::Exists(self.exists),
            LoadQuestion::OpenManifest => LoadAnswer::Opened(opened),
            LoadQuestion::ReadInfo => LoadAnswer::Info(match &self.info_error {
                Some(error) => Err(error.clone()),
                None => Ok(self.info.clone()),
            }),
            LoadQuestion::ReadFiles => LoadAnswer::Rows {
                rows: self.files.values().cloned().collect(),
                failure: self.files_failure.clone(),
            },
            LoadQuestion::MarkerExists => LoadAnswer::Exists(self.marker),
            LoadQuestion::ManifestExistsAgain => LoadAnswer::Exists(self.exists),
            LoadQuestion::ReopenManifest => LoadAnswer::Opened(opened),
            LoadQuestion::ReadWorkingInfo => LoadAnswer::Info(Ok(self.working_info.clone())),
            LoadQuestion::ReadWorkingFiles => LoadAnswer::Rows {
                rows: self.working_files.values().cloned().collect(),
                failure: self.working_failure.clone(),
            },
            LoadQuestion::IndexDataExists => LoadAnswer::Exists(self.index_data),
        }
    }

    fn load(&self, force_rebuild: bool) -> ManifestLoad {
        let mut loader = ManifestLoader::new(Path::new(ROOT), force_rebuild);
        while let Some(question) = loader.question() {
            loader = loader.answer(self.answer(question));
        }
        loader.into_load()
    }
}

fn entry(size: u64, secs: u64, nanos: u32, state: FileState) -> ManifestEntry {
    ManifestEntry::from_fingerprint(
        FileFingerprint { size, modified_secs: secs, modified_nanos: nanos },
        state,
    )
}

#[test]
fn load_manifest_resumes_from_working_state_when_previous_run_was_incomplete() {
    let mut store = Store::new();
    let old_entry = entry(1, 2, 3, FileState::Indexed);
    store.info = Some((MANIFEST_VERSION, ROOT.to_string()));
    store.files.insert(
        "old.txt".to_string(),
        ManifestRow {
            path: "old.txt".to_string(),
            size: 1,
            modified_secs: 2,
            modified_nanos: 3,
            state: "indexed".to_string(),
            skip_reason: None,
        },
    );
    store.open_working(false);
    let resumed_entry = entry(7, 8, 9, FileState::Indexed);
    store.record("new.txt", &resumed_entry);
    store.marker = true;

    let loaded = store.load(false);
    assert!(loaded.rebuild_reason.is_none());
    assert!(loaded.resume_from_incomplete);
    assert_eq!(loaded.manifest.files.get("old.txt"), Some(&old_entry));
    assert_eq!(loaded.manifest.files.get("new.txt"), Some(&resumed_entry));
}

#[test]
fn manifest_persists_in_sqlite_without_exposing_uncommitted_working_state() {
    let mut expected = Manifest::new(Path::new(ROOT));
    expected.files.insert("indexed.txt".to_string(), entry(12, 34, 56, FileState::Indexed));
    expected.files.insert(
        "too-large.bin".to_string(),
        entry(78, 90, 12, FileState::Skipped { reason: SkipReason::TooLarge }),
    );

    let mut store = Store::new();
    store.open_working(false);
    for i in 0..expected.files.len() {
        store.record(expected.files.key_at(i), expected.files.value_at(i));
    }
    store.run(commit_working_manifest(ROOT));

    let loaded = store.load(false);
    assert!(loaded.rebuild_reason.is_none());
    assert_eq!(loaded.manifest, expected);

    store.open_working(false);
    store.record("stale.txt", &entry(1, 2, 3, FileState::Indexed));
    let loaded_again = store.load(false);
    assert_eq!(loaded_again.manifest, expected);

    store.run(discard_working_manifest());
    assert!(store.working_info.is_none());
    assert!(store.working_files.is_empty());
    assert_eq!(store.load(false).manifest, expected);
}

#[test]
fn the_last_update_of_a_path_counts() {
    let mut store = Store::new();
    store.open_working(false);
    let waiting = entry(1, 2, 3, FileState::IndexedPendingEmbedding);
    let done = entry(1, 2, 3, FileState::Indexed);
    let updates = vec![
        ProgressUpdate { path: "a.txt".to_string(), entry: waiting },
        ProgressUpdate { path: "b.txt".to_string(), entry: waiting },
        ProgressUpdate { path: "a.txt".to_string(), entry: done },
    ];
    let (actions, error) = update_entries(&updates);
    assert!(error.is_none());
    assert_eq!(actions.len(), 3);
    store.run(actions);
    store.run(commit_working_manifest(ROOT));
    let loaded = store.load(false);
    assert_eq!(loaded.manifest.files.len(), 2);
    assert_eq!(loaded.manifest.files.get("a.txt"), Some(&done));
    assert_eq!(loaded.manifest.files.get("b.txt"), Some(&waiting));
}

#[test]
fn an_entry_that_cannot_be_stored_ends_the_updates() {
    let good = entry(1, 2, 3, FileState::Indexed);
    let bad = entry(u64::MAX, 2, 3, FileState::Indexed);
    let updates = vec![
        ProgressUpdate { path: "a.txt".to_string(), entry: good },
        ProgressUpdate { path: "b.txt".to_string(), entry: bad },
        ProgressUpdate { path: "c.txt".to_string(), entry: good },
    ];
    let (actions, error) = update_entries(&updates);
    assert_eq!(actions.len(), 1);
    assert_eq!(
        error.unwrap().to_text(),
        "manifest size value 18446744073709551615 exceeds sqlite INTEGER range"
    );
    let late = entry(1, u64::MAX, 3, FileState::Indexed);
    assert_eq!(
        update_entry("d.txt", &late).unwrap_err().to_text(),
        "manifest modified_secs value 18446744073709551615 exceeds sqlite INTEGER range"
    );
}

#[test]
fn a_forced_rebuild_starts_from_nothing() {
    let mut store = Store::new();
    store.open_working(false);
    store.record("a.txt", &entry(1, 2, 3, FileState::Indexed));
    store.run(commit_working_manifest(ROOT));
    let loaded = store.load(true);
    assert_eq!(loaded.rebuild_reason, Some("forced by --rebuild".to_string()));
    assert_eq!(loaded.manifest, Manifest::new(Path::new(ROOT)));
    assert!(!loaded.resume_from_incomplete);
}

#[test]
fn a_missing_manifest_is_a_reason_to_rebuild_only_beside_an_index() {
    let mut store = Store { exists: false, ..Store::default() };
    assert_eq!(store.load(false).rebuild_reason, None);
    store.index_data = true;
    assert_eq!(store.load(false).rebuild_reason, Some("manifest is missing".to_string()));
    store.exists = true;
    assert_eq!(store.load(false).rebuild_reason, Some("manifest is missing".to_string()));
    store.marker = true;
    let loaded = store.load(false);
    assert_eq!(loaded.rebuild_reason, Some("manifest is missing".to_string()));
    assert!(!loaded.resume_from_incomplete);
}

#[test]
fn an_unfinished_first_run_is_resumed() {
    let mut store = Store::new();
    store.open_working(false);
    let recorded = entry(1, 2, 3, FileState::Indexed);
    store.record("a.txt", &recorded);
    store.marker = true;
    let loaded = store.load(false);
    assert!(loaded.resume_from_incomplete);
    assert_eq!(loaded.rebuild_reason, None);
    assert_eq!(loaded.manifest.version, MANIFEST_VERSION);
    assert_eq!(loaded.manifest.root, ROOT);
    assert_eq!(loaded.manifest.files.get("a.txt"), Some(&recorded));
}

#[test]
fn reasons_to_rebuild() {
    let mut store = Store::new();
    store.info = Some((1, ROOT.to_string()));
    assert_eq!(
        store.load(false).rebuild_reason,
        Some("manifest version 1 does not match 2".to_string())
    );
    store.info = Some((MANIFEST_VERSION, "/other".to_string()));
    assert_eq!(
        store.load(false).rebuild_reason,
        Some("manifest root /other does not match /data/root".to_string())
    );
    store.info = Some((MANIFEST_VERSION, ROOT.to_string()));
    store.files_failure = Some("disk".to_string());
    assert_eq!(
        store.load(false).rebuild_reason,
        Some("manifest could not be read: disk".to_string())
    );
    store.info_error = Some("torn".to_string());
    assert_eq!(
        store.load(false).rebuild_reason,
        Some("manifest could not be read: torn".to_string())
    );
    store.open_error = Some("locked".to_string());
    assert_eq!(
        store.load(false).rebuild_reason,
        Some("manifest could not be opened: locked".to_string())
    );

    let mut store = Store::new();
    store.marker = true;
    store.open_working(false);
    store.working_failure = Some("disk".to_string());
    assert_eq!(
        store.load(false).rebuild_reason,
        Some("working manifest could not be read: disk".to_string())
    );
}

#[test]
fn a_bad_row_is_a_reason_to_rebuild() {
    let mut store = Store::new();
    store.info = Some((MANIFEST_VERSION, ROOT.to_string()));
    let mut row = manifest_row("a.txt", &entry(1, 2, 3, FileState::Indexed)).unwrap();
    row.size = -5;
    store.files.insert("a.txt".to_string(), row);
    assert_eq!(
        store.load(false).rebuild_reason,
        Some(
            "manifest could not be read: manifest size value -5 is negative and invalid".to_string()
        )
    );
}

#[test]
fn a_working_manifest_is_kept_only_for_a_resumed_run_on_the_same_root() {
    let own = Some((MANIFEST_VERSION, ROOT.to_string()));
    let other = Some((MANIFEST_VERSION, "/other".to_string()));
    let older = Some((1, ROOT.to_string()));
    assert!(!working_manifest_needs_reset(true, &own, ROOT));
    assert!(working_manifest_needs_reset(false, &own, ROOT));
    assert!(working_manifest_needs_reset(true, &other, ROOT));
    assert!(working_manifest_needs_reset(true, &older, ROOT));
    assert!(working_manifest_needs_reset(true, &None, ROOT));
    assert!(manifest_info_fits(&own, ROOT));
    assert!(!manifest_info_fits(&None, ROOT));

    let mut store = Store::new();
    store.open_working(false);
    store.record("a.txt", &entry(1, 2, 3, FileState::Indexed));
    store.open_working(true);
    assert_eq!(store.working_files.len(), 1);
    store.open_working(false);
    assert_eq!(store.working_files.len(), 0);
    assert_eq!(store.working_info, own);
}

#[test]
fn states_are_stored_and_read_back() {
    let mut states = vec![FileState::Indexed, FileState::IndexedPendingEmbedding];
    for reason in [SkipReason::TooLarge, SkipReason::Binary] {
        states.push(FileState::IndexedMetadata { reason });
        states.push(FileState::IndexedMetadataPendingEmbedding { reason });
        states.push(FileState::Skipped { reason });
    }
    for state in states {
        let (name, reason) = file_state_to_db(&state);
        assert_eq!(file_state_from_db(name, reason).unwrap(), state);
    }
    assert_eq!(file_state_to_db(&FileState::Indexed), ("indexed", None));
    assert_eq!(
        file_state_to_db(&FileState::IndexedMetadata { reason: SkipReason::Binary }),
        ("indexed", Some("binary"))
    );
    assert_eq!(
        file_state_to_db(&FileState::Skipped { reason: SkipReason::TooLarge }),
        ("skipped", Some("too_large"))
    );
}

#[test]
fn bad_states_give_their_errors() {
    assert!(matches!(
        file_state_from_db("skipped", None),
        Err(SearchxError::MissingSkipReason)
    ));
    assert_eq!(
        file_state_from_db("skipped", None).unwrap_err().to_text(),
        "skipped entry is missing a skip reason"
    );
    assert_eq!(
        file_state_from_db("in\"dexed", None).unwrap_err().to_text(),
        "invalid manifest state \"in\\\"dexed\" with reason None"
    );
    assert_eq!(
        file_state_from_db("indexed", Some("odd")).unwrap_err().to_text(),
        "invalid manifest state \"indexed\" with reason Some(\"odd\")"
    );
}

#[test]
fn integers_are_converted_or_refused() {
    assert_eq!(i64_from_u64(i64::MAX as u64, "size").unwrap(), i64::MAX);
    assert!(matches!(
        i64_from_u64(i64::MAX as u64 + 1, "size"),
        Err(SearchxError::ManifestIntegerOverflow { field: "size", value: 9223372036854775808 })
    ));
    assert_eq!(u64_from_i64(0, "size").unwrap(), 0);
    assert!(matches!(
        u64_from_i64(-1, "size"),
        Err(SearchxError::ManifestNegativeValue { field: "size", value: -1 })
    ));
    assert_eq!(
        u64_from_i64(i64::MIN, "size").unwrap_err().to_text(),
        "manifest size value -9223372036854775808 is negative and invalid"
    );
}

#[test]
fn entries_are_stored_and_read_back() {
    let stored = entry(
        12,
        34,
        u32::MAX,
        FileState::IndexedMetadataPendingEmbedding { reason: SkipReason::Binary },
    );
    let row = manifest_row("a/b.txt", &stored).unwrap();
    assert_eq!(row.path, "a/b.txt");
    assert_eq!(row.modified_nanos, 4294967295);
    assert_eq!(entry_from_row(&row).unwrap(), stored);

    let mut wide = row.clone();
    wide.modified_nanos = 4294967296;
    assert!(matches!(entry_from_row(&wide), Err(SearchxError::IntegerConversion)));
    assert_eq!(
        entry_from_row(&wide).unwrap_err().to_text(),
        "out of range integral type conversion attempted"
    );

    let files = files_from_rows(&vec![row.clone()]).unwrap();
    assert_eq!(files.get("a/b.txt"), Some(&stored));
    assert!(files_from_rows(&vec![row.clone(), wide]).is_err());
    let manifest = working_manifest_from_rows(ROOT, &vec![row.clone()], None).unwrap();
    assert_eq!(manifest.root, ROOT);
    assert_eq!(manifest.files.len(), 1);
    let failure = || Some(SearchxError::Sqlite { message: "disk".to_string() });
    let failed = working_manifest_from_rows(ROOT, &vec![row.clone()], failure());
    assert!(matches!(failed, Err(SearchxError::Sqlite { .. })));
    let mut bad = row;
    bad.size = -1;
    let refused = working_manifest_from_rows(ROOT, &vec![bad], failure());
    assert!(matches!(refused, Err(SearchxError::ManifestNegativeValue { field: "size", value: -1 })));
}

#[test]
fn fingerprints_of_files() {
    let known = FileFingerprint::from_metadata(5, Some((6, 7)));
    assert_eq!((known.size, known.modified_secs, known.modified_nanos), (5, 6, 7));
    let unknown = FileFingerprint::from_metadata(5, None);
    assert_eq!((unknown.size, unknown.modified_secs, unknown.modified_nanos), (5, 0, 0));
    let stored = ManifestEntry::from_fingerprint(known, FileState::Indexed);
    assert!(stored.matches(known));
    assert!(!stored.matches(unknown));
}

#[test]
fn the_data_directory_holds_three_things() {
    let paths = data_paths(Path::new("/work"), Path::new("data"));
    assert_eq!(paths.base, PathBuf::from("/work/data"));
    assert_eq!(paths.index, PathBuf::from("/work/data/index"));
    assert_eq!(paths.manifest, Path::new("/work/data").join(MANIFEST_FILE_NAME));
    assert_eq!(paths.incomplete_marker, Path::new("/work/data").join(INCOMPLETE_FILE_NAME));
    assert_eq!(index_data_file(&paths), paths.index.join(INDEX_DATA_FILE_NAME));
    let absolute = data_paths(Path::new("/work"), Path::new("/elsewhere"));
    assert_eq!(absolute.base, PathBuf::from("/elsewhere"));
}

#[test]
fn a_default_manifest_is_empty() {
    let manifest = Manifest::default();
    assert_eq!(manifest.version, 0);
    assert_eq!(manifest.root, "");
    assert!(manifest.files.is_empty());
    assert_eq!(Manifest::new(Path::new(ROOT)).root, ROOT);
}

#[test]
fn a_resumed_run_reads_back_with_what_it_took_up() {
    let mut store = Store::new();
    store.open_working(false);
    let early = entry(1, 2, 3, FileState::Indexed);
    let waiting = entry(4, 5, 6, FileState::IndexedPendingEmbedding);
    store.record("early.txt", &early);
    store.record("both.txt", &waiting);
    store.marker = true;
    assert!(store.load(false).resume_from_incomplete);

    store.open_working(true);
    let done = entry(4, 5, 6, FileState::Indexed);
    let late = entry(7, 8, 9, FileState::Indexed);
    store.record("both.txt", &done);
    store.record("late.txt", &late);
    store.run(commit_working_manifest(ROOT));
    store.marker = false;

    let loaded = store.load(false);
    assert!(!loaded.resume_from_incomplete);
    assert_eq!(loaded.rebuild_reason, None);
    assert_eq!(loaded.manifest.files.len(), 3);
    assert_eq!(loaded.manifest.files.get("early.txt"), Some(&early));
    assert_eq!(loaded.manifest.files.get("both.txt"), Some(&done));
    assert_eq!(loaded.manifest.files.get("late.txt"), Some(&late));
}

#[test]
fn a_copied_manifest_is_the_same_and_stands_alone() {
    let mut manifest = Manifest::new(Path::new(ROOT));
    manifest.files.insert("b.txt".to_string(), entry(1, 2, 3, FileState::Indexed));
    manifest.files.insert("a.txt".to_string(), entry(4, 5, 6, FileState::Indexed));
    let copy = manifest.clone();
    assert_eq!(copy, manifest);
    manifest.files.remove("a.txt");
    assert_eq!(copy.files.len(), 2);
    assert_eq!(copy.files.key_at(0), "a.txt");
}

#[test]
fn a_working_manifest_is_opened_and_dropped_info_first() {
    let opening = open_working_manifest(ROOT, false, &None);
    assert_eq!(
        opening,
        vec![
            StoreAction::ClearWorkingInfo,
            StoreAction::ClearWorkingFiles,
            StoreAction::PutWorkingInfo { version: MANIFEST_VERSION, root: ROOT.to_string() },
        ]
    );
    assert_eq!(discard_working_manifest(), opening[..2].to_vec());
    let own = Some((MANIFEST_VERSION, ROOT.to_string()));
    assert!(open_working_manifest(ROOT, true, &own).is_empty());

    for cut in 1..=opening.len() {
        let mut store = Store::new();
        store.working_info = own.clone();
        let row = manifest_row("old.txt", &entry(1, 2, 3, FileState::Indexed)).unwrap();
        store.working_files.insert("old.txt".to_string(), row);
        store.run(opening[..cut].to_vec());
        assert!(store.working_info.is_none() || store.working_files.is_empty());
    }
}
