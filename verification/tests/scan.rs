use ignore::gitignore::GitignoreBuilder;
use searchx::api::{ScanErrorKind, ScanOptions, SyncStats};
use searchx::document::document_id_for_path;
use searchx::embedding::EmbeddingQueue;
use searchx::error::SearchxError;
use searchx::manifest::{FileFingerprint, FileState, Manifest, ManifestEntry, SkipReason};
use searchx::paths::{normalize_relative_path, should_walk_entry, EntryPath};
use searchx::scan::{
    delivery_result, ensure_indexing_not_canceled, ensure_not_canceled, has_image_extension,
    ignore_file_text, is_scanned, metadata_embedding_text, pending_embedding_state,
    supported_binary_embedding_input, EmbeddingJob, EmbeddingJobInput, IndexEvent, MetadataStep,
    ProgressUpdate, ScanContext, ScanMessage, ScanOutput,
};
use std::collections::BTreeSet;
use std::path::Path;

const ROOT: &str = "/data/root";

fn options(max_file_bytes: u64) -> ScanOptions {
    ScanOptions { rebuild: false, max_file_bytes, ignore_rules: Vec::new() }
}

fn entry_path(relative: &str) -> EntryPath {
    let path = Path::new(ROOT).join(relative);
    EntryPath::from_path(&path, Path::new(ROOT), '/').unwrap()
}

fn print(size: u64) -> FileFingerprint {
    FileFingerprint::from_metadata(size, Some((7, 8)))
}

struct Scanned {
    errors: Vec<String>,
    messages: Vec<ScanMessage>,
}

fn take(scanned: &mut Scanned, output: ScanOutput) {
    if let Some(error) = output.error {
        scanned.errors.push(error.to_text());
    }
    scanned.messages.extend(output.messages);
}

fn scan_files(
    options: &ScanOptions,
    previous: &Manifest,
    embed: bool,
    files: &[(&str, &[u8])],
) -> (Scanned, SyncStats) {
    let mut context = ScanContext::new(options, previous, embed);
    let mut scanned = Scanned { errors: Vec::new(), messages: Vec::new() };
    for (relative, bytes) in files {
        let path = entry_path(relative);
        context.scan_entry(&path);
        match context.scan_metadata(&path, Ok(print(bytes.len() as u64))) {
            MetadataStep::Finished(output) => take(&mut scanned, output),
            MetadataStep::ReadBytes(fingerprint) => {
                let output = context.scan_bytes(&path, fingerprint, Ok(bytes.to_vec()));
                take(&mut scanned, output);
            }
        }
    }
    let events = context.delete_missing_documents();
    scanned.messages.extend(events.into_iter().map(ScanMessage::Event));
    (scanned, context.finish())
}

fn upserted(messages: &[ScanMessage]) -> Vec<serde_json::Value> {
    messages
        .iter()
        .filter_map(|message| match message {
            ScanMessage::Event(IndexEvent::Upsert { document, .. }) => {
                Some(serde_json::from_str(document).unwrap())
            }
            _ => None,
        })
        .collect()
}

fn indexed_paths(messages: &[ScanMessage]) -> BTreeSet<String> {
    upserted(messages)
        .into_iter()
        .map(|value| value["path"].as_str().unwrap().to_string())
        .collect()
}

fn not_ignored<'a>(rules: &str, files: &[(&'a str, &'a [u8])]) -> Vec<(&'a str, &'a [u8])> {
    let mut builder = GitignoreBuilder::new(ROOT);
    for line in rules.lines() {
        builder.add_line(None, line).unwrap();
    }
    let matcher = builder.build().unwrap();
    files
        .iter()
        .filter(|(relative, _)| {
            let path = Path::new(ROOT).join(relative);
            !matcher.matched_path_or_any_parents(&path, false).is_ignore()
        })
        .copied()
        .collect()
}

#[test]
fn scan_root_respects_gitignore_style_ignore_rules() {
    let rules = vec!["*.log".to_string(), "!keep.log".to_string(), "build/".to_string()];
    let text = ignore_file_text(&rules).unwrap();
    assert_eq!(text, "*.log\n!keep.log\nbuild/\n");
    let files: [(&str, &[u8]); 3] = [
        ("keep.log", b"keep me"),
        ("skip.log", b"skip me"),
        ("build/artifact.txt", b"artifact"),
    ];

    let manifest = Manifest::new(Path::new(ROOT));
    let walked = not_ignored(&text, &files);
    let (scanned, _) = scan_files(&options(u64::MAX), &manifest, false, &walked);

    assert_eq!(indexed_paths(&scanned.messages), BTreeSet::from(["keep.log".to_string()]));
}

#[test]
fn scan_root_applies_dot_gitignore_rules_outside_git_repos() {
    assert_eq!(ignore_file_text(&Vec::new()), None);
    let files: [(&str, &[u8]); 4] = [
        (".gitignore", b"*.tmp\n"),
        ("visible.txt", b"visible"),
        ("ignored.tmp", b"ignored"),
        (".env", b"SECRET=1\n"),
    ];

    let rules = files.iter().find(|(name, _)| *name == ".gitignore").unwrap().1;

    let manifest = Manifest::new(Path::new(ROOT));
    let walked = not_ignored(std::str::from_utf8(rules).unwrap(), &files);
    let (scanned, _) = scan_files(&options(u64::MAX), &manifest, false, &walked);
    let indexed = indexed_paths(&scanned.messages);

    assert!(indexed.contains("visible.txt"));
    assert!(indexed.contains(".env"));
    assert!(!indexed.contains("ignored.tmp"));
}

#[test]
fn scan_root_still_indexes_binary_files_by_name() {
    let manifest = Manifest::new(Path::new(ROOT));
    let files: [(&str, &[u8]); 1] = [("archive.pdf", &[0, 1, 2, 3])];
    let (scanned, _) = scan_files(&options(u64::MAX), &manifest, false, &files);
    assert!(indexed_paths(&scanned.messages).contains("archive.pdf"));
}

#[test]
fn sync_indexes_supported_images_without_marking_them_as_skipped_binary() {
    let manifest = Manifest::new(Path::new(ROOT));
    let pixel: &[u8] = b"GIF89a\x01\x00\x01\x00\x80\x00\x00\x00\x00\x00\xff\xff\xff!\xf9\x04\x01\x00\x00\x00\x00,\x00\x00\x00\x00\x01\x00\x01\x00\x00\x02\x02L\x01\x00;";
    let (scanned, stats) =
        scan_files(&options(u64::MAX), &manifest, false, &[("pixel.gif", pixel)]);

    assert_eq!(stats.skipped_binary, 0);
    assert_eq!(stats.indexed_or_updated, 1);
    let documents = upserted(&scanned.messages);
    assert_eq!(documents.len(), 1);
    assert_eq!(documents[0]["path"], "pixel.gif");
    assert_eq!(documents[0]["contents"], "");

    let (scanned, stats) =
        scan_files(&options(u64::MAX), &manifest, true, &[("pixel.gif", pixel)]);
    assert_eq!(stats.skipped_binary, 0);
    match &scanned.messages[1] {
        ScanMessage::Embed(job) => {
            assert_eq!(job.input, EmbeddingJobInput::Image(pixel.to_vec()));
        }
        other => panic!("{other:?}"),
    }
}

#[test]
fn sync_indexes_binary_and_oversized_files_by_name() {
    let manifest = Manifest::new(Path::new(ROOT));
    let recording = vec![b'x'; 32];
    let files: [(&str, &[u8]); 3] = [
        ("archive.pdf", &[0, 1, 2, 3]),
        ("blob.bin", &[0, 1, 2, 3]),
        ("recording.mp4", &recording),
    ];
    let (scanned, stats) = scan_files(&options(8), &manifest, false, &files);

    assert_eq!(stats.skipped_binary, 1);
    assert_eq!(stats.skipped_too_large, 1);
    assert_eq!(stats.indexed_or_updated, 3);
    let documents = upserted(&scanned.messages);
    assert_eq!(documents.len(), 3);
    for (document, name) in documents.iter().zip(["archive.pdf", "blob.bin", "recording.mp4"]) {
        assert_eq!(document["path"], name);
        assert_eq!(document["file_name"], name);
        assert_eq!(document["contents"], "");
    }
}

fn entry(size: u64, state: FileState) -> ManifestEntry {
    ManifestEntry::from_fingerprint(print(size), state)
}

fn manifest_with(entries: &[(&str, ManifestEntry)]) -> Manifest {
    let mut manifest = Manifest::new(Path::new(ROOT));
    for (path, entry) in entries {
        manifest.files.insert(path.to_string(), *entry);
    }
    manifest
}

fn progress(path: &str, entry: ManifestEntry) -> ScanMessage {
    ScanMessage::Event(IndexEvent::Progress(ProgressUpdate { path: path.to_string(), entry }))
}

#[test]
fn unchanged_files_are_not_indexed_again() {
    let kept = entry(3, FileState::Indexed);
    let named = entry(4, FileState::IndexedMetadata { reason: SkipReason::Binary });
    let manifest = manifest_with(&[("a.txt", kept), ("b.bin", named)]);
    let files: [(&str, &[u8]); 2] = [("a.txt", b"abc"), ("b.bin", &[0, 1, 2, 3])];
    let (scanned, stats) = scan_files(&options(100), &manifest, true, &files);

    assert_eq!(scanned.messages, vec![progress("a.txt", kept), progress("b.bin", named)]);
    assert_eq!(stats.unchanged_indexed, 1);
    assert_eq!(stats.unchanged_skipped, 1);
    assert_eq!(stats.indexed_or_updated, 0);
    assert_eq!(stats.scanned_files, 2);
}

#[test]
fn skipped_files_stay_skipped_while_they_are_unchanged() {
    let skipped = entry(3, FileState::Skipped { reason: SkipReason::TooLarge });
    let manifest = manifest_with(&[("a.txt", skipped)]);
    let (scanned, stats) = scan_files(&options(100), &manifest, false, &[("a.txt", b"abc")]);
    assert_eq!(scanned.messages, vec![progress("a.txt", skipped)]);
    assert_eq!(stats.unchanged_skipped, 1);
}

#[test]
fn changed_files_are_indexed_again() {
    let manifest = manifest_with(&[("a.txt", entry(2, FileState::Indexed))]);
    let (scanned, stats) = scan_files(&options(100), &manifest, false, &[("a.txt", b"abc")]);
    assert_eq!(stats.indexed_or_updated, 1);
    let documents = upserted(&scanned.messages);
    assert_eq!(documents[0]["contents"], "abc");
    assert_eq!(documents[0]["id"], document_id_for_path("a.txt"));
    assert_eq!(documents[0]["extension"], "txt");
    assert_eq!(documents[0]["_vectors"]["default"], serde_json::Value::Null);
}

#[test]
fn files_that_wait_for_their_embedding_are_tried_again() {
    let waiting = entry(3, FileState::IndexedPendingEmbedding);
    let manifest = manifest_with(&[("a.txt", waiting)]);
    let (scanned, stats) = scan_files(&options(100), &manifest, true, &[("a.txt", b"abc")]);

    assert_eq!(stats.indexed_or_updated, 1);
    assert_eq!(scanned.messages.len(), 2);
    assert_eq!(scanned.messages[0], progress("a.txt", waiting));
    match &scanned.messages[1] {
        ScanMessage::Embed(EmbeddingJob { document, input, progress }) => {
            assert_eq!(document.contents, "abc");
            assert_eq!(*input, EmbeddingJobInput::DocumentContents);
            assert_eq!(progress.path, "a.txt");
            assert_eq!(progress.entry, entry(3, FileState::Indexed));
        }
        other => panic!("{other:?}"),
    }
}

#[test]
fn missing_files_lose_their_documents() {
    let manifest = manifest_with(&[
        ("b.txt", entry(1, FileState::IndexedPendingEmbedding)),
        ("a.txt", entry(1, FileState::Indexed)),
        ("c.txt", entry(1, FileState::Skipped { reason: SkipReason::Binary })),
        ("here.txt", entry(1, FileState::Indexed)),
    ]);
    let (scanned, stats) = scan_files(&options(100), &manifest, false, &[("here.txt", b"x")]);
    let deleted: Vec<String> = scanned
        .messages
        .iter()
        .filter_map(|message| match message {
            ScanMessage::Event(IndexEvent::Delete { document_id, progress }) => {
                assert_eq!(*progress, None);
                Some(document_id.clone())
            }
            _ => None,
        })
        .collect();
    assert_eq!(deleted, vec![document_id_for_path("a.txt"), document_id_for_path("b.txt")]);
    assert_eq!(stats.deleted_missing, 2);
    assert_eq!(stats.deleted_total(), 2);
}

#[test]
fn unreadable_files_keep_what_is_known_of_them() {
    let known = entry(3, FileState::Indexed);
    let manifest = manifest_with(&[("a.txt", known)]);
    let scan_options = options(100);
    let mut context = ScanContext::new(&scan_options, &manifest, true);

    let path = entry_path("a.txt");
    context.scan_entry(&path);
    match context.scan_metadata(&path, Err("denied".to_string())) {
        MetadataStep::Finished(output) => {
            let error = output.error.unwrap();
            assert_eq!(error.to_text(), "metadata error for /data/root/a.txt: denied");
            assert_eq!(error.kind, ScanErrorKind::Metadata);
            assert_eq!(output.messages, vec![progress("a.txt", known)]);
        }
        other => panic!("{other:?}"),
    }

    let other_path = entry_path("b.txt");
    context.scan_entry(&other_path);
    let fingerprint = match context.scan_metadata(&other_path, Ok(print(5))) {
        MetadataStep::ReadBytes(fingerprint) => fingerprint,
        other => panic!("{other:?}"),
    };
    let output = context.scan_bytes(&other_path, fingerprint, Err("gone".to_string()));
    assert_eq!(output.error.unwrap().to_text(), "read error for /data/root/b.txt: gone");
    assert!(output.messages.is_empty());

    assert_eq!(context.walk_error("loop".to_string()).to_text(), "walk error: loop");
    assert!(context.delete_missing_documents().is_empty());
    let stats = context.finish();
    assert_eq!(stats.read_errors, 2);
    assert_eq!(stats.walk_errors, 1);
    assert_eq!(stats.scanned_files, 2);
}

#[test]
fn every_scanned_file_is_counted_once() {
    let manifest = manifest_with(&[("same.txt", entry(3, FileState::Indexed))]);
    let large = vec![b'x'; 20];
    let files: [(&str, &[u8]); 5] = [
        ("same.txt", b"abc"),
        ("new.txt", b"new"),
        ("large.txt", &large),
        ("zero.bin", &[1, 0, 2]),
        ("bad.txt", &[0xff, 0xfe]),
    ];
    let (_, stats) = scan_files(&options(10), &manifest, false, &files);
    assert_eq!(stats.scanned_files, 5);
    assert_eq!(stats.unchanged_indexed, 1);
    assert_eq!(stats.indexed_or_updated, 4);
    assert_eq!(stats.skipped_too_large, 1);
    assert_eq!(stats.skipped_binary, 2);
    assert_eq!(stats.read_errors, 0);
}

#[test]
fn text_is_decoded_as_it_is() {
    let manifest = Manifest::new(Path::new(ROOT));
    let text = "gr\u{fc}\u{df}e \u{1f600}\n\"quoted\"";
    let (scanned, _) = scan_files(
        &options(100),
        &manifest,
        false,
        &[("sub/dir/note.txt", text.as_bytes())],
    );
    let documents = upserted(&scanned.messages);
    assert_eq!(documents[0]["contents"], text);
    assert_eq!(documents[0]["path"], "sub/dir/note.txt");
    assert_eq!(documents[0]["file_name"], "note.txt");
}

#[test]
fn a_file_at_the_limit_is_read() {
    let manifest = Manifest::new(Path::new(ROOT));
    let (_, stats) = scan_files(&options(3), &manifest, false, &[("a.txt", b"abc")]);
    assert_eq!(stats.skipped_too_large, 0);
    let (_, stats) = scan_files(&options(2), &manifest, false, &[("a.txt", b"abc")]);
    assert_eq!(stats.skipped_too_large, 1);
}

#[test]
fn embedding_inputs_depend_on_the_extension() {
    let bytes = vec![1, 2, 3];
    assert_eq!(
        supported_binary_embedding_input(&entry_path("a.PDF"), bytes.clone()),
        Ok(EmbeddingJobInput::Text("a.PDF\na.PDF\nPDF".to_string()))
    );
    assert_eq!(
        supported_binary_embedding_input(&entry_path("a.TiFf"), bytes.clone()),
        Ok(EmbeddingJobInput::Image(bytes.clone()))
    );
    assert_eq!(
        supported_binary_embedding_input(&entry_path("a.txt"), bytes.clone()),
        Err(bytes.clone())
    );
    assert_eq!(supported_binary_embedding_input(&entry_path("a"), bytes.clone()), Err(bytes));
    for name in ["png", "jpg", "jpeg", "gif", "webp", "bmp", "tif", "tiff", "PNG"] {
        assert!(has_image_extension(name));
    }
    assert!(!has_image_extension("svg"));
    assert!(!has_image_extension(""));
}

#[test]
fn files_are_embedded_by_their_names_where_their_contents_are_left_out() {
    assert_eq!(
        metadata_embedding_text(&entry_path("sub/a.bin")),
        "sub/a.bin\na.bin\nbin"
    );
    assert_eq!(metadata_embedding_text(&entry_path("sub/Makefile")), "sub/Makefile\nMakefile");
}

#[test]
fn pending_states() {
    let reason = SkipReason::TooLarge;
    let cases = [
        (FileState::Indexed, FileState::IndexedPendingEmbedding),
        (FileState::IndexedPendingEmbedding, FileState::IndexedPendingEmbedding),
        (
            FileState::IndexedMetadata { reason },
            FileState::IndexedMetadataPendingEmbedding { reason },
        ),
        (
            FileState::IndexedMetadataPendingEmbedding { reason },
            FileState::IndexedMetadataPendingEmbedding { reason },
        ),
        (FileState::Skipped { reason }, FileState::Skipped { reason }),
    ];
    for (state, pending) in cases {
        assert_eq!(pending_embedding_state(&state), pending);
    }
    let waiting = entry(1, FileState::IndexedMetadataPendingEmbedding { reason });
    assert!(waiting.embedding_pending() && waiting.is_indexed() && waiting.skips_contents());
    let done = entry(1, FileState::Indexed);
    assert!(!done.embedding_pending() && done.is_indexed() && !done.skips_contents());
}

#[test]
fn canceling_and_disconnecting_give_their_errors() {
    assert!(matches!(ensure_not_canceled(true), Err(SearchxError::ScanCanceled)));
    assert!(ensure_not_canceled(false).is_ok());
    assert!(matches!(ensure_indexing_not_canceled(true), Err(SearchxError::IndexingCanceled)));
    assert!(ensure_indexing_not_canceled(false).is_ok());
    assert!(matches!(delivery_result(false), Err(SearchxError::IndexingPipelineDisconnected)));
    assert!(delivery_result(true).is_ok());
}

#[test]
fn only_files_are_scanned() {
    assert!(is_scanned(Some(true)));
    assert!(!is_scanned(Some(false)));
    assert!(!is_scanned(None));
}

#[test]
fn paths_are_taken_below_the_root() {
    let relative = normalize_relative_path(Path::new("/a/b/c/d.txt"), Path::new("/a/b"), '/');
    assert_eq!(relative.unwrap(), "c/d.txt");
    let replaced = normalize_relative_path(Path::new("/a/x:y:z"), Path::new("/a"), ':').unwrap();
    assert_eq!(replaced, "x/y/z");
    assert!(!replaced.contains(':'));
    let outside = normalize_relative_path(Path::new("/x/y"), Path::new("/a"), '/');
    assert!(matches!(outside, Err(SearchxError::StripPrefix)));
    assert!(EntryPath::from_path(Path::new("/x/y"), Path::new("/a"), '/').is_err());

    let entry = entry_path("sub/a.tar.gz");
    assert_eq!(entry.relative, "sub/a.tar.gz");
    assert_eq!(entry.display, "/data/root/sub/a.tar.gz");
    assert_eq!(entry.file_name, Some("a.tar.gz".to_string()));
    assert_eq!(entry.extension, Some("gz".to_string()));
    assert_eq!(entry_path("sub/.env").extension, None);
}

#[test]
fn the_data_directory_is_not_walked() {
    let data_dir = Path::new("/a/.searchx-data");
    assert!(!should_walk_entry(Path::new("/a/.searchx-data/index"), data_dir));
    assert!(!should_walk_entry(data_dir, data_dir));
    assert!(should_walk_entry(Path::new("/a/.searchx-data-2"), data_dir));
    assert!(should_walk_entry(Path::new("/a/b.txt"), data_dir));
}

#[test]
fn a_second_run_leaves_unmodified_files_alone() {
    let empty = Manifest::new(Path::new(ROOT));
    let files: [(&str, &[u8]); 3] =
        [("a.txt", b"abc"), ("b.bin", &[0, 1, 2, 3]), ("c.png", &[0, 9])];
    let (first, stats) = scan_files(&options(100), &empty, false, &files);
    assert_eq!(stats.indexed_or_updated, 3);

    let mut manifest = Manifest::new(Path::new(ROOT));
    for message in first.messages {
        if let ScanMessage::Event(IndexEvent::Upsert { progress: Some(update), .. }) = message {
            manifest.files.insert(update.path, update.entry);
        }
    }
    let (second, stats) = scan_files(&options(100), &manifest, true, &files);
    assert_eq!(stats.indexed_or_updated, 0);
    assert_eq!(stats.unchanged_indexed, 2);
    assert_eq!(stats.unchanged_skipped, 1);
    assert!(second
        .messages
        .iter()
        .all(|message| matches!(message, ScanMessage::Event(IndexEvent::Progress(_)))));
}

#[test]
fn a_second_run_after_embedding_changes_nothing() {
    let empty = Manifest::new(Path::new(ROOT));
    let large = vec![b'x'; 200];
    let files: [(&str, &[u8]); 4] =
        [("a.txt", b"abc"), ("b.bin", &[0, 1]), ("c.png", &[0, 9]), ("d.txt", &large)];
    let (first, stats) = scan_files(&options(100), &empty, true, &files);
    assert_eq!(stats.read_errors, 0);

    for jobs_at_once in 1..=4 {
        let mut updates = Vec::new();
        let mut queue = EmbeddingQueue::new();
        let mut waiting = 0;
        for message in &first.messages {
            match message {
                ScanMessage::Event(IndexEvent::Progress(update)) => {
                    updates.push((update.path.clone(), update.entry));
                }
                ScanMessage::Embed(job) => {
                    queue.received(copy_of(job));
                    waiting += 1;
                }
                other => panic!("{other:?}"),
            }
            if waiting == jobs_at_once {
                hand_on(&mut queue, &mut updates);
                waiting = 0;
            }
        }
        hand_on(&mut queue, &mut updates);

        let mut manifest = Manifest::new(Path::new(ROOT));
        for (path, entry) in updates {
            manifest.files.insert(path, entry);
        }
        assert_eq!(manifest.files.len(), 4);
        let (second, stats) = scan_files(&options(100), &manifest, true, &files);
        assert_eq!(stats.scanned_files, 4);
        assert_eq!(stats.unchanged_indexed + stats.unchanged_skipped, 4);
        assert_eq!(stats.indexed_or_updated, 0);
        assert_eq!(stats.deleted_total(), 0);
        assert_eq!(stats.skipped_too_large, 0);
        assert_eq!(stats.skipped_binary, 0);
        assert!(second
            .messages
            .iter()
            .all(|message| matches!(message, ScanMessage::Event(IndexEvent::Progress(_)))));
    }
}

fn copy_of(job: &EmbeddingJob) -> EmbeddingJob {
    EmbeddingJob {
        document: job.document.clone(),
        input: EmbeddingJobInput::DocumentContents,
        progress: job.progress.clone(),
    }
}

fn hand_on(queue: &mut EmbeddingQueue, updates: &mut Vec<(String, ManifestEntry)>) {
    if let Some(mut flush) = queue.take() {
        while flush.request().is_some() {
            flush.answer(Ok(Vec::new()));
        }
        for event in flush.finish() {
            match event {
                IndexEvent::Upsert { progress: Some(update), .. } => {
                    updates.push((update.path, update.entry));
                }
                other => panic!("{other:?}"),
            }
        }
    }
}
