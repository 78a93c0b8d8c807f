use searchx::api::{ScanOptions, SyncStats};
use searchx::batch::PendingIndexBatch;
use searchx::document::{
    document_id_for_path, document_json, empty_document_vectors, IndexedDocument,
};
use searchx::embedding::{EmbedRequest, EmbeddingQueue};
use searchx::manifest::{FileFingerprint, FileState, Manifest, ManifestEntry, SkipReason};
use searchx::paths::EntryPath;
use searchx::scan::{IndexEvent, MetadataStep, ProgressUpdate, ScanContext, ScanMessage};
use searchx::search::orphaned_ids;
use searchx::stream::{ScanStream, StreamPhase};
use searchx::{VECTOR_DIMENSIONS, VECTOR_EMBEDDER_NAME};
use std::collections::BTreeMap;
use std::path::Path;

const ROOT: &str = "/data/root";

type Index = BTreeMap<String, String>;

type File = (&'static str, Result<&'static [u8], &'static str>);

fn print(size: u64) -> FileFingerprint {
    FileFingerprint::from_metadata(size, Some((7, 8)))
}

fn entry(size: u64, state: FileState) -> ManifestEntry {
    ManifestEntry::from_fingerprint(print(size), state)
}

fn object(json: &str) -> serde_json::Map<String, serde_json::Value> {
    serde_json::from_str(json).unwrap()
}

fn document(path: &str, contents: &str) -> IndexedDocument {
    IndexedDocument {
        id: document_id_for_path(path),
        path: path.to_string(),
        file_name: path.to_string(),
        extension: Some("txt".to_string()),
        contents: contents.to_string(),
        vectors: empty_document_vectors(),
    }
}

fn hold(index: &mut Index, path: &str, contents: &str) {
    index.insert(document_id_for_path(path), document_json(&document(path, contents)));
}

fn vector(input_len: usize) -> String {
    format!("[{}]", vec![input_len.to_string(); VECTOR_DIMENSIONS].join(","))
}

fn embed_all(queue: &mut EmbeddingQueue) -> Vec<IndexEvent> {
    let Some(mut flush) = queue.take() else {
        return Vec::new();
    };
    loop {
        let vectors: Vec<String> = match flush.request() {
            Some(EmbedRequest::Texts(texts)) => {
                texts.iter().map(|text| vector(text.len())).collect()
            }
            Some(EmbedRequest::Images(images)) => {
                images.iter().map(|image| vector(image.len())).collect()
            }
            None => break,
        };
        assert_eq!(flush.answer(Ok(vectors)), None);
    }
    flush.finish()
}

/// The changes of a run, in the order in which they come where the embedding thread hands a batch
/// on after every `pause` messages, or at the very end.
fn changes(previous: &Manifest, embed: bool, files: &[File], pause: usize) -> Vec<IndexEvent> {
    let options = ScanOptions { rebuild: false, max_file_bytes: 16, ignore_rules: Vec::new() };
    let mut context = ScanContext::new(&options, previous, embed);
    let mut messages = Vec::new();
    for (relative, bytes) in files {
        let path = Path::new(ROOT).join(relative);
        let path = EntryPath::from_path(&path, Path::new(ROOT), '/').unwrap();
        context.scan_entry(&path);
        let size = bytes.map_or(1, |bytes| bytes.len() as u64);
        let output = match context.scan_metadata(&path, Ok(print(size))) {
            MetadataStep::Finished(output) => output,
            MetadataStep::ReadBytes(fingerprint) => {
                let bytes = bytes.map(|bytes| bytes.to_vec()).map_err(|error| error.to_string());
                context.scan_bytes(&path, fingerprint, bytes)
            }
        };
        messages.extend(output.messages);
    }
    messages.extend(context.delete_missing_documents().into_iter().map(ScanMessage::Event));

    let mut queue = EmbeddingQueue::new();
    let mut events = Vec::new();
    for (i, message) in messages.into_iter().enumerate() {
        match message {
            ScanMessage::Event(event) => events.push(event),
            ScanMessage::Embed(job) => {
                queue.received(job);
            }
        }
        if (i + 1) % pause == 0 {
            events.extend(embed_all(&mut queue));
        }
    }
    events.extend(embed_all(&mut queue));
    events
}

fn apply(index: &mut Index, batch: &PendingIndexBatch) {
    if let Some(change) = batch.index_change() {
        for id in &change.deleted_ids {
            index.remove(id);
        }
        for line in change.payload.unwrap_or_default().lines() {
            index.insert(object(line)["id"].as_str().unwrap().to_string(), line.to_string());
        }
    }
}

fn assert_documented(index: &Index, recorded: &Manifest) {
    for path in recorded.files.keys() {
        let entry = recorded.files.get(&path).unwrap();
        let settled =
            matches!(entry.state, FileState::Indexed | FileState::IndexedMetadata { .. });
        assert!(!settled || index.contains_key(&document_id_for_path(&path)), "{path}");
    }
}

/// Brings changes into the index, a batch after every `cut`, and looks after each single step.
fn run(index: &mut Index, events: Vec<IndexEvent>, cut: usize) -> Manifest {
    let mut recorded = Manifest::new(Path::new(ROOT));
    let mut stream = ScanStream::new();
    let count = events.len();
    for (i, event) in events.into_iter().enumerate() {
        stream.received(event);
        if i + 1 == count {
            stream.disconnected(Ok(SyncStats::default()), Ok(()));
        } else if (i + 1) % cut == 0 {
            stream.timed_out();
        }
        if matches!(stream.phase(), StreamPhase::Applying { .. }) {
            apply(index, stream.batch());
            assert_documented(index, &recorded);
            stream.applied(Ok(()));
        }
        if matches!(stream.phase(), StreamPhase::Recording { .. }) {
            for ProgressUpdate { path, entry } in stream.batch().progress_updates() {
                recorded.files.insert(path.clone(), entry.clone());
                assert_documented(index, &recorded);
            }
            stream.recorded(Ok(()));
        }
    }
    assert!(matches!(stream.phase(), StreamPhase::Finished { .. }));
    recorded
}

const FILES: [File; 6] = [
    ("same.txt", Ok(b"same")),
    ("new.txt", Ok(b"fresh")),
    ("changed.txt", Ok(b"second")),
    ("blob.bin", Ok(&[0, 1, 2])),
    ("large.txt", Ok(b"seventeen letters")),
    ("locked.txt", Err("no")),
];

fn earlier() -> (Manifest, Index) {
    let mut previous = Manifest::new(Path::new(ROOT));
    let mut index = BTreeMap::new();
    let known = [("same.txt", 4), ("changed.txt", 5), ("locked.txt", 9), ("gone.txt", 1)];
    for (path, size) in known {
        previous.files.insert(path.to_string(), entry(size, FileState::Indexed));
        hold(&mut index, path, "before");
    }
    previous.files.insert(
        "gone.bin".to_string(),
        entry(1, FileState::Skipped { reason: SkipReason::Binary }),
    );
    hold(&mut index, "gone.bin", "never indexed");
    hold(&mut index, "unrelated.txt", "of nobody");
    (previous, index)
}

#[test]
fn a_run_leaves_the_documents_of_its_files() {
    for embed in [false, true] {
        for pause in [1, 2, 3, usize::MAX] {
            for cut in 1..=12 {
                let (previous, mut index) = earlier();
                let before = index.clone();
                let events = changes(&previous, embed, &FILES, pause);
                let recorded = run(&mut index, events, cut);

                let handed_on = [
                    ("new.txt", "fresh", "fresh".len()),
                    ("changed.txt", "second", "second".len()),
                    ("blob.bin", "", "blob.bin\nblob.bin\nbin".len()),
                    ("large.txt", "", "large.txt\nlarge.txt\ntxt".len()),
                ];
                for (path, contents, input_len) in handed_on {
                    let found = object(&index[&document_id_for_path(path)]);
                    assert_eq!(found["path"], path);
                    assert_eq!(found["contents"], contents);
                    let stored = &found["_vectors"][VECTOR_EMBEDDER_NAME];
                    if embed {
                        let stored = stored.as_array().unwrap();
                        assert_eq!(stored.len(), VECTOR_DIMENSIONS);
                        assert_eq!(stored[0], input_len);
                    } else {
                        assert!(stored.is_null());
                    }
                }
                for path in ["same.txt", "locked.txt", "gone.bin", "unrelated.txt"] {
                    let id = document_id_for_path(path);
                    assert_eq!(index[&id], before[&id]);
                }
                assert!(!index.contains_key(&document_id_for_path("gone.txt")));
                assert_eq!(index.len(), 8);
                assert_eq!(recorded.files.len(), 6);
            }
        }
    }
}

#[test]
fn a_run_that_is_broken_off_has_recorded_only_what_is_indexed() {
    for pause in [1, 2, usize::MAX] {
        for kept in 1..=12 {
            let (previous, mut index) = earlier();
            let mut events = changes(&previous, true, &FILES, pause);
            events.truncate(kept);
            let recorded = run(&mut index, events, 2);
            for path in recorded.files.keys() {
                let entry = recorded.files.get(&path).unwrap();
                if entry.state == FileState::IndexedPendingEmbedding {
                    let found = index.get(&document_id_for_path(&path));
                    assert_eq!(found.is_some(), previous.files.contains_key(&path), "{path}");
                }
            }
            assert!(recorded.files.get("gone.txt").is_none());
        }
    }
}

#[test]
fn sync_repairs_orphaned_documents_after_incomplete_run() {
    let mut index = BTreeMap::new();
    hold(&mut index, "stale.txt", "stale");
    let previous = Manifest::new(Path::new(ROOT));

    let events = changes(&previous, true, &[("live.txt", Ok(b"live"))], usize::MAX);
    let recorded = run(&mut index, events, 1);
    let documents: Vec<_> = index.values().map(|json| object(json)).collect();
    for id in orphaned_ids(&recorded, &documents) {
        index.remove(&id);
    }

    assert_eq!(index.len(), 1);
    let found = object(&index[&document_id_for_path("live.txt")]);
    assert_eq!(found["path"], "live.txt");
    assert_eq!(
        found["_vectors"][VECTOR_EMBEDDER_NAME].as_array().unwrap().len(),
        VECTOR_DIMENSIONS
    );
}
