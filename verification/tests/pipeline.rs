use searchx::api::{ScanError, SyncProgress, SyncStats};
use searchx::batch::{first_operation_error, index_change, PendingIndexBatch};
use searchx::constants::{EMBEDDING_BATCH_DOC_LIMIT, INDEX_BATCH_BYTE_LIMIT};
use searchx::document::{
    document_id_for_path, document_json, empty_document_vectors, IndexedDocument,
};
use searchx::embedding::{
    emit_embedded_document, queue_action, single_vector, EmbedRequest, EmbeddingFlush,
    EmbeddingQueue, InputKind, QueueAction, QueueEvent,
};
use searchx::error::SearchxError;
use searchx::load::{manifest_load, rebuild_manifest_load};
use searchx::manifest::{FileFingerprint, FileState, ManifestEntry};
use searchx::scan::{EmbeddingJob, EmbeddingJobInput, IndexEvent, ProgressUpdate};
use searchx::search::orphaned_ids;
use searchx::stream::{
    drain_scan_errors, finish_embedding_thread, finish_scan_thread, panic_message,
    report_sync_progress, ScanStream, StreamPhase,
};
use searchx::sync::{open_mode, sync_steps, OpenMode, SyncStep};
use searchx::{Manifest, VECTOR_EMBEDDER_NAME};
use std::collections::BTreeMap;
use std::path::Path;

fn entry(state: FileState) -> ManifestEntry {
    ManifestEntry::from_fingerprint(
        FileFingerprint { size: 1, modified_secs: 2, modified_nanos: 3 },
        state,
    )
}

fn update(path: &str) -> ProgressUpdate {
    ProgressUpdate { path: path.to_string(), entry: entry(FileState::Indexed) }
}

fn upsert(id: &str, document: &str) -> IndexEvent {
    IndexEvent::Upsert {
        document_id: id.to_string(),
        document: document.to_string(),
        progress: Some(update(id)),
    }
}

fn delete(id: &str) -> IndexEvent {
    IndexEvent::Delete { document_id: id.to_string(), progress: None }
}

#[test]
fn the_last_change_of_a_document_counts() {
    let mut batch = PendingIndexBatch::new();
    assert!(batch.is_empty());
    batch.push(upsert("b", "{\"b\":1}"));
    batch.push(upsert("a", "{\"a\":1}"));
    batch.push(delete("b"));
    batch.push(delete("c"));
    batch.push(upsert("c", "{\"c\":1}"));
    batch.push(upsert("a", "{\"a\":2}"));
    batch.push(delete("d"));
    let change = batch.index_change().unwrap();
    assert_eq!(change.payload, Some("{\"a\":2}\n{\"c\":1}\n".to_string()));
    assert_eq!(change.deleted_ids, vec!["b".to_string(), "d".to_string()]);
    let paths: Vec<&str> =
        batch.progress_updates().iter().map(|update| update.path.as_str()).collect();
    assert_eq!(paths, vec!["b", "a", "c", "a"]);
    assert!(!batch.is_empty());
    batch.clear();
    assert!(batch.is_empty());
    assert!(batch.index_change().is_none());
}

#[test]
fn progress_alone_does_not_change_the_index() {
    let mut batch = PendingIndexBatch::new();
    batch.push(IndexEvent::Progress(update("a")));
    assert!(!batch.is_empty());
    assert!(batch.index_change().is_none());
    assert_eq!(batch.progress_updates().len(), 1);
}

#[test]
fn a_batch_is_flushed_at_its_limits() {
    let mut documents = PendingIndexBatch::new();
    for i in 0..127 {
        documents.push(IndexEvent::Upsert {
            document_id: i.to_string(),
            document: "{}".to_string(),
            progress: None,
        });
    }
    assert!(!documents.should_flush());
    documents.push(upsert("0", "{}"));
    assert!(!documents.should_flush());
    documents.push(upsert("127", "{}"));
    assert!(documents.should_flush());

    let mut deletes = PendingIndexBatch::new();
    for i in 0..511 {
        deletes.push(delete(&i.to_string()));
    }
    assert!(!deletes.should_flush());
    deletes.push(delete("511"));
    assert!(deletes.should_flush());

    let mut entries = PendingIndexBatch::new();
    for _ in 0..511 {
        entries.push(IndexEvent::Progress(update("same")));
    }
    assert!(!entries.should_flush());
    entries.push(IndexEvent::Progress(update("same")));
    assert!(entries.should_flush());
}

#[test]
fn the_bytes_of_replaced_documents_do_not_count() {
    let large = "\u{fc}".repeat(INDEX_BATCH_BYTE_LIMIT / 2 - 1);
    let mut batch = PendingIndexBatch::new();
    batch.push(upsert("a", &large));
    assert!(!batch.should_flush());
    batch.push(upsert("a", &large));
    assert!(!batch.should_flush());
    batch.push(delete("a"));
    batch.push(upsert("b", &large));
    assert!(!batch.should_flush());
    batch.push(upsert("c", "xx"));
    assert!(batch.should_flush());
}

#[test]
fn the_index_is_given_nothing_for_nothing() {
    assert!(index_change(&Vec::new(), Vec::new()).is_none());
    let only_deletes = index_change(&Vec::new(), vec!["a".to_string()]).unwrap();
    assert_eq!(only_deletes.payload, None);
    assert_eq!(only_deletes.deleted_ids, vec!["a".to_string()]);
    let only_documents = index_change(&vec!["{}".to_string()], Vec::new()).unwrap();
    assert_eq!(only_documents.payload, Some("{}\n".to_string()));
}

#[test]
fn the_first_error_of_the_operations_is_reported() {
    assert!(first_operation_error(vec![None, None]).is_ok());
    let errors = vec![None, Some("first".to_string()), Some("second".to_string())];
    match first_operation_error(errors) {
        Err(SearchxError::Milli { message }) => assert_eq!(message, "first"),
        other => panic!("{other:?}"),
    }
}

fn apply(index: &mut BTreeMap<String, String>, batch: &PendingIndexBatch) {
    if let Some(change) = batch.index_change() {
        for id in &change.deleted_ids {
            index.remove(id);
        }
        for line in change.payload.unwrap_or_default().lines() {
            let value: serde_json::Value = serde_json::from_str(line).unwrap();
            index.insert(value["id"].as_str().unwrap().to_string(), line.to_string());
        }
    }
}

fn document(path: &str, contents: &str) -> IndexedDocument {
    IndexedDocument {
        id: document_id_for_path(path),
        path: path.to_string(),
        file_name: path.to_string(),
        extension: Some("txt".to_string()),
        contents: contents.to_string(),
        vectors: empty_document_vectors(),
    }
}

fn document_event(path: &str, contents: &str) -> IndexEvent {
    let document = document(path, contents);
    IndexEvent::Upsert {
        document_id: document.id.clone(),
        document: document_json(&document),
        progress: Some(update(path)),
    }
}

#[test]
fn a_stream_makes_every_change_however_it_is_cut() {
    let events = || {
        vec![
            document_event("a.txt", "one\ntwo"),
            document_event("b.txt", "b"),
            delete(&document_id_for_path("a.txt")),
            document_event("a.txt", "three"),
            delete(&document_id_for_path("b.txt")),
            IndexEvent::Progress(update("c.txt")),
        ]
    };
    let mut expected = BTreeMap::new();
    expected.insert(
        document_id_for_path("a.txt"),
        document_json(&document("a.txt", "three")),
    );
    for cut in 0..=6 {
        let mut index = BTreeMap::new();
        let mut recorded = Vec::new();
        let mut stream = ScanStream::new();
        for (i, event) in events().into_iter().enumerate() {
            if i == cut {
                stream.timed_out();
                flush(&mut stream, &mut index, &mut recorded);
            }
            stream.received(event);
            assert!(matches!(stream.phase(), StreamPhase::Receiving));
        }
        stream.disconnected(Ok(SyncStats::default()), Ok(()));
        flush(&mut stream, &mut index, &mut recorded);
        assert!(matches!(stream.phase(), StreamPhase::Finished { .. }));
        assert_eq!(index, expected);
        assert_eq!(recorded, vec!["a.txt", "b.txt", "a.txt", "c.txt"]);
    }
}

fn flush(
    stream: &mut ScanStream,
    index: &mut BTreeMap<String, String>,
    recorded: &mut Vec<String>,
) {
    if matches!(stream.phase(), StreamPhase::Applying { .. }) {
        apply(index, stream.batch());
        stream.applied(Ok(()));
    }
    if matches!(stream.phase(), StreamPhase::Recording { .. }) {
        recorded.extend(
            stream.batch().progress_updates().iter().map(|update| update.path.clone()),
        );
        stream.recorded(Ok(()));
    }
}

#[test]
fn a_stream_puts_a_full_batch_into_the_index_before_it_records_it() {
    let mut stream = ScanStream::new();
    for i in 0..128 {
        assert!(matches!(stream.phase(), StreamPhase::Receiving));
        stream.received(upsert(&i.to_string(), "{}"));
    }
    assert!(matches!(stream.phase(), StreamPhase::Applying { last: None }));
    stream.applied(Ok(()));
    assert!(matches!(stream.phase(), StreamPhase::Recording { last: None }));
    assert_eq!(stream.batch().progress_updates().len(), 128);
    stream.recorded(Ok(()));
    assert!(matches!(stream.phase(), StreamPhase::Receiving));
    assert!(stream.batch().is_empty());
}

#[test]
fn an_error_during_the_scan_cancels_it() {
    let mut stream = ScanStream::new();
    stream.received(upsert("a", "{}"));
    stream.timed_out();
    stream.applied(Err(SearchxError::Milli { message: "full".to_string() }));
    match stream.into_phase() {
        StreamPhase::Canceled { error } => assert_eq!(error.to_text(), "full"),
        other => panic!("{other:?}"),
    }

    let mut stream = ScanStream::new();
    stream.received(IndexEvent::Progress(update("a")));
    stream.timed_out();
    assert!(matches!(stream.phase(), StreamPhase::Recording { .. }));
    stream.recorded(Err(SearchxError::Sqlite { message: "busy".to_string() }));
    assert!(matches!(stream.phase(), StreamPhase::Canceled { .. }));
}

#[test]
fn an_error_after_the_scan_fails_the_run() {
    let mut stream = ScanStream::new();
    stream.received(upsert("a", "{}"));
    stream.disconnected(Ok(SyncStats::default()), Ok(()));
    stream.applied(Ok(()));
    stream.recorded(Err(SearchxError::Sqlite { message: "busy".to_string() }));
    assert!(matches!(stream.phase(), StreamPhase::Failed { .. }));
}

#[test]
fn the_error_of_the_scan_comes_before_that_of_the_embedding() {
    let mut stream = ScanStream::new();
    stream.disconnected(
        Err(SearchxError::ScanCanceled),
        Err(SearchxError::IndexingPipelineDisconnected),
    );
    match stream.into_phase() {
        StreamPhase::Failed { error } => assert_eq!(error.to_text(), "scan canceled"),
        other => panic!("{other:?}"),
    }
    let mut stream = ScanStream::new();
    stream.disconnected(
        Ok(SyncStats::default()),
        Err(SearchxError::IndexingPipelineDisconnected),
    );
    match stream.into_phase() {
        StreamPhase::Failed { error } => {
            assert_eq!(error.to_text(), "indexing pipeline disconnected");
        }
        other => panic!("{other:?}"),
    }
}

#[test]
fn an_empty_stream_finishes_with_its_figures() {
    let mut stream = ScanStream::new();
    stream.timed_out();
    assert!(matches!(stream.phase(), StreamPhase::Receiving));
    let stats = SyncStats { scanned_files: 4, ..SyncStats::default() };
    stream.disconnected(Ok(stats), Ok(()));
    match stream.into_phase() {
        StreamPhase::Finished { stats } => assert_eq!(stats.scanned_files, 4),
        other => panic!("{other:?}"),
    }
}

#[test]
fn threads_that_panic_give_their_messages() {
    let owned = "owned".to_string();
    assert_eq!(panic_message(Some("text"), None), "text");
    assert_eq!(panic_message(None, Some(&owned)), "owned");
    assert_eq!(panic_message(None, None), "unknown panic payload");
    assert_eq!(
        finish_scan_thread(Err("boom".to_string())).unwrap_err().to_text(),
        "scan thread panicked: boom"
    );
    assert_eq!(
        finish_embedding_thread(Err("boom".to_string())).unwrap_err().to_text(),
        "embedding thread panicked: boom"
    );
    assert!(finish_embedding_thread(Ok(Ok(()))).is_ok());
    let stats = SyncStats { walk_errors: 1, ..SyncStats::default() };
    assert_eq!(finish_scan_thread(Ok(Ok(stats))).unwrap(), stats);
}

#[test]
fn progress_is_reported_once_for_each_file() {
    let mut last = None;
    let report = report_sync_progress(Some("a.txt".to_string()), &mut last).unwrap();
    assert_eq!(report.to_text(), "Indexing: a.txt");
    assert!(report_sync_progress(Some("a.txt".to_string()), &mut last).is_none());
    assert!(report_sync_progress(Some("b.txt".to_string()), &mut last).is_some());
    assert!(report_sync_progress(None, &mut last).is_none());
    assert_eq!(last, None);
    assert!(report_sync_progress(Some("b.txt".to_string()), &mut last).is_some());
}

#[test]
fn scan_errors_are_reported_in_order() {
    let errors =
        vec![ScanError::walk("x".to_string()), ScanError::read("p".to_string(), "y".to_string())];
    let texts: Vec<String> =
        drain_scan_errors(errors).iter().map(|report| report.to_text()).collect();
    assert_eq!(texts, vec!["walk error: x", "read error for p: y"]);
    let rebuilding = SyncProgress::Rebuilding { reason: "why".to_string() };
    assert_eq!(rebuilding.to_text(), "Rebuilding index: why");
}

fn job(path: &str, input: EmbeddingJobInput) -> EmbeddingJob {
    EmbeddingJob {
        document: document(path, &format!("contents of {path}")),
        input,
        progress: update(path),
    }
}

fn mixed_jobs() -> Vec<EmbeddingJob> {
    vec![
        job("a", EmbeddingJobInput::DocumentContents),
        job("b", EmbeddingJobInput::Image(vec![1, 2])),
        job("c", EmbeddingJobInput::Text("the c".to_string())),
        job("d", EmbeddingJobInput::Image(vec![3])),
    ]
}

fn vectors_of(events: Vec<IndexEvent>) -> Vec<(String, serde_json::Value)> {
    events
        .into_iter()
        .map(|event| match event {
            IndexEvent::Upsert { document_id, document, progress } => {
                let value: serde_json::Value = serde_json::from_str(&document).unwrap();
                let path = value["path"].as_str().unwrap().to_string();
                assert_eq!(document_id, document_id_for_path(&path));
                assert_eq!(progress, Some(update(&path)));
                (path, value["_vectors"][VECTOR_EMBEDDER_NAME].clone())
            }
            other => panic!("{other:?}"),
        })
        .collect()
}

#[test]
fn each_document_gets_its_own_vector() {
    let mut flush = EmbeddingFlush::new(mixed_jobs());
    match flush.request() {
        Some(EmbedRequest::Texts(texts)) => assert_eq!(texts, vec!["contents of a", "the c"]),
        other => panic!("{other:?}"),
    }
    let report = flush.answer(Ok(vec!["[1]".to_string(), "[2]".to_string()]));
    assert_eq!(report, None);
    match flush.request() {
        Some(EmbedRequest::Images(images)) => {
            assert_eq!(images, vec![&vec![1u8, 2], &vec![3u8]]);
        }
        other => panic!("{other:?}"),
    }
    flush.answer(Ok(vec!["[3]".to_string(), "[4]".to_string()]));
    assert!(flush.request().is_none());
    let vectors: Vec<(String, String)> = vectors_of(flush.finish())
        .into_iter()
        .map(|(path, vector)| (path, vector.to_string()))
        .collect();
    let expected = [("a", "[1]"), ("b", "[3]"), ("c", "[2]"), ("d", "[4]")];
    for ((path, vector), (expected_path, expected_vector)) in vectors.iter().zip(expected) {
        assert_eq!(path, expected_path);
        assert_eq!(vector, expected_vector);
    }
}

#[test]
fn a_failed_batch_is_tried_job_by_job() {
    let mut flush = EmbeddingFlush::new(mixed_jobs());
    let error = || SearchxError::Embedding { message: "no model".to_string() };
    assert_eq!(
        flush.answer(Err(error())),
        Some(
            "embedding batch error for 2 text documents: embedding failed: no model".to_string()
        )
    );
    match flush.request() {
        Some(EmbedRequest::Texts(texts)) => assert_eq!(texts, vec!["contents of a"]),
        other => panic!("{other:?}"),
    }
    assert_eq!(
        flush.answer(Err(error())),
        Some("embedding error for a: embedding failed: no model".to_string())
    );
    match flush.request() {
        Some(EmbedRequest::Texts(texts)) => assert_eq!(texts, vec!["the c"]),
        other => panic!("{other:?}"),
    }
    assert_eq!(flush.answer(Ok(vec!["[7]".to_string()])), None);
    assert_eq!(
        flush.answer(Err(error())),
        Some(
            "embedding batch error for 2 image documents: embedding failed: no model".to_string()
        )
    );
    assert_eq!(
        flush.answer(Ok(Vec::new())),
        Some(
            "embedding error for b: embedding failed: image embedder returned no vectors"
                .to_string()
        )
    );
    assert_eq!(flush.answer(Ok(vec!["[8]".to_string()])), None);
    assert!(flush.request().is_none());
    let vectors = vectors_of(flush.finish());
    assert_eq!(vectors.len(), 4);
    assert_eq!(vectors[0], ("a".to_string(), serde_json::Value::Null));
    assert_eq!(vectors[1], ("b".to_string(), serde_json::Value::Null));
    assert_eq!(vectors[2].1.to_string(), "[7]");
    assert_eq!(vectors[3].1.to_string(), "[8]");
}

#[test]
fn too_few_vectors_leave_the_last_documents_without() {
    let jobs = vec![
        job("a", EmbeddingJobInput::DocumentContents),
        job("b", EmbeddingJobInput::DocumentContents),
    ];
    let mut flush = EmbeddingFlush::new(jobs);
    assert_eq!(flush.answer(Ok(vec!["[1]".to_string()])), None);
    assert!(flush.request().is_none());
    let vectors = vectors_of(flush.finish());
    assert_eq!(vectors[0].1.to_string(), "[1]");
    assert_eq!(vectors[1].1, serde_json::Value::Null);
}

#[test]
fn images_alone_are_asked_for_alone() {
    let flush = EmbeddingFlush::new(vec![job("a", EmbeddingJobInput::Image(vec![9]))]);
    assert!(matches!(flush.request(), Some(EmbedRequest::Images(_))));
    let none = EmbeddingFlush::new(Vec::new());
    assert!(none.request().is_none());
    assert!(none.finish().is_empty());
}

#[test]
fn documents_without_a_vector_are_indexed_all_the_same() {
    let plain = document_event("a", "contents of a");
    let embedded =
        emit_embedded_document(job("a", EmbeddingJobInput::DocumentContents), None);
    assert_eq!(embedded, plain);
}

#[test]
fn single_vectors() {
    assert_eq!(single_vector(InputKind::Text, vec![vec![1.0f32], vec![2.0]]).unwrap(), vec![1.0]);
    let none: Vec<Vec<f32>> = Vec::new();
    assert_eq!(
        single_vector(InputKind::Text, none).unwrap_err().to_text(),
        "embedding failed: text embedder returned no vectors"
    );
}

#[test]
fn jobs_are_gathered_up_to_the_limit() {
    let mut queue = EmbeddingQueue::new();
    assert!(queue.take().is_none());
    for i in 1..=EMBEDDING_BATCH_DOC_LIMIT {
        let action = queue.received(job(&i.to_string(), EmbeddingJobInput::DocumentContents));
        let expected = if i < EMBEDDING_BATCH_DOC_LIMIT {
            QueueAction::Poll
        } else {
            QueueAction::FlushAndWait
        };
        assert_eq!(action, expected);
    }
    let mut flush = queue.take().unwrap();
    assert!(queue.take().is_none());
    flush.answer(Ok(Vec::new()));
    assert_eq!(flush.finish().len(), EMBEDDING_BATCH_DOC_LIMIT);
    assert_eq!(queue_action(QueueEvent::NothingWaiting), QueueAction::FlushAndWait);
    assert_eq!(queue_action(QueueEvent::TimedOut), QueueAction::FlushUnlessCanceled);
    assert_eq!(queue_action(QueueEvent::Closed), QueueAction::FlushAndStop);
    assert!(QueueAction::FlushAndStop.stops(false));
    assert!(QueueAction::FlushUnlessCanceled.stops(true));
    assert!(!QueueAction::FlushUnlessCanceled.stops(false));
    assert!(!QueueAction::FlushAndWait.stops(true));
    assert!(!QueueAction::Poll.stops(true));
}

#[test]
fn a_run_takes_its_steps_in_order() {
    let root = "/data/root".to_string();
    let fresh = manifest_load(Manifest::new(Path::new("/data/root")), None, false);
    assert_eq!(
        sync_steps(&fresh, false),
        vec![
            SyncStep::CreateIndexDir,
            SyncStep::MarkIncomplete,
            SyncStep::OpenIndex,
            SyncStep::ConfigureIndex,
            SyncStep::StreamScan { resume_existing: false },
            SyncStep::CommitManifest,
            SyncStep::ClearIncomplete,
        ]
    );
    let resumed = manifest_load(Manifest::new(Path::new("/data/root")), None, true);
    assert_eq!(
        sync_steps(&resumed, true),
        vec![
            SyncStep::CreateIndexDir,
            SyncStep::MarkIncomplete,
            SyncStep::OpenIndex,
            SyncStep::ConfigureIndex,
            SyncStep::StreamScan { resume_existing: true },
            SyncStep::RepairIndex,
            SyncStep::CommitManifest,
            SyncStep::ClearIncomplete,
        ]
    );
    let rebuilt = rebuild_manifest_load(root, "why".to_string());
    assert_eq!(
        sync_steps(&rebuilt, true),
        vec![
            SyncStep::ReportRebuilding { reason: "why".to_string() },
            SyncStep::ResetDataDir,
            SyncStep::MarkIncomplete,
            SyncStep::OpenIndex,
            SyncStep::ConfigureIndex,
            SyncStep::StreamScan { resume_existing: false },
            SyncStep::CommitManifest,
            SyncStep::ClearIncomplete,
        ]
    );
    assert_eq!(open_mode(true), OpenMode::Open);
    assert_eq!(open_mode(false), OpenMode::Create);
}

fn object(json: &str) -> serde_json::Map<String, serde_json::Value> {
    match serde_json::from_str(json).unwrap() {
        serde_json::Value::Object(object) => object,
        other => panic!("{other:?}"),
    }
}

#[test]
fn orphans_go_by_their_paths_or_their_ids() {
    let mut working = Manifest::new(Path::new("/data/root"));
    working.files.insert("kept".to_string(), entry(FileState::IndexedPendingEmbedding));
    working.files.insert(
        "skipped".to_string(),
        entry(FileState::Skipped { reason: searchx::manifest::SkipReason::Binary }),
    );
    let documents = vec![
        object("{\"path\":\"kept\",\"id\":\"1\"}"),
        object("{\"path\":\"skipped\",\"id\":\"2\"}"),
        object("{\"path\":7,\"id\":\"3\"}"),
        object("{\"id\":\"4\"}"),
        object("{\"id\":5}"),
        object("{\"path\":\"gone\"}"),
    ];
    assert_eq!(
        orphaned_ids(&working, &documents),
        vec![
            document_id_for_path("skipped"),
            "3".to_string(),
            "4".to_string(),
            document_id_for_path("gone"),
        ]
    );
}

#[test]
fn the_order_within_a_batch_makes_no_difference() {
    let mut batch = PendingIndexBatch::new();
    batch.push(document_event("a.txt", "new"));
    batch.push(delete(&document_id_for_path("b.txt")));
    batch.push(delete(&document_id_for_path("c.txt")));
    batch.push(document_event("c.txt", "back"));
    let mut start = BTreeMap::new();
    for path in ["a.txt", "b.txt", "c.txt"] {
        start.insert(document_id_for_path(path), document_json(&document(path, "old")));
    }

    let mut deletes_first = start.clone();
    apply(&mut deletes_first, &batch);

    let mut upserts_first = start;
    let change = batch.index_change().unwrap();
    for line in change.payload.unwrap().lines() {
        let id = object(line)["id"].as_str().unwrap().to_string();
        upserts_first.insert(id, line.to_string());
    }
    for id in &change.deleted_ids {
        upserts_first.remove(id);
    }
    assert_eq!(deletes_first, upserts_first);
    assert_eq!(deletes_first.len(), 2);
}

#[test]
fn every_job_is_handed_on_once_and_in_order() {
    let paths: Vec<String> = (0..6).map(|i| format!("{i}.txt")).collect();
    for pause in 1..=6 {
        let mut queue = EmbeddingQueue::new();
        let mut handed_on = Vec::new();
        for (i, path) in paths.iter().enumerate() {
            let input = if i % 2 == 0 {
                EmbeddingJobInput::DocumentContents
            } else {
                EmbeddingJobInput::Image(vec![1])
            };
            queue.received(job(path, input));
            if (i + 1) % pause == 0 || i + 1 == paths.len() {
                let mut flush = queue.take().unwrap();
                let mut answers = 0;
                while flush.request().is_some() {
                    answers += 1;
                    if answers % 2 == 0 {
                        flush.answer(Ok(vec!["[1]".to_string()]));
                    } else {
                        flush.answer(Err(SearchxError::Embedding { message: "no".to_string() }));
                    }
                }
                handed_on.extend(vectors_of(flush.finish()).into_iter().map(|(path, _)| path));
            }
        }
        assert!(queue.take().is_none());
        assert_eq!(handed_on, paths);
    }
}
