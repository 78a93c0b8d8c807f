//! The scan: what becomes of each file that a walk finds.

use crate::api::{no_stats, ScanError, ScanErrorKind, ScanErrorView, ScanOptions, SyncStats};
use crate::document::{
    document_id, document_id_for_path, document_json, document_json_text, empty_document_vectors,
    DocumentView, IndexedDocument,
};
use crate::error::SearchxError;
use crate::manifest::{FileFingerprint, FileState, Manifest, ManifestEntry, SkipReason};
use crate::paths::{EntryPath, EntryPathView};
use crate::text::{ascii_lowered, eq_ignore_ascii_case, join_lines, lines_text, text_from_utf8};
use crate::text_map::{ascending, holds_at, lemma_position};
use vstd::hash_set::StringHashSet;
use vstd::prelude::*;
use vstd::string::*;
use vstd::utf8::*;

verus! {

/// The entry of a path, on its way to the working manifest.
#[derive(Debug, Clone, PartialEq, Eq)]
pub struct ProgressUpdate {
    pub path: String,
    pub entry: ManifestEntry,
}

/// A [`ProgressUpdate`] as text.
pub struct ProgressView {
    pub path: Seq<char>,
    pub entry: ManifestEntry,
}

impl View for ProgressUpdate {
    type V = ProgressView;

    open spec fn view(&self) -> ProgressView {
        ProgressView { path: self.path@, entry: self.entry }
    }
}

impl DeepView for ProgressUpdate {
    type V = ProgressView;

    open spec fn deep_view(&self) -> ProgressView {
        self@
    }
}

/// A change to the index or to the working manifest.
#[derive(Debug, PartialEq, Eq)]
pub enum IndexEvent {
    /// Put a document, as JSON, into the index.
    Upsert { document_id: String, document: String, progress: Option<ProgressUpdate> },
    /// Take a document out of the index.
    Delete { document_id: String, progress: Option<ProgressUpdate> },
    /// Record an entry.
    Progress(ProgressUpdate),
}

/// An [`IndexEvent`] as text.
pub enum EventView {
    Upsert { document_id: Seq<char>, document: Seq<char>, progress: Option<ProgressView> },
    Delete { document_id: Seq<char>, progress: Option<ProgressView> },
    Progress(ProgressView),
}

impl View for IndexEvent {
    type V = EventView;

    open spec fn view(&self) -> EventView {
        match self {
            IndexEvent::Upsert { document_id, document, progress } => EventView::Upsert {
                document_id: document_id@,
                document: document@,
                progress: progress.deep_view(),
            },
            IndexEvent::Delete { document_id, progress } => EventView::Delete {
                document_id: document_id@,
                progress: progress.deep_view(),
            },
            IndexEvent::Progress(progress) => EventView::Progress(progress@),
        }
    }
}

impl DeepView for IndexEvent {
    type V = EventView;

    open spec fn deep_view(&self) -> EventView {
        self@
    }
}

/// What the embedding of a document is made from.
#[derive(Debug, PartialEq, Eq)]
pub enum EmbeddingJobInput {
    DocumentContents,
    Text(String),
    Image(Vec<u8>),
}

/// An [`EmbeddingJobInput`] as text and bytes.
pub enum InputView {
    DocumentContents,
    Text(Seq<char>),
    Image(Seq<u8>),
}

impl View for EmbeddingJobInput {
    type V = InputView;

    open spec fn view(&self) -> InputView {
        match self {
            EmbeddingJobInput::DocumentContents => InputView::DocumentContents,
            EmbeddingJobInput::Text(text) => InputView::Text(text@),
            EmbeddingJobInput::Image(bytes) => InputView::Image(bytes@),
        }
    }
}

/// A document that is to be embedded before it is indexed.
#[derive(Debug, PartialEq, Eq)]
pub struct EmbeddingJob {
    pub document: IndexedDocument,
    pub input: EmbeddingJobInput,
    pub progress: ProgressUpdate,
}

/// An [`EmbeddingJob`] as text and bytes.
pub struct JobView {
    pub document: DocumentView,
    pub input: InputView,
    pub progress: ProgressView,
}

impl View for EmbeddingJob {
    type V = JobView;

    open spec fn view(&self) -> JobView {
        JobView { document: self.document@, input: self.input@, progress: self.progress@ }
    }
}

impl DeepView for EmbeddingJob {
    type V = JobView;

    open spec fn deep_view(&self) -> JobView {
        self@
    }
}

/// What a scan hands on: to the index, or to be embedded first.
#[derive(Debug, PartialEq, Eq)]
pub enum ScanMessage {
    Event(IndexEvent),
    Embed(EmbeddingJob),
}

/// A [`ScanMessage`] as text and bytes.
pub enum MessageView {
    Event(EventView),
    Embed(JobView),
}

impl DeepView for ScanMessage {
    type V = MessageView;

    open spec fn deep_view(&self) -> MessageView {
        match self {
            ScanMessage::Event(event) => MessageView::Event(event@),
            ScanMessage::Embed(job) => MessageView::Embed(job@),
        }
    }
}

/// What the scan of one file gives: a report where it could not be read, and what to hand on, in
/// this order.
#[derive(Debug)]
pub struct ScanOutput {
    pub error: Option<ScanError>,
    pub messages: Vec<ScanMessage>,
}

/// A [`ScanOutput`] as text and bytes.
pub struct OutputView {
    pub error: Option<ScanErrorView>,
    pub messages: Seq<MessageView>,
}

impl View for ScanOutput {
    type V = OutputView;

    open spec fn view(&self) -> OutputView {
        OutputView { error: self.error.deep_view(), messages: self.messages.deep_view() }
    }
}

/// What follows from the metadata of a file.
#[derive(Debug)]
pub enum MetadataStep {
    /// The file is dealt with.
    Finished(ScanOutput),
    /// Its contents are needed.
    ReadBytes(FileFingerprint),
}

/// The state of a file whose document waits for its embedding.
pub open spec fn pending_state(state: FileState) -> FileState {
    match state {
        FileState::Indexed => FileState::IndexedPendingEmbedding,
        FileState::IndexedMetadata { reason } => FileState::IndexedMetadataPendingEmbedding {
            reason,
        },
        _ => state,
    }
}

/// The state of a file whose document waits for its embedding.
pub fn pending_embedding_state(state: &FileState) -> (pending: FileState)
    ensures
        pending == pending_state(*state),
{
    match state {
        FileState::Indexed => FileState::IndexedPendingEmbedding,
        FileState::IndexedPendingEmbedding => FileState::IndexedPendingEmbedding,
        FileState::IndexedMetadata { reason } => FileState::IndexedMetadataPendingEmbedding {
            reason: *reason,
        },
        FileState::IndexedMetadataPendingEmbedding { reason } =>
            FileState::IndexedMetadataPendingEmbedding { reason: *reason },
        FileState::Skipped { reason } => FileState::Skipped { reason: *reason },
    }
}

/// A text, or the empty one.
pub open spec fn text_or_empty(text: Option<Seq<char>>) -> Seq<char> {
    match text {
        Some(text) => text,
        None => Seq::empty(),
    }
}

/// By what a file is embedded when its contents are not: its path and its name, and its extension
/// where it has one.
pub open spec fn metadata_text(path: EntryPathView) -> Seq<char> {
    let extension = text_or_empty(path.extension);
    if extension.len() == 0 {
        path.relative + "\n"@ + text_or_empty(path.file_name)
    } else {
        path.relative + "\n"@ + text_or_empty(path.file_name) + "\n"@ + extension
    }
}

/// By what a file is embedded when its contents are not.
pub fn metadata_embedding_text(path: &EntryPath) -> (text: String)
    ensures
        text@ == metadata_text(path@),
{
    let mut text = path.relative.clone();
    text.append("\n");
    match &path.file_name {
        Some(name) => text.append(name.as_str()),
        None => {
            assert(text@ + Seq::<char>::empty() =~= text@);
        },
    }
    match &path.extension {
        Some(extension) => {
            if !extension.as_str().is_empty() {
                text.append("\n");
                text.append(extension.as_str());
            }
        },
        None => {},
    }
    text
}

/// The extensions of the images that can be embedded.
pub open spec fn image_extensions() -> Seq<Seq<char>> {
    seq!["png"@, "jpg"@, "jpeg"@, "gif"@, "webp"@, "bmp"@, "tif"@, "tiff"@]
}

/// The extension is that of an image, in capitals or not.
pub open spec fn is_image(extension: Seq<char>) -> bool {
    exists|i: int|
        0 <= i < image_extensions().len() && ascii_lowered(extension) == ascii_lowered(
            #[trigger] image_extensions()[i],
        )
}

/// The extension is that of a PDF document, in capitals or not.
pub open spec fn is_pdf(extension: Seq<char>) -> bool {
    ascii_lowered(extension) == ascii_lowered("pdf"@)
}

/// What a file that is not text is embedded by: a PDF document by its name, an image by its bytes.
pub open spec fn binary_input(path: EntryPathView, bytes: Seq<u8>) -> Option<InputView> {
    match path.extension {
        Some(extension) => if is_pdf(extension) {
            Some(InputView::Text(metadata_text(path)))
        } else if is_image(extension) {
            Some(InputView::Image(bytes))
        } else {
            None
        },
        None => None,
    }
}

/// Whether the extension is that of an image.
pub fn has_image_extension(extension: &str) -> (image: bool)
    ensures
        image == is_image(extension@),
{
    let known: [&str; 8] = ["png", "jpg", "jpeg", "gif", "webp", "bmp", "tif", "tiff"];
    let ghost names = image_extensions();
    for i in 0..8
        invariant
            names == image_extensions(),
            known@.len() == 8,
            forall|j: int| 0 <= j < 8 ==> (#[trigger] known@[j])@ == names[j],
            forall|j: int|
                0 <= j < i ==> ascii_lowered(extension@) != ascii_lowered(#[trigger] names[j]),
    {
        if eq_ignore_ascii_case(extension, known[i]) {
            assert(ascii_lowered(extension@) == ascii_lowered(names[i as int]));
            return true;
        }
    }
    false
}

/// What a file that is not text is embedded by, where it can be; otherwise its bytes, back.
pub fn supported_binary_embedding_input(path: &EntryPath, bytes: Vec<u8>) -> (input: Result<
    EmbeddingJobInput,
    Vec<u8>,
>)
    ensures
        match binary_input(path@, bytes@) {
            Some(expected) => input is Ok && input->Ok_0@ == expected,
            None => input is Err && input->Err_0 == bytes,
        },
{
    match &path.extension {
        Some(extension) => {
            if eq_ignore_ascii_case(extension.as_str(), "pdf") {
                return Ok(EmbeddingJobInput::Text(metadata_embedding_text(path)));
            }
            if has_image_extension(extension.as_str()) {
                return Ok(EmbeddingJobInput::Image(bytes));
            }
            Err(bytes)
        },
        None => Err(bytes),
    }
}

fn contains_zero(bytes: &Vec<u8>) -> (found: bool)
    ensures
        found == bytes@.contains(0u8),
{
    for i in 0..bytes.len()
        invariant
            forall|j: int| 0 <= j < i ==> bytes@[j] != 0,
    {
        if bytes[i] == 0 {
            return true;
        }
    }
    false
}

/// The text of the file of ignore rules, one rule a line; none where there are no rules.
pub fn ignore_file_text(ignore_rules: &Vec<String>) -> (text: Option<String>)
    ensures
        text is None == (ignore_rules@.len() == 0),
        text is Some ==> text->Some_0@ == lines_text(ignore_rules.deep_view()),
{
    if ignore_rules.len() == 0 {
        None
    } else {
        Some(join_lines(ignore_rules))
    }
}

/// Whether a scan goes on.
pub fn ensure_not_canceled(canceled: bool) -> (result: Result<(), SearchxError>)
    ensures
        canceled ==> result is Err && result->Err_0 is ScanCanceled,
        !canceled ==> result is Ok,
{
    if canceled {
        Err(SearchxError::ScanCanceled)
    } else {
        Ok(())
    }
}

/// Whether a message may be handed on.
pub fn ensure_indexing_not_canceled(canceled: bool) -> (result: Result<(), SearchxError>)
    ensures
        canceled ==> result is Err && result->Err_0 is IndexingCanceled,
        !canceled ==> result is Ok,
{
    if canceled {
        Err(SearchxError::IndexingCanceled)
    } else {
        Ok(())
    }
}

/// What it means that a message was or was not taken.
pub fn delivery_result(delivered: bool) -> (result: Result<(), SearchxError>)
    ensures
        delivered ==> result is Ok,
        !delivered ==> result is Err && result->Err_0 is IndexingPipelineDisconnected,
{
    if delivered {
        Ok(())
    } else {
        Err(SearchxError::IndexingPipelineDisconnected)
    }
}

/// Whether the scan reads an entry of the walk: only what is known to be a file.
pub fn is_scanned(is_file: Option<bool>) -> (scanned: bool)
    ensures
        scanned == (is_file == Some(true)),
{
    match is_file {
        Some(is_file) => is_file,
        None => false,
    }
}

/// What becomes of a file.
pub enum FileOutcome {
    /// Its metadata or its contents could not be read.
    Unreadable,
    /// It is as it was, and its contents are indexed.
    UnchangedIndexed,
    /// It is as it was, and its contents are left out.
    UnchangedSkipped,
    /// It is indexed by its name, being too large.
    TooLarge,
    /// It is indexed by its name, being no text.
    Binary,
    /// It is indexed.
    Indexed,
}

/// The figures after the outcome of one more file.
pub open spec fn counted(stats: SyncStats, outcome: FileOutcome) -> SyncStats {
    match outcome {
        FileOutcome::Unreadable => SyncStats {
            read_errors: (stats.read_errors + 1) as u64,
            ..stats
        },
        FileOutcome::UnchangedIndexed => SyncStats {
            unchanged_indexed: (stats.unchanged_indexed + 1) as u64,
            ..stats
        },
        FileOutcome::UnchangedSkipped => SyncStats {
            unchanged_skipped: (stats.unchanged_skipped + 1) as u64,
            ..stats
        },
        FileOutcome::TooLarge => SyncStats {
            skipped_too_large: (stats.skipped_too_large + 1) as u64,
            indexed_or_updated: (stats.indexed_or_updated + 1) as u64,
            ..stats
        },
        FileOutcome::Binary => SyncStats {
            skipped_binary: (stats.skipped_binary + 1) as u64,
            indexed_or_updated: (stats.indexed_or_updated + 1) as u64,
            ..stats
        },
        FileOutcome::Indexed => SyncStats {
            indexed_or_updated: (stats.indexed_or_updated + 1) as u64,
            ..stats
        },
    }
}

/// The files whose outcome has been counted.
pub open spec fn outcomes(stats: SyncStats) -> int {
    stats.unchanged_indexed + stats.unchanged_skipped + stats.indexed_or_updated
        + stats.read_errors
}

/// Every file scanned, but for `open` of them, has been counted under one outcome, and those
/// indexed by their name are among those indexed.
pub open spec fn balanced(stats: SyncStats, open: int) -> bool {
    &&& stats.scanned_files == outcomes(stats) + open
    &&& stats.skipped_too_large + stats.skipped_binary <= stats.indexed_or_updated
}

/// Counting the outcome of an open file closes it: at the end every scanned file is counted under
/// one outcome.
pub proof fn law_every_file_is_counted_once(stats: SyncStats, outcome: FileOutcome)
    requires
        balanced(stats, 1),
    ensures
        balanced(counted(stats, outcome), 0),
{
}

/// A file is as it was, and nothing is left to be done for it.
pub open spec fn unchanged(previous: Option<ManifestEntry>, fingerprint: FileFingerprint) -> bool {
    previous matches Some(entry) && entry.fingerprint() == fingerprint && !entry.state.pending()
}

/// What the metadata of a file decides, if anything.
pub open spec fn metadata_outcome(
    previous: Option<ManifestEntry>,
    max_file_bytes: u64,
    metadata: Result<FileFingerprint, Seq<char>>,
) -> Option<FileOutcome> {
    match metadata {
        Err(_) => Some(FileOutcome::Unreadable),
        Ok(fingerprint) => if unchanged(previous, fingerprint) {
            if previous->Some_0.state.without_contents() {
                Some(FileOutcome::UnchangedSkipped)
            } else {
                Some(FileOutcome::UnchangedIndexed)
            }
        } else if fingerprint.size > max_file_bytes {
            Some(FileOutcome::TooLarge)
        } else {
            None
        },
    }
}

/// What the contents of a file decide.
pub open spec fn bytes_outcome(
    path: EntryPathView,
    bytes: Result<Seq<u8>, Seq<char>>,
) -> FileOutcome {
    match bytes {
        Err(_) => FileOutcome::Unreadable,
        Ok(bytes) => if binary_input(path, bytes) is None && (bytes.contains(0u8) || !valid_utf8(
            bytes,
        )) {
            FileOutcome::Binary
        } else {
            FileOutcome::Indexed
        },
    }
}

/// The entry of a file in a state.
pub open spec fn entry_of(fingerprint: FileFingerprint, state: FileState) -> ManifestEntry {
    ManifestEntry {
        size: fingerprint.size,
        modified_secs: fingerprint.modified_secs,
        modified_nanos: fingerprint.modified_nanos,
        state,
    }
}

/// The document of a file, not embedded yet.
pub open spec fn file_document(path: EntryPathView, contents: Seq<char>) -> DocumentView {
    DocumentView {
        id: document_id(path.relative),
        path: path.relative,
        file_name: text_or_empty(path.file_name),
        extension: path.extension,
        contents,
        vector: None,
    }
}

/// Records an entry.
pub open spec fn progress_message(path: EntryPathView, entry: ManifestEntry) -> MessageView {
    MessageView::Event(EventView::Progress(ProgressView { path: path.relative, entry }))
}

/// What is handed on for a file that is indexed. Where documents are embedded, the file is
/// recorded as waiting, and its document goes to be embedded first.
pub open spec fn upsert_messages(
    path: EntryPathView,
    fingerprint: FileFingerprint,
    state: FileState,
    contents: Seq<char>,
    input: InputView,
    embed: bool,
) -> Seq<MessageView> {
    let document = file_document(path, contents);
    let progress = ProgressView { path: path.relative, entry: entry_of(fingerprint, state) };
    if embed {
        seq![
            progress_message(path, entry_of(fingerprint, pending_state(state))),
            MessageView::Embed(JobView { document, input, progress }),
        ]
    } else {
        seq![
            MessageView::Event(
                EventView::Upsert {
                    document_id: document.id,
                    document: document_json_text(document),
                    progress: Some(progress),
                },
            ),
        ]
    }
}

/// What is handed on for a file that is indexed by its name alone.
pub open spec fn metadata_only_messages(
    path: EntryPathView,
    fingerprint: FileFingerprint,
    reason: SkipReason,
    embed: bool,
) -> Seq<MessageView> {
    upsert_messages(
        path,
        fingerprint,
        FileState::IndexedMetadata { reason },
        Seq::empty(),
        InputView::Text(metadata_text(path)),
        embed,
    )
}

/// A file that cannot be read is reported, and keeps its entry where it has one.
pub open spec fn unreadable_output(
    kind: ScanErrorKind,
    previous: Option<ManifestEntry>,
    path: EntryPathView,
    message: Seq<char>,
) -> OutputView {
    OutputView {
        error: Some(ScanErrorView { kind, path: Some(path.display), message }),
        messages: match previous {
            Some(entry) => seq![progress_message(path, entry)],
            None => Seq::empty(),
        },
    }
}

/// What is reported and handed on for a file whose metadata decides.
pub open spec fn metadata_output(
    previous: Option<ManifestEntry>,
    path: EntryPathView,
    metadata: Result<FileFingerprint, Seq<char>>,
    embed: bool,
) -> OutputView {
    match metadata {
        Err(message) => unreadable_output(ScanErrorKind::Metadata, previous, path, message),
        Ok(fingerprint) => OutputView {
            error: None,
            messages: if unchanged(previous, fingerprint) {
                seq![progress_message(path, previous->Some_0)]
            } else {
                metadata_only_messages(path, fingerprint, SkipReason::TooLarge, embed)
            },
        },
    }
}

/// What is reported and handed on for a file whose contents decide.
pub open spec fn bytes_output(
    previous: Option<ManifestEntry>,
    path: EntryPathView,
    fingerprint: FileFingerprint,
    bytes: Result<Seq<u8>, Seq<char>>,
    embed: bool,
) -> OutputView {
    match bytes {
        Err(message) => unreadable_output(ScanErrorKind::Read, previous, path, message),
        Ok(bytes) => OutputView {
            error: None,
            messages: match binary_input(path, bytes) {
                Some(input) => upsert_messages(
                    path,
                    fingerprint,
                    FileState::Indexed,
                    Seq::empty(),
                    input,
                    embed,
                ),
                None => if bytes.contains(0u8) || !valid_utf8(bytes) {
                    metadata_only_messages(path, fingerprint, SkipReason::Binary, embed)
                } else {
                    upsert_messages(
                        path,
                        fingerprint,
                        FileState::Indexed,
                        decode_utf8(bytes),
                        InputView::DocumentContents,
                        embed,
                    )
                },
            },
        },
    }
}

/// The paths whose documents are to go: indexed before, and not found again.
pub open spec fn gone(entry: (Seq<char>, ManifestEntry), seen: Set<Seq<char>>) -> bool {
    entry.1.state.indexed() && !seen.contains(entry.0)
}

/// The event that takes the document of a path out of the index.
pub open spec fn delete_event(path: Seq<char>) -> EventView {
    EventView::Delete { document_id: document_id(path), progress: None }
}

/// The events that take the documents of files no longer found out of the index, in the order of
/// `entries`.
pub open spec fn delete_events(
    entries: Seq<(Seq<char>, ManifestEntry)>,
    seen: Set<Seq<char>>,
) -> Seq<EventView>
    decreases entries.len(),
{
    if entries.len() == 0 {
        Seq::empty()
    } else {
        let before = delete_events(entries.drop_last(), seen);
        if gone(entries.last(), seen) {
            before.push(delete_event(entries.last().0))
        } else {
            before
        }
    }
}

/// A metadata error as text.
pub open spec fn metadata_view(metadata: Result<FileFingerprint, String>) -> Result<
    FileFingerprint,
    Seq<char>,
> {
    match metadata {
        Ok(fingerprint) => Ok(fingerprint),
        Err(message) => Err(message@),
    }
}

/// The bytes of a file, or the text of the error on reading them.
pub open spec fn bytes_view(bytes: Result<Vec<u8>, String>) -> Result<Seq<u8>, Seq<char>> {
    match bytes {
        Ok(bytes) => Ok(bytes@),
        Err(message) => Err(message@),
    }
}

/// A scan under way.
pub struct ScanContext<'a> {
    options: &'a ScanOptions,
    previous: &'a Manifest,
    embed: bool,
    seen_paths: StringHashSet,
    stats: SyncStats,
}

impl<'a> ScanContext<'a> {
    pub closed spec fn options(&self) -> ScanOptions {
        *self.options
    }

    /// What was known of the files before the scan.
    pub closed spec fn previous(&self) -> Manifest {
        *self.previous
    }

    /// Whether documents are embedded before they are indexed.
    pub closed spec fn embeds(&self) -> bool {
        self.embed
    }

    /// The paths found so far.
    pub closed spec fn seen(&self) -> Set<Seq<char>> {
        self.seen_paths@
    }

    pub closed spec fn stats(&self) -> SyncStats {
        self.stats
    }

    /// What was known of a file before the scan.
    pub open spec fn previous_entry(&self, path: EntryPathView) -> Option<ManifestEntry> {
        if self.previous()@.files.contains_key(path.relative) {
            Some(self.previous()@.files[path.relative])
        } else {
            None
        }
    }

    /// Nothing but the figures and the paths found changes during a scan.
    pub open spec fn continues(&self, before: &Self) -> bool {
        &&& self.options() == before.options()
        &&& self.previous() == before.previous()
        &&& self.embeds() == before.embeds()
    }

    /// Begins a scan.
    pub fn new(options: &'a ScanOptions, previous: &'a Manifest, embed: bool) -> (context: Self)
        ensures
            context.options() == *options,
            context.previous() == *previous,
            context.embeds() == embed,
            context.seen() == Set::<Seq<char>>::empty(),
            context.stats() == no_stats(),
            balanced(context.stats(), 0),
    {
        ScanContext {
            options,
            previous,
            embed,
            seen_paths: StringHashSet::new(),
            stats: SyncStats::default(),
        }
    }

    /// Counts an error of the walk, and reports it.
    pub fn walk_error(&mut self, message: String) -> (error: ScanError)
        requires
            old(self).stats().walk_errors < u64::MAX,
        ensures
            error@ == (ScanErrorView {
                kind: ScanErrorKind::Walk,
                path: None,
                message: message@,
            }),
            final(self).stats() == (SyncStats {
                walk_errors: (old(self).stats().walk_errors + 1) as u64,
                ..old(self).stats()
            }),
            final(self).seen() == old(self).seen(),
            final(self).continues(old(self)),
    {
        self.stats.walk_errors = self.stats.walk_errors + 1;
        ScanError::walk(message)
    }

    /// Takes note of a file that the walk has found. Its metadata are needed next.
    pub fn scan_entry(&mut self, path: &EntryPath)
        requires
            balanced(old(self).stats(), 0),
            old(self).stats().scanned_files < u64::MAX,
        ensures
            balanced(final(self).stats(), 1),
            final(self).stats() == (SyncStats {
                scanned_files: (old(self).stats().scanned_files + 1) as u64,
                ..old(self).stats()
            }),
            final(self).seen() == old(self).seen().insert(path@.relative),
            final(self).continues(old(self)),
    {
        self.seen_paths.insert(path.relative.clone());
        self.stats.scanned_files = self.stats.scanned_files + 1;
    }

    /// Decides what the metadata of a file decide.
    pub fn scan_metadata(
        &mut self,
        path: &EntryPath,
        metadata: Result<FileFingerprint, String>,
    ) -> (step: MetadataStep)
        requires
            balanced(old(self).stats(), 1),
        ensures
            match metadata_outcome(
                old(self).previous_entry(path@),
                old(self).options().max_file_bytes,
                metadata_view(metadata),
            ) {
                Some(outcome) => {
                    &&& step is Finished
                    &&& step->Finished_0@ == metadata_output(
                        old(self).previous_entry(path@),
                        path@,
                        metadata_view(metadata),
                        old(self).embeds(),
                    )
                    &&& final(self).stats() == counted(old(self).stats(), outcome)
                    &&& balanced(final(self).stats(), 0)
                },
                None => {
                    &&& step is ReadBytes
                    &&& metadata == Ok::<FileFingerprint, String>(step->ReadBytes_0)
                    &&& final(self).stats() == old(self).stats()
                },
            },
            final(self).seen() == old(self).seen(),
            final(self).continues(old(self)),
    {
        let fingerprint = match metadata {
            Ok(fingerprint) => fingerprint,
            Err(message) => {
                self.stats.read_errors = self.stats.read_errors + 1;
                let messages = self.preserve_previous_entry(path);
                let error = ScanError::metadata(path.display.clone(), message);
                return MetadataStep::Finished(ScanOutput { error: Some(error), messages });
            },
        };
        let known: Option<ManifestEntry> = match self.previous.files.get(path.relative.as_str()) {
            Some(entry) => Some(*entry),
            None => None,
        };
        if let Some(entry) = known {
            if entry.matches(fingerprint) && !entry.embedding_pending() {
                let messages = self.mark_unchanged(path, &entry);
                return MetadataStep::Finished(ScanOutput { error: None, messages });
            }
        }
        if fingerprint.size > self.options.max_file_bytes {
            let messages = self.index_metadata_only_document(
                path,
                fingerprint,
                SkipReason::TooLarge,
            );
            return MetadataStep::Finished(ScanOutput { error: None, messages });
        }
        MetadataStep::ReadBytes(fingerprint)
    }

    /// Decides what the contents of a file decide.
    pub fn scan_bytes(
        &mut self,
        path: &EntryPath,
        fingerprint: FileFingerprint,
        bytes: Result<Vec<u8>, String>,
    ) -> (output: ScanOutput)
        requires
            balanced(old(self).stats(), 1),
        ensures
            output@ == bytes_output(
                old(self).previous_entry(path@),
                path@,
                fingerprint,
                bytes_view(bytes),
                old(self).embeds(),
            ),
            final(self).stats() == counted(
                old(self).stats(),
                bytes_outcome(path@, bytes_view(bytes)),
            ),
            balanced(final(self).stats(), 0),
            final(self).seen() == old(self).seen(),
            final(self).continues(old(self)),
    {
        let bytes = match bytes {
            Ok(bytes) => bytes,
            Err(message) => {
                self.stats.read_errors = self.stats.read_errors + 1;
                let messages = self.preserve_previous_entry(path);
                let error = ScanError::read(path.display.clone(), message);
                return ScanOutput { error: Some(error), messages };
            },
        };
        let bytes = match supported_binary_embedding_input(path, bytes) {
            Ok(input) => {
                let messages = self.upsert_document(
                    path,
                    fingerprint,
                    FileState::Indexed,
                    String::new(),
                    input,
                );
                return ScanOutput { error: None, messages };
            },
            Err(bytes) => bytes,
        };
        if contains_zero(&bytes) {
            let messages = self.index_metadata_only_document(path, fingerprint, SkipReason::Binary);
            return ScanOutput { error: None, messages };
        }
        match text_from_utf8(bytes) {
            Some(contents) => {
                let messages = self.upsert_document(
                    path,
                    fingerprint,
                    FileState::Indexed,
                    contents,
                    EmbeddingJobInput::DocumentContents,
                );
                ScanOutput { error: None, messages }
            },
            None => {
                let messages = self.index_metadata_only_document(
                    path,
                    fingerprint,
                    SkipReason::Binary,
                );
                ScanOutput { error: None, messages }
            },
        }
    }

    /// Keeps the entry of a file that cannot be read.
    fn preserve_previous_entry(&self, path: &EntryPath) -> (messages: Vec<ScanMessage>)
        ensures
            messages.deep_view() == (match self.previous_entry(path@) {
                Some(entry) => seq![progress_message(path@, entry)],
                None => Seq::empty(),
            }),
    {
        let mut messages: Vec<ScanMessage> = Vec::new();
        if let Some(entry) = self.previous.files.get(path.relative.as_str()) {
            messages.push(progress_event(path, entry));
            assert(messages.deep_view() =~= seq![progress_message(path@, *entry)]);
        } else {
            assert(messages.deep_view() =~= Seq::<MessageView>::empty());
        }
        messages
    }

    /// Counts a file that is as it was, and keeps its entry.
    fn mark_unchanged(&mut self, path: &EntryPath, entry: &ManifestEntry) -> (messages: Vec<
        ScanMessage,
    >)
        requires
            old(self).stats().unchanged_indexed < u64::MAX,
            old(self).stats().unchanged_skipped < u64::MAX,
        ensures
            messages.deep_view() == seq![progress_message(path@, *entry)],
            final(self).stats() == counted(
                old(self).stats(),
                if entry.state.without_contents() {
                    FileOutcome::UnchangedSkipped
                } else {
                    FileOutcome::UnchangedIndexed
                },
            ),
            final(self).seen() == old(self).seen(),
            final(self).continues(old(self)),
    {
        let mut messages: Vec<ScanMessage> = Vec::new();
        messages.push(progress_event(path, entry));
        assert(messages.deep_view() =~= seq![progress_message(path@, *entry)]);
        if entry.skips_contents() {
            self.stats.unchanged_skipped = self.stats.unchanged_skipped + 1;
        } else {
            self.stats.unchanged_indexed = self.stats.unchanged_indexed + 1;
        }
        messages
    }

    /// Indexes a file by its name alone.
    fn index_metadata_only_document(
        &mut self,
        path: &EntryPath,
        fingerprint: FileFingerprint,
        reason: SkipReason,
    ) -> (messages: Vec<ScanMessage>)
        requires
            old(self).stats().skipped_too_large < u64::MAX,
            old(self).stats().skipped_binary < u64::MAX,
            old(self).stats().indexed_or_updated < u64::MAX,
        ensures
            messages.deep_view() == metadata_only_messages(
                path@,
                fingerprint,
                reason,
                old(self).embeds(),
            ),
            final(self).stats() == counted(
                old(self).stats(),
                match reason {
                    SkipReason::TooLarge => FileOutcome::TooLarge,
                    SkipReason::Binary => FileOutcome::Binary,
                },
            ),
            final(self).seen() == old(self).seen(),
            final(self).continues(old(self)),
    {
        match reason {
            SkipReason::TooLarge => {
                self.stats.skipped_too_large = self.stats.skipped_too_large + 1;
            },
            SkipReason::Binary => {
                self.stats.skipped_binary = self.stats.skipped_binary + 1;
            },
        }
        self.upsert_document(
            path,
            fingerprint,
            FileState::IndexedMetadata { reason },
            String::new(),
            EmbeddingJobInput::Text(metadata_embedding_text(path)),
        )
    }

    /// Hands the document of a file on.
    fn upsert_document(
        &mut self,
        path: &EntryPath,
        fingerprint: FileFingerprint,
        state: FileState,
        contents: String,
        input: EmbeddingJobInput,
    ) -> (messages: Vec<ScanMessage>)
        requires
            old(self).stats().indexed_or_updated < u64::MAX,
        ensures
            messages.deep_view() == upsert_messages(
                path@,
                fingerprint,
                state,
                contents@,
                input@,
                old(self).embeds(),
            ),
            final(self).stats() == counted(old(self).stats(), FileOutcome::Indexed),
            final(self).seen() == old(self).seen(),
            final(self).continues(old(self)),
    {
        let ghost contents_text = contents@;
        let ghost input_text = input@;
        let document = IndexedDocument {
            id: document_id_for_path(path.relative.as_str()),
            path: path.relative.clone(),
            file_name: match &path.file_name {
                Some(name) => name.clone(),
                None => String::new(),
            },
            extension: match &path.extension {
                Some(extension) => Some(extension.clone()),
                None => None,
            },
            contents,
            vectors: empty_document_vectors(),
        };
        assert(document@ == file_document(path@, contents_text));
        let progress = ProgressUpdate {
            path: path.relative.clone(),
            entry: ManifestEntry::from_fingerprint(fingerprint, state),
        };
        assert(progress.entry == entry_of(fingerprint, state));
        let mut messages: Vec<ScanMessage> = Vec::new();
        if self.embed {
            let pending = ManifestEntry::from_fingerprint(
                fingerprint,
                pending_embedding_state(&state),
            );
            assert(pending == entry_of(fingerprint, pending_state(state)));
            messages.push(progress_event(path, &pending));
            messages.push(ScanMessage::Embed(EmbeddingJob { document, input, progress }));
        } else {
            let json = document_json(&document);
            messages.push(
                ScanMessage::Event(
                    IndexEvent::Upsert {
                        document_id: document.id,
                        document: json,
                        progress: Some(progress),
                    },
                ),
            );
        }
        assert(messages.deep_view() =~= upsert_messages(
            path@,
            fingerprint,
            state,
            contents_text,
            input_text,
            self.embed,
        ));
        self.stats.indexed_or_updated = self.stats.indexed_or_updated + 1;
        messages
    }

    /// The events that take the documents of files no longer found out of the index.
    pub fn delete_missing_documents(&mut self) -> (events: Vec<IndexEvent>)
        requires
            old(self).stats().deleted_missing == 0 || old(self).stats().deleted_missing + old(
                self,
            ).previous().files.ordered().len() <= u64::MAX,
        ensures
            events.deep_view() == delete_events(
                old(self).previous().files.ordered(),
                old(self).seen(),
            ),
            ascending(old(self).previous().files.ordered()),
            final(self).stats() == (SyncStats {
                deleted_missing: (old(self).stats().deleted_missing + events@.len()) as u64,
                ..old(self).stats()
            }),
            final(self).seen() == old(self).seen(),
            final(self).continues(old(self)),
    {
        let ghost entries = self.previous.files.ordered();
        let ghost start = *self;
        let total = self.previous.files.len();
        let mut events: Vec<IndexEvent> = Vec::new();
        assert(entries.take(0) =~= Seq::empty());
        assert(events.deep_view() =~= Seq::<EventView>::empty());
        for i in 0..total
            invariant
                entries == self.previous.files.ordered(),
                total == entries.len(),
                start.stats.deleted_missing + entries.len() <= u64::MAX,
                events@.len() <= i,
                events.deep_view() == delete_events(entries.take(i as int), self.seen_paths@),
                self.stats == (SyncStats {
                    deleted_missing: (start.stats.deleted_missing + events@.len()) as u64,
                    ..start.stats
                }),
                self.seen_paths@ == start.seen_paths@,
                self.continues(&start),
        {
            let ghost before = events.deep_view();
            assert(entries.take(i + 1).drop_last() =~= entries.take(i as int));
            assert(entries.take(i + 1).last() == entries[i as int]);
            let path = self.previous.files.key_at(i);
            let entry = self.previous.files.value_at(i);
            if entry.is_indexed() && !self.seen_paths.contains(path.as_str()) {
                events.push(
                    IndexEvent::Delete {
                        document_id: document_id_for_path(path.as_str()),
                        progress: None,
                    },
                );
                self.stats.deleted_missing = self.stats.deleted_missing + 1;
                assert(events.deep_view() =~= before.push(delete_event(entries[i as int].0)));
            }
        }
        assert(entries.take(total as int) =~= entries);
        events
    }

    /// The figures so far.
    pub fn figures(&self) -> (stats: SyncStats)
        ensures
            stats == self.stats(),
    {
        self.stats
    }

    /// The figures of the scan.
    pub fn finish(self) -> (stats: SyncStats)
        ensures
            stats == self.stats(),
    {
        self.stats
    }
}

/// Records an entry.
fn progress_event(path: &EntryPath, entry: &ManifestEntry) -> (message: ScanMessage)
    ensures
        message.deep_view() == progress_message(path@, *entry),
{
    ScanMessage::Event(
        IndexEvent::Progress(ProgressUpdate { path: path.relative.clone(), entry: *entry }),
    )
}

/// A file that is as it was is not indexed again: its entry is kept, and nothing else is handed on.
pub proof fn law_unchanged_file_is_not_indexed_again(
    entry: ManifestEntry,
    path: EntryPathView,
    max_file_bytes: u64,
    embed: bool,
)
    requires
        !entry.state.pending(),
    ensures
        metadata_outcome(Some(entry), max_file_bytes, Ok(entry.fingerprint())) == Some(
            if entry.state.without_contents() {
                FileOutcome::UnchangedSkipped
            } else {
                FileOutcome::UnchangedIndexed
            },
        ),
        metadata_output(Some(entry), path, Ok(entry.fingerprint()), embed) == (OutputView {
            error: None,
            messages: seq![progress_message(path, entry)],
        }),
{
}

/// What is recorded of a file once its document is in the index makes it unchanged in the next
/// run; what is recorded while its document waits for its embedding does not.
pub proof fn law_recorded_file_is_unchanged(fingerprint: FileFingerprint, state: FileState)
    requires
        state is Indexed || state is IndexedMetadata,
    ensures
        unchanged(Some(entry_of(fingerprint, state)), fingerprint),
        !unchanged(Some(entry_of(fingerprint, pending_state(state))), fingerprint),
        pending_state(state).indexed(),
        pending_state(state).without_contents() == state.without_contents(),
{
}

/// A file that was modified, or whose document waits for its embedding, is never taken as
/// unchanged: its contents are read, unless it is too large, and then it is indexed by its name.
pub proof fn law_changed_file_is_indexed_again(
    previous: Option<ManifestEntry>,
    fingerprint: FileFingerprint,
    max_file_bytes: u64,
)
    requires
        previous matches Some(entry) ==> entry.fingerprint() != fingerprint
            || entry.state.pending(),
    ensures
        metadata_outcome(previous, max_file_bytes, Ok(fingerprint)) == (
        if fingerprint.size > max_file_bytes {
            Some(FileOutcome::TooLarge)
        } else {
            None
        }),
{
}

/// A file that cannot be read keeps what was known of it, whether its metadata or its contents
/// failed, and is reported with its path.
pub proof fn law_unreadable_file_keeps_its_entry(
    entry: ManifestEntry,
    path: EntryPathView,
    fingerprint: FileFingerprint,
    message: Seq<char>,
    embed: bool,
)
    ensures
        metadata_output(Some(entry), path, Err(message), embed).messages == seq![
            progress_message(path, entry),
        ],
        bytes_output(Some(entry), path, fingerprint, Err(message), embed).messages == seq![
            progress_message(path, entry),
        ],
        metadata_output(Some(entry), path, Err(message), embed).error->Some_0.path == Some(
            path.display,
        ),
        bytes_output(Some(entry), path, fingerprint, Err(message), embed).error->Some_0.path
            == Some(path.display),
{
}

/// An image or a PDF document is indexed, and not counted as binary, whatever bytes it holds.
pub proof fn law_supported_files_are_not_binary(path: EntryPathView, bytes: Seq<u8>)
    requires
        path.extension matches Some(extension) && (is_pdf(extension) || is_image(extension)),
    ensures
        bytes_outcome(path, Ok(bytes)) == FileOutcome::Indexed,
{
}

/// The events that take documents out are those of the entries that are gone.
pub proof fn lemma_delete_events(
    entries: Seq<(Seq<char>, ManifestEntry)>,
    seen: Set<Seq<char>>,
    event: EventView,
)
    ensures
        delete_events(entries, seen).contains(event) <==> exists|i: int|
            0 <= i < entries.len() && gone(#[trigger] entries[i], seen) && event == delete_event(
                entries[i].0,
            ),
        delete_events(entries, seen).len() <= entries.len(),
    decreases entries.len(),
{
    let events = delete_events(entries, seen);
    if entries.len() > 0 {
        let rest = entries.drop_last();
        let before = delete_events(rest, seen);
        lemma_delete_events(rest, seen, event);
        if events.contains(event) {
            let k = events.index_of(event);
            if k == before.len() {
                assert(gone(entries[entries.len() - 1], seen));
            } else {
                assert(before[k] == event);
                assert(before.contains(event));
                let i = choose|i: int|
                    0 <= i < rest.len() && gone(#[trigger] rest[i], seen) && event == delete_event(
                        rest[i].0,
                    );
                assert(entries[i] == rest[i]);
            }
        }
        if exists|i: int|
            0 <= i < entries.len() && gone(#[trigger] entries[i], seen) && event == delete_event(
                entries[i].0,
            ) {
            let i = choose|i: int|
                0 <= i < entries.len() && gone(#[trigger] entries[i], seen) && event
                    == delete_event(entries[i].0);
            if i < rest.len() {
                assert(rest[i] == entries[i]);
                let k = before.index_of(event);
                assert(events[k] == event);
            } else {
                assert(events[before.len() as int] == event);
            }
        }
    }
}

/// At the end of a scan exactly the documents of those files go that were indexed before and were
/// not found again.
pub proof fn law_exactly_missing_documents_go(
    previous: &Manifest,
    seen: Set<Seq<char>>,
    event: EventView,
)
    requires
        ascending(previous.files.ordered()),
    ensures
        delete_events(previous.files.ordered(), seen).contains(event) <==> exists|path: Seq<char>|
            #![trigger previous@.files[path]]
            previous@.files.contains_key(path) && previous@.files[path].state.indexed()
                && !seen.contains(path) && event == delete_event(path),
{
    let entries = previous.files.ordered();
    let files = previous@.files;
    lemma_delete_events(entries, seen, event);
    if delete_events(entries, seen).contains(event) {
        let i = choose|i: int|
            0 <= i < entries.len() && gone(#[trigger] entries[i], seen) && event == delete_event(
                entries[i].0,
            );
        lemma_position(entries, i);
        assert(files.contains_key(entries[i].0) && files[entries[i].0].state.indexed());
    }
    if exists|path: Seq<char>|
        #![trigger files[path]]
        files.contains_key(path) && files[path].state.indexed() && !seen.contains(path) && event
            == delete_event(path) {
        let path = choose|path: Seq<char>|
            #![trigger files[path]]
            files.contains_key(path) && files[path].state.indexed() && !seen.contains(path)
                && event == delete_event(path);
        let i = choose|i: int| holds_at(entries, path, i);
        lemma_position(entries, i);
        assert(gone(entries[i], seen));
    }
}

} // verus!
