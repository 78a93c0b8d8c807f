//! What a scan makes of each kind of file, told by the fields of what it hands on, records and
//! counts.

use crate::api::{ScanError, ScanErrorKind, ScanOptions, SyncStats};
use crate::document::{blake3_hex, document_json_text, DocumentView, IndexedDocument};
use crate::error::SearchxError;
use crate::manifest::{FileFingerprint, FileState, Manifest, ManifestEntry, SkipReason};
use crate::paths::{EntryPath, EntryPathView};
use crate::scan::{
    binary_input, bytes_outcome, bytes_output, bytes_view, counted, delete_event, delete_events,
    delivery_result, ensure_indexing_not_canceled, ensure_not_canceled, gone, has_image_extension,
    ignore_file_text, image_extensions, is_image, is_pdf, is_scanned, lemma_delete_events,
    metadata_embedding_text, metadata_outcome, metadata_output, metadata_text, metadata_view,
    pending_embedding_state, pending_state, supported_binary_embedding_input, EmbeddingJob,
    EmbeddingJobInput, EventView, IndexEvent, InputView, MessageView, MetadataStep, OutputView,
    ProgressUpdate, ProgressView, ScanContext, ScanMessage, ScanOutput,
};
use crate::text::{
    ascii_lowered, law_each_line_stands_in_its_place, law_only_case_is_ignored, lines_text,
    same_letter, same_letters,
};
use crate::text_map::{holds_at, lemma_position};
use vstd::prelude::*;
use vstd::utf8::*;

verus! {

/// The file is a PDF document by its extension.
pub open spec fn named_as_pdf(path: EntryPathView) -> bool {
    path.extension is Some && same_letters(path.extension->Some_0, "pdf"@)
}

/// The file is an image by its extension.
pub open spec fn named_as_image(path: EntryPathView) -> bool {
    path.extension is Some && ({
        let extension = path.extension->Some_0;
        ||| same_letters(extension, "png"@)
        ||| same_letters(extension, "jpg"@)
        ||| same_letters(extension, "jpeg"@)
        ||| same_letters(extension, "gif"@)
        ||| same_letters(extension, "webp"@)
        ||| same_letters(extension, "bmp"@)
        ||| same_letters(extension, "tif"@)
        ||| same_letters(extension, "tiff"@)
    })
}

/// A text, or the empty one.
pub open spec fn or_nothing(text: Option<Seq<char>>) -> Seq<char> {
    if text is Some {
        text->Some_0
    } else {
        Seq::empty()
    }
}

/// The document of a file with some contents, not embedded yet.
pub open spec fn is_document_of(
    document: DocumentView,
    path: EntryPathView,
    contents: Seq<char>,
) -> bool {
    &&& document.id == blake3_hex(encode_utf8(path.relative))
    &&& document.path == path.relative
    &&& document.file_name == or_nothing(path.file_name)
    &&& document.extension == path.extension
    &&& document.contents == contents
    &&& document.vector is None
}

/// The entry is that of a file as it is now, in a state.
pub open spec fn is_entry_of(
    entry: ManifestEntry,
    fingerprint: FileFingerprint,
    state: FileState,
) -> bool {
    &&& entry.size == fingerprint.size
    &&& entry.modified_secs == fingerprint.modified_secs
    &&& entry.modified_nanos == fingerprint.modified_nanos
    &&& entry.state == state
}

/// The message records an entry of a path, and does nothing else.
pub open spec fn only_records(
    message: MessageView,
    path: Seq<char>,
    fingerprint: FileFingerprint,
    state: FileState,
) -> bool {
    match message {
        MessageView::Event(EventView::Progress(update)) => update.path == path && is_entry_of(
            update.entry,
            fingerprint,
            state,
        ),
        _ => false,
    }
}

/// What is handed on for a file that is indexed with some contents: without embedding its document,
/// as JSON, with the entry to record once it is in the index; with embedding first the entry of a
/// file that waits, and then a job with the document, what it is embedded by, and the entry to
/// record.
pub open spec fn hands_on(
    messages: Seq<MessageView>,
    path: EntryPathView,
    contents: Seq<char>,
    input: InputView,
    fingerprint: FileFingerprint,
    state: FileState,
    waiting: FileState,
    embed: bool,
) -> bool {
    if embed {
        &&& messages.len() == 2
        &&& only_records(messages[0], path.relative, fingerprint, waiting)
        &&& messages[1] matches MessageView::Embed(job)
        &&& is_document_of(job.document, path, contents)
        &&& job.input == input
        &&& job.progress.path == path.relative
        &&& is_entry_of(job.progress.entry, fingerprint, state)
    } else {
        &&& messages.len() == 1
        &&& messages[0] matches MessageView::Event(
            EventView::Upsert { document_id, document, progress },
        )
        &&& document_id == blake3_hex(encode_utf8(path.relative))
        &&& forall|d: DocumentView|
            is_document_of(d, path, contents) ==> document == #[trigger] document_json_text(d)
        &&& progress matches Some(update)
        &&& update.path == path.relative
        &&& is_entry_of(update.entry, fingerprint, state)
    }
}

/// The figures after one more file that was indexed, of `too_large` and `binary` files by their
/// names.
pub open spec fn indexed_one_more(
    before: SyncStats,
    after: SyncStats,
    too_large: int,
    binary: int,
) -> bool {
    &&& after.indexed_or_updated == before.indexed_or_updated + 1
    &&& after.skipped_too_large == before.skipped_too_large + too_large
    &&& after.skipped_binary == before.skipped_binary + binary
    &&& after.unchanged_indexed == before.unchanged_indexed
    &&& after.unchanged_skipped == before.unchanged_skipped
    &&& after.read_errors == before.read_errors
    &&& same_beside_outcomes(before, after)
}

/// The figures that the outcome of a file does not change.
pub open spec fn same_beside_outcomes(before: SyncStats, after: SyncStats) -> bool {
    &&& after.scanned_files == before.scanned_files
    &&& after.deleted_missing == before.deleted_missing
    &&& after.deleted_became_unsupported == before.deleted_became_unsupported
    &&& after.walk_errors == before.walk_errors
}

/// The figures leave room for one more file.
pub open spec fn has_room(stats: SyncStats) -> bool {
    &&& stats.indexed_or_updated < u64::MAX
    &&& stats.skipped_too_large < u64::MAX
    &&& stats.skipped_binary < u64::MAX
    &&& stats.unchanged_indexed < u64::MAX
    &&& stats.unchanged_skipped < u64::MAX
    &&& stats.read_errors < u64::MAX
}

/// Exactly these extensions, in capitals or not, are those of PDF documents and of images.
pub proof fn law_supported_extensions(path: EntryPathView, bytes: Seq<u8>)
    ensures
        path.extension is Some ==> (is_pdf(path.extension->Some_0) <==> named_as_pdf(path)),
        path.extension is Some ==> (is_image(path.extension->Some_0) <==> named_as_image(path)),
        binary_input(path, bytes) is Some <==> named_as_pdf(path) || named_as_image(path),
        named_as_pdf(path) ==> !named_as_image(path),
{
    if let Some(extension) = path.extension {
        let names = image_extensions();
        law_only_case_is_ignored(extension, "pdf"@);
        law_only_case_is_ignored(extension, "png"@);
        law_only_case_is_ignored(extension, "jpg"@);
        law_only_case_is_ignored(extension, "jpeg"@);
        law_only_case_is_ignored(extension, "gif"@);
        law_only_case_is_ignored(extension, "webp"@);
        law_only_case_is_ignored(extension, "bmp"@);
        law_only_case_is_ignored(extension, "tif"@);
        law_only_case_is_ignored(extension, "tiff"@);
        assert(names[0] == "png"@ && names[1] == "jpg"@ && names[2] == "jpeg"@ && names[3]
            == "gif"@ && names[4] == "webp"@ && names[5] == "bmp"@ && names[6] == "tif"@
            && names[7] == "tiff"@);
        if is_image(extension) {
            let i = choose|i: int|
                0 <= i < names.len() && ascii_lowered(extension)
                    == ascii_lowered(#[trigger] names[i]);
            assert(0 <= i < 8);
        }
        reveal_strlit("pdf");
        reveal_strlit("png");
        reveal_strlit("jpg");
        reveal_strlit("jpeg");
        reveal_strlit("gif");
        reveal_strlit("webp");
        reveal_strlit("bmp");
        reveal_strlit("tif");
        reveal_strlit("tiff");
        if named_as_pdf(path) {
            assert(same_letter(extension[0], 'p'));
            assert(same_letter(extension[1], 'd'));
            assert(same_letter(extension[2], 'f'));
            if named_as_image(path) {
                assert(same_letters(extension, "png"@) ==> same_letter(
                    extension[1],
                    "png"@[1],
                ));
                assert(same_letters(extension, "jpg"@) ==> same_letter(
                    extension[0],
                    "jpg"@[0],
                ));
                assert(same_letters(extension, "gif"@) ==> same_letter(
                    extension[0],
                    "gif"@[0],
                ));
                assert(same_letters(extension, "bmp"@) ==> same_letter(
                    extension[0],
                    "bmp"@[0],
                ));
                assert(same_letters(extension, "tif"@) ==> same_letter(
                    extension[0],
                    "tif"@[0],
                ));
            }
        }
    }
}

/// What a file is embedded by where its contents are not: lines that hold its path and its name, and
/// its extension where it has one.
pub open spec fn is_name_text(text: Seq<char>, path: EntryPathView) -> bool {
    let extension = or_nothing(path.extension);
    text.push('\n') == lines_text(
        if extension.len() == 0 {
            seq![path.relative, or_nothing(path.file_name)]
        } else {
            seq![path.relative, or_nothing(path.file_name), extension]
        },
    )
}

/// Path, name and extension are all in what a file is embedded by where its contents are not.
pub proof fn law_name_text_holds_path_name_and_extension(path: EntryPathView)
    ensures
        is_name_text(metadata_text(path), path),
{
    reveal_strlit("\n");
    let name = or_nothing(path.file_name);
    let extension = or_nothing(path.extension);
    let none = Seq::<Seq<char>>::empty();
    let first = none.push(path.relative);
    let second = first.push(name);
    let third = second.push(extension);
    assert(first.drop_last() =~= none);
    assert(second.drop_last() =~= first);
    assert(third.drop_last() =~= second);
    assert(lines_text(none) =~= Seq::empty());
    assert(lines_text(first) =~= path.relative.push('\n'));
    assert(lines_text(second) =~= path.relative.push('\n') + name.push('\n'));
    assert(seq![path.relative, name] =~= second);
    assert(seq![path.relative, name, extension] =~= third);
    if extension.len() == 0 {
        assert(metadata_text(path).push('\n') =~= lines_text(second));
    } else {
        assert(lines_text(third) =~= lines_text(second) + extension.push('\n'));
        assert(metadata_text(path).push('\n') =~= lines_text(third));
    }
}

/// A file of valid text is indexed with all of it, whatever its name or its extension, unless that
/// is the one of a PDF document or of an image, and is embedded by it.
pub proof fn law_text_file_is_indexed_whole(
    previous: Option<ManifestEntry>,
    path: EntryPathView,
    fingerprint: FileFingerprint,
    bytes: Seq<u8>,
    embed: bool,
    stats: SyncStats,
)
    requires
        valid_utf8(bytes),
        forall|i: int| 0 <= i < bytes.len() ==> bytes[i] != 0,
        !named_as_pdf(path),
        !named_as_image(path),
        has_room(stats),
    ensures
        hands_on(
            bytes_output(previous, path, fingerprint, Ok(bytes), embed).messages,
            path,
            decode_utf8(bytes),
            InputView::DocumentContents,
            fingerprint,
            FileState::Indexed,
            FileState::IndexedPendingEmbedding,
            embed,
        ),
        bytes_output(previous, path, fingerprint, Ok(bytes), embed).error is None,
        indexed_one_more(stats, counted(stats, bytes_outcome(path, Ok(bytes))), 0, 0),
{
    law_supported_extensions(path, bytes);
}

/// A file that is no text is indexed by its name, with no contents, and is embedded by its path and
/// its name.
pub proof fn law_binary_file_is_indexed_by_its_name(
    previous: Option<ManifestEntry>,
    path: EntryPathView,
    fingerprint: FileFingerprint,
    bytes: Seq<u8>,
    name_text: Seq<char>,
    embed: bool,
    stats: SyncStats,
)
    requires
        !valid_utf8(bytes) || exists|i: int| 0 <= i < bytes.len() && bytes[i] == 0,
        !named_as_pdf(path),
        !named_as_image(path),
        is_name_text(name_text, path),
        has_room(stats),
    ensures
        hands_on(
            bytes_output(previous, path, fingerprint, Ok(bytes), embed).messages,
            path,
            Seq::empty(),
            InputView::Text(name_text),
            fingerprint,
            FileState::IndexedMetadata { reason: SkipReason::Binary },
            FileState::IndexedMetadataPendingEmbedding { reason: SkipReason::Binary },
            embed,
        ),
        bytes_output(previous, path, fingerprint, Ok(bytes), embed).error is None,
        indexed_one_more(stats, counted(stats, bytes_outcome(path, Ok(bytes))), 0, 1),
{
    law_supported_extensions(path, bytes);
    lemma_name_text_is_one(name_text, path);
    if exists|i: int| 0 <= i < bytes.len() && bytes[i] == 0 {
        let i = choose|i: int| 0 <= i < bytes.len() && bytes[i] == 0;
        assert(bytes.contains(bytes[i]));
    }
}

proof fn lemma_name_text_is_one(name_text: Seq<char>, path: EntryPathView)
    requires
        is_name_text(name_text, path),
    ensures
        name_text == metadata_text(path),
{
    law_name_text_holds_path_name_and_extension(path);
    assert(name_text =~= name_text.push('\n').drop_last());
    assert(metadata_text(path) =~= metadata_text(path).push('\n').drop_last());
}

/// A PDF document is indexed without contents, and embedded by its path and its name, whatever bytes
/// it holds.
pub proof fn law_pdf_is_embedded_by_its_name(
    previous: Option<ManifestEntry>,
    path: EntryPathView,
    fingerprint: FileFingerprint,
    bytes: Seq<u8>,
    name_text: Seq<char>,
    embed: bool,
    stats: SyncStats,
)
    requires
        named_as_pdf(path),
        is_name_text(name_text, path),
        has_room(stats),
    ensures
        hands_on(
            bytes_output(previous, path, fingerprint, Ok(bytes), embed).messages,
            path,
            Seq::empty(),
            InputView::Text(name_text),
            fingerprint,
            FileState::Indexed,
            FileState::IndexedPendingEmbedding,
            embed,
        ),
        bytes_output(previous, path, fingerprint, Ok(bytes), embed).error is None,
        indexed_one_more(stats, counted(stats, bytes_outcome(path, Ok(bytes))), 0, 0),
{
    law_supported_extensions(path, bytes);
    lemma_name_text_is_one(name_text, path);
}

/// An image is indexed without contents, and embedded by its bytes, all of them.
pub proof fn law_image_is_embedded_by_its_bytes(
    previous: Option<ManifestEntry>,
    path: EntryPathView,
    fingerprint: FileFingerprint,
    bytes: Seq<u8>,
    embed: bool,
    stats: SyncStats,
)
    requires
        named_as_image(path),
        has_room(stats),
    ensures
        hands_on(
            bytes_output(previous, path, fingerprint, Ok(bytes), embed).messages,
            path,
            Seq::empty(),
            InputView::Image(bytes),
            fingerprint,
            FileState::Indexed,
            FileState::IndexedPendingEmbedding,
            embed,
        ),
        bytes_output(previous, path, fingerprint, Ok(bytes), embed).error is None,
        indexed_one_more(stats, counted(stats, bytes_outcome(path, Ok(bytes))), 0, 0),
{
    law_supported_extensions(path, bytes);
}

/// The entry says that the file is as it is now, and that nothing is left to be done for it.
pub open spec fn known_as_it_is(
    previous: Option<ManifestEntry>,
    fingerprint: FileFingerprint,
) -> bool {
    previous is Some && ({
        let entry = previous->Some_0;
        &&& entry.size == fingerprint.size
        &&& entry.modified_secs == fingerprint.modified_secs
        &&& entry.modified_nanos == fingerprint.modified_nanos
        &&& !(entry.state is IndexedPendingEmbedding)
        &&& !(entry.state is IndexedMetadataPendingEmbedding)
    })
}

/// A file that is as it was has its entry recorded again, and nothing else happens to it.
pub proof fn law_known_file_is_only_recorded(
    entry: ManifestEntry,
    path: EntryPathView,
    fingerprint: FileFingerprint,
    max_file_bytes: u64,
    embed: bool,
    stats: SyncStats,
)
    requires
        known_as_it_is(Some(entry), fingerprint),
        has_room(stats),
    ensures
        ({
            let output = metadata_output(Some(entry), path, Ok(fingerprint), embed);
            &&& output.error is None
            &&& output.messages.len() == 1
            &&& only_records(output.messages[0], path.relative, fingerprint, entry.state)
        }),
        metadata_outcome(Some(entry), max_file_bytes, Ok(fingerprint)) matches Some(outcome) && {
            let after = counted(stats, outcome);
            &&& after.unchanged_indexed + after.unchanged_skipped == stats.unchanged_indexed
                + stats.unchanged_skipped + 1
            &&& after.unchanged_indexed == stats.unchanged_indexed + 1 <==> entry.state is Indexed
            &&& after.unchanged_skipped == stats.unchanged_skipped + 1 <==> !(
            entry.state is Indexed)
            &&& after.indexed_or_updated == stats.indexed_or_updated
            &&& after.skipped_too_large == stats.skipped_too_large
            &&& after.skipped_binary == stats.skipped_binary
            &&& after.read_errors == stats.read_errors
            &&& same_beside_outcomes(stats, after)
        },
{
}

/// A file that is new, was modified or waits for its embedding is indexed by its name where it is
/// over the limit; otherwise its contents are read.
pub proof fn law_other_file_is_read_unless_too_large(
    previous: Option<ManifestEntry>,
    path: EntryPathView,
    fingerprint: FileFingerprint,
    max_file_bytes: u64,
    name_text: Seq<char>,
    embed: bool,
    stats: SyncStats,
)
    requires
        !known_as_it_is(previous, fingerprint),
        is_name_text(name_text, path),
        has_room(stats),
    ensures
        metadata_outcome(previous, max_file_bytes, Ok(fingerprint)) is None <==> fingerprint.size
            <= max_file_bytes,
        fingerprint.size > max_file_bytes ==> {
            &&& hands_on(
                metadata_output(previous, path, Ok(fingerprint), embed).messages,
                path,
                Seq::empty(),
                InputView::Text(name_text),
                fingerprint,
                FileState::IndexedMetadata { reason: SkipReason::TooLarge },
                FileState::IndexedMetadataPendingEmbedding { reason: SkipReason::TooLarge },
                embed,
            )
            &&& metadata_output(previous, path, Ok(fingerprint), embed).error is None
            &&& indexed_one_more(
                stats,
                counted(
                    stats,
                    metadata_outcome(previous, max_file_bytes, Ok(fingerprint))->Some_0,
                ),
                1,
                0,
            )
        },
{
    lemma_name_text_is_one(name_text, path);
}

/// The output reports an error of a file, and keeps the entry that was known, if any.
pub open spec fn only_reports(
    output: OutputView,
    kind: ScanErrorKind,
    previous: Option<ManifestEntry>,
    path: EntryPathView,
    message: Seq<char>,
) -> bool {
    &&& output.error matches Some(error)
    &&& error.kind == kind
    &&& error.path == Some(path.display)
    &&& error.message == message
    &&& previous is None ==> output.messages.len() == 0
    &&& previous is Some ==> output.messages == seq![
        MessageView::Event(
            EventView::Progress(
                ProgressView { path: path.relative, entry: previous->Some_0 },
            ),
        ),
    ]
}

/// A file whose metadata or contents cannot be read is reported with its error, is counted as such,
/// and keeps what was known of it.
pub proof fn law_unreadable_file_is_only_reported(
    previous: Option<ManifestEntry>,
    path: EntryPathView,
    fingerprint: FileFingerprint,
    message: Seq<char>,
    max_file_bytes: u64,
    embed: bool,
    stats: SyncStats,
)
    requires
        has_room(stats),
    ensures
        only_reports(
            metadata_output(previous, path, Err(message), embed),
            ScanErrorKind::Metadata,
            previous,
            path,
            message,
        ),
        only_reports(
            bytes_output(previous, path, fingerprint, Err(message), embed),
            ScanErrorKind::Read,
            previous,
            path,
            message,
        ),
        ({
            let after = counted(stats, bytes_outcome(path, Err(message)));
            &&& metadata_outcome(previous, max_file_bytes, Err(message)) == Some(
                bytes_outcome(path, Err(message)),
            )
            &&& after.read_errors == stats.read_errors + 1
            &&& after.indexed_or_updated == stats.indexed_or_updated
            &&& after.skipped_too_large == stats.skipped_too_large
            &&& after.skipped_binary == stats.skipped_binary
            &&& after.unchanged_indexed == stats.unchanged_indexed
            &&& after.unchanged_skipped == stats.unchanged_skipped
            &&& same_beside_outcomes(stats, after)
        }),
{
}

/// A state that waits for its embedding is that of the same file, and only the embedding is missing.
pub proof fn law_waiting_state_keeps_the_reason(state: FileState)
    ensures
        state is Indexed ==> pending_state(state) is IndexedPendingEmbedding,
        state matches FileState::IndexedMetadata { reason } ==> pending_state(state)
            == (FileState::IndexedMetadataPendingEmbedding { reason }),
        !(state is Indexed) && !(state is IndexedMetadata) ==> pending_state(state) == state,
{
}

/// The change that takes the document of a path out of the index.
pub open spec fn takes_out(event: EventView, path: Seq<char>) -> bool {
    match event {
        EventView::Delete { document_id, progress } => document_id == blake3_hex(
            encode_utf8(path),
        ) && progress is None,
        _ => false,
    }
}

/// Of a file that is not found any more the document goes, whichever way it was indexed and whether
/// or not its embedding was still to come.
pub proof fn law_missing_file_loses_its_document(
    entries: Seq<(Seq<char>, ManifestEntry)>,
    seen: Set<Seq<char>>,
    i: int,
)
    requires
        0 <= i < entries.len(),
        !seen.contains(entries[i].0),
        ({
            let state = entries[i].1.state;
            ||| state is Indexed
            ||| state is IndexedPendingEmbedding
            ||| state is IndexedMetadata
            ||| state is IndexedMetadataPendingEmbedding
        }),
    ensures
        exists|k: int|
            0 <= k < delete_events(entries, seen).len() && takes_out(
                #[trigger] delete_events(entries, seen)[k],
                entries[i].0,
            ),
{
    let event = delete_event(entries[i].0);
    lemma_delete_events(entries, seen, event);
    assert(gone(entries[i], seen));
    let k = delete_events(entries, seen).index_of(event);
    assert(takes_out(delete_events(entries, seen)[k], entries[i].0));
}

/// The change takes out the document of a file that is not found, and that was not skipped before.
pub open spec fn of_missing_file(
    entries: Seq<(Seq<char>, ManifestEntry)>,
    seen: Set<Seq<char>>,
    event: EventView,
) -> bool {
    exists|i: int|
        0 <= i < entries.len() && !seen.contains((#[trigger] entries[i]).0) && !(
        entries[i].1.state is Skipped) && takes_out(event, entries[i].0)
}

/// No other document goes: each change at the end of a scan takes out the document of a file that is
/// not found, and that was not skipped before. There is one for each such file.
pub proof fn law_only_missing_files_lose_their_documents(
    entries: Seq<(Seq<char>, ManifestEntry)>,
    seen: Set<Seq<char>>,
)
    ensures
        forall|k: int|
            0 <= k < delete_events(entries, seen).len() ==> of_missing_file(
                entries,
                seen,
                #[trigger] delete_events(entries, seen)[k],
            ),
        delete_events(entries, seen).len() == entries.filter(
            |entry: (Seq<char>, ManifestEntry)|
                !seen.contains(entry.0) && !(entry.1.state is Skipped),
        ).len(),
{
    let events = delete_events(entries, seen);
    assert forall|k: int| 0 <= k < events.len() implies of_missing_file(
        entries,
        seen,
        #[trigger] events[k],
    ) by {
        lemma_delete_events(entries, seen, events[k]);
        assert(events.contains(events[k]));
        let i = choose|i: int|
            0 <= i < entries.len() && gone(#[trigger] entries[i], seen) && events[k]
                == delete_event(entries[i].0);
        assert(takes_out(events[k], entries[i].0));
    }
    lemma_one_delete_each(entries, seen);
}

proof fn lemma_one_delete_each(
    entries: Seq<(Seq<char>, ManifestEntry)>,
    seen: Set<Seq<char>>,
)
    ensures
        delete_events(entries, seen).len() == entries.filter(
            |entry: (Seq<char>, ManifestEntry)|
                !seen.contains(entry.0) && !(entry.1.state is Skipped),
        ).len(),
    decreases entries.len(),
{
    let missing = |entry: (Seq<char>, ManifestEntry)|
        !seen.contains(entry.0) && !(entry.1.state is Skipped);
    reveal(Seq::filter);
    if entries.len() > 0 {
        lemma_one_delete_each(entries.drop_last(), seen);
        assert(missing(entries.last()) == gone(entries.last(), seen));
    }
}

/// What is said of the bytes and the metadata of a file, and of its path, is said of all that was
/// read.
pub proof fn law_what_is_read_is_taken_whole(
    bytes: Vec<u8>,
    fingerprint: FileFingerprint,
    message: String,
    path: EntryPath,
)
    ensures
        bytes_view(Ok(bytes)) == Ok::<Seq<u8>, Seq<char>>(bytes@),
        bytes_view(Err(message)) == Err::<Seq<u8>, Seq<char>>(message@),
        metadata_view(Ok(fingerprint)) == Ok::<FileFingerprint, Seq<char>>(fingerprint),
        metadata_view(Err(message)) == Err::<FileFingerprint, Seq<char>>(message@),
        path@.relative == path.relative@,
        path@.display == path.display@,
        path.file_name is Some == path@.file_name is Some,
        path.file_name is Some ==> path.file_name->Some_0@ == path@.file_name->Some_0,
        path.extension is Some == path@.extension is Some,
        path.extension is Some ==> path.extension->Some_0@ == path@.extension->Some_0,
{
}

/// What is known of a file is the entry of its path in the manifest that the scan starts from.
pub proof fn law_known_entry_is_that_of_the_path(context: &ScanContext, path: EntryPathView)
    ensures
        context.previous_entry(path) is Some
            == context.previous()@.files.contains_key(path.relative),
        context.previous_entry(path) is Some ==> context.previous_entry(path)->Some_0
            == context.previous()@.files[path.relative],
{
}

/// What is said of a document is said of its own fields.
pub proof fn law_document_is_told_by_its_fields(document: IndexedDocument)
    ensures
        document@.id == document.id@,
        document@.path == document.path@,
        document@.file_name == document.file_name@,
        document@.contents == document.contents@,
        document@.extension is Some == document.extension is Some,
        document@.extension is Some ==> document@.extension->Some_0
            == document.extension->Some_0@,
        document@.vector is Some == document.vectors.vector is Some,
        document@.vector is Some ==> document@.vector->Some_0 == document.vectors.vector->Some_0@,
{
}

/// What is said of what a scan hands on is said of its own fields.
pub proof fn law_messages_are_told_by_their_fields(
    output: ScanOutput,
    job: EmbeddingJob,
    update: ProgressUpdate,
    event: IndexEvent,
    text: String,
    bytes: Vec<u8>,
)
    ensures
        output@.messages.len() == output.messages@.len(),
        forall|i: int|
            0 <= i < output.messages@.len() ==> #[trigger] output@.messages[i]
                == output.messages@[i].deep_view(),
        output@.error is Some == output.error is Some,
        ScanMessage::Event(event).deep_view() == MessageView::Event(event@),
        ScanMessage::Embed(job).deep_view() == MessageView::Embed(job@),
        job@.document == job.document@,
        job@.input == job.input@,
        job@.progress == job.progress@,
        update@.path == update.path@,
        update@.entry == update.entry,
        EmbeddingJobInput::DocumentContents@ == InputView::DocumentContents,
        EmbeddingJobInput::Text(text)@ == InputView::Text(text@),
        EmbeddingJobInput::Image(bytes)@ == InputView::Image(bytes@),
        IndexEvent::Progress(update)@ == EventView::Progress(update@),
        event matches IndexEvent::Upsert { document_id, document, progress } ==> (
        event@ matches EventView::Upsert { document_id: id, document: json, progress: recorded }
            && id == document_id@ && json == document@ && recorded is Some == progress is Some && (
        progress is Some ==> recorded->Some_0 == progress->Some_0@)),
        event matches IndexEvent::Delete { document_id, progress } ==> (
        event@ matches EventView::Delete { document_id: id, progress: recorded } && id
            == document_id@ && recorded is Some == progress is Some && (progress is Some
            ==> recorded->Some_0 == progress->Some_0@)),
{
}

/// Nothing of a scan but its figures and the paths found has changed.
pub open spec fn goes_on(before: &ScanContext, after: &ScanContext) -> bool {
    &&& after.options() == before.options()
    &&& after.previous() == before.previous()
    &&& after.embeds() == before.embeds()
}

/// A scan begins with what it was given, nothing found and nothing counted.
pub proof fn law_scan_begins_with_what_it_is_given<'a>(
    options: &'a ScanOptions,
    previous: &'a Manifest,
    embed: bool,
    context: ScanContext<'a>,
)
    requires
        call_ensures(ScanContext::new, (options, previous, embed), context),
    ensures
        context.options() == *options,
        context.previous() == *previous,
        context.embeds() == embed,
        forall|path: Seq<char>| !(#[trigger] context.seen().contains(path)),
        context.stats().scanned_files == 0,
        context.stats().indexed_or_updated == 0,
        context.stats().unchanged_indexed == 0,
        context.stats().unchanged_skipped == 0,
        context.stats().skipped_too_large == 0,
        context.stats().skipped_binary == 0,
        context.stats().read_errors == 0,
        context.stats().walk_errors == 0,
        context.stats().deleted_missing == 0,
        context.stats().deleted_became_unsupported == 0,
{
}

/// A file that the walk finds is counted, and its path is taken note of, under which it is known.
pub proof fn law_found_file_is_taken_note_of<'a>(
    context: &mut ScanContext<'a>,
    path: &EntryPath,
    other: Seq<char>,
)
    requires
        old(context).stats().scanned_files < u64::MAX,
        call_ensures(ScanContext::scan_entry, (context, path), ()),
    ensures
        final(context).seen().contains(other) <==> other == path.relative@ || old(
            context,
        ).seen().contains(other),
        final(context).stats().scanned_files == old(context).stats().scanned_files + 1,
        final(context).stats().indexed_or_updated == old(context).stats().indexed_or_updated,
        final(context).stats().unchanged_indexed == old(context).stats().unchanged_indexed,
        final(context).stats().unchanged_skipped == old(context).stats().unchanged_skipped,
        final(context).stats().read_errors == old(context).stats().read_errors,
        final(context).stats().deleted_missing == old(context).stats().deleted_missing,
        goes_on(old(context), final(context)),
{
}

/// An error of the walk is reported with its message, and counted.
pub proof fn law_walk_error_is_reported<'a>(
    context: &mut ScanContext<'a>,
    message: String,
    error: ScanError,
)
    requires
        old(context).stats().walk_errors < u64::MAX,
        call_ensures(ScanContext::walk_error, (context, message), error),
    ensures
        error.kind == ScanErrorKind::Walk,
        error.path is None,
        error.message@ == message@,
        final(context).stats().walk_errors == old(context).stats().walk_errors + 1,
        final(context).stats().scanned_files == old(context).stats().scanned_files,
        final(context).stats().read_errors == old(context).stats().read_errors,
        final(context).seen() == old(context).seen(),
        goes_on(old(context), final(context)),
{
}

/// What a scan makes of the contents of a file: text is indexed and embedded whole, an image by its
/// bytes, a PDF document and all else by its name. A file that cannot be read is only reported.
pub proof fn law_contents_decide_how_a_file_is_indexed<'a>(
    context: &mut ScanContext<'a>,
    path: &EntryPath,
    fingerprint: FileFingerprint,
    bytes: Vec<u8>,
    name_text: Seq<char>,
    output: ScanOutput,
)
    requires
        has_room(old(context).stats()),
        is_name_text(name_text, path@),
        call_ensures(ScanContext::scan_bytes, (context, path, fingerprint, Ok(bytes)), output),
    ensures
        output.error is None,
        final(context).seen() == old(context).seen(),
        goes_on(old(context), final(context)),
        ({
            let text = valid_utf8(bytes@) && forall|i: int|
                0 <= i < bytes@.len() ==> #[trigger] bytes@[i] != 0;
            let messages = output.messages.deep_view();
            let embed = old(context).embeds();
            let before = old(context).stats();
            let after = final(context).stats();
            if named_as_pdf(path@) {
                &&& hands_on(
                    messages,
                    path@,
                    Seq::empty(),
                    InputView::Text(name_text),
                    fingerprint,
                    FileState::Indexed,
                    FileState::IndexedPendingEmbedding,
                    embed,
                )
                &&& indexed_one_more(before, after, 0, 0)
            } else if named_as_image(path@) {
                &&& hands_on(
                    messages,
                    path@,
                    Seq::empty(),
                    InputView::Image(bytes@),
                    fingerprint,
                    FileState::Indexed,
                    FileState::IndexedPendingEmbedding,
                    embed,
                )
                &&& indexed_one_more(before, after, 0, 0)
            } else if text {
                &&& hands_on(
                    messages,
                    path@,
                    decode_utf8(bytes@),
                    InputView::DocumentContents,
                    fingerprint,
                    FileState::Indexed,
                    FileState::IndexedPendingEmbedding,
                    embed,
                )
                &&& indexed_one_more(before, after, 0, 0)
            } else {
                &&& hands_on(
                    messages,
                    path@,
                    Seq::empty(),
                    InputView::Text(name_text),
                    fingerprint,
                    FileState::IndexedMetadata { reason: SkipReason::Binary },
                    FileState::IndexedMetadataPendingEmbedding { reason: SkipReason::Binary },
                    embed,
                )
                &&& indexed_one_more(before, after, 0, 1)
            }
        }),
{
    let previous = old(context).previous_entry(path@);
    let embed = old(context).embeds();
    let stats = old(context).stats();
    let b = bytes@;
    if named_as_pdf(path@) {
        law_pdf_is_embedded_by_its_name(previous, path@, fingerprint, b, name_text, embed, stats);
    } else if named_as_image(path@) {
        law_image_is_embedded_by_its_bytes(previous, path@, fingerprint, b, embed, stats);
    } else if valid_utf8(b) && forall|i: int| 0 <= i < b.len() ==> #[trigger] b[i] != 0 {
        law_text_file_is_indexed_whole(previous, path@, fingerprint, b, embed, stats);
    } else {
        law_binary_file_is_indexed_by_its_name(
            previous,
            path@,
            fingerprint,
            b,
            name_text,
            embed,
            stats,
        );
    }
}

/// A file of text, whatever its name, has its whole text in the document that is handed on.
pub proof fn law_document_of_a_text_file_holds_its_text<'a>(
    context: &mut ScanContext<'a>,
    path: &EntryPath,
    fingerprint: FileFingerprint,
    bytes: Vec<u8>,
    output: ScanOutput,
    i: int,
    job: EmbeddingJob,
)
    requires
        has_room(old(context).stats()),
        valid_utf8(bytes@),
        forall|j: int| 0 <= j < bytes@.len() ==> bytes@[j] != 0,
        !named_as_pdf(path@),
        !named_as_image(path@),
        call_ensures(ScanContext::scan_bytes, (context, path, fingerprint, Ok(bytes)), output),
        0 <= i < output.messages@.len(),
        output.messages@[i] == ScanMessage::Embed(job),
    ensures
        job.document.contents@ == decode_utf8(bytes@),
        job.document.path@ == path.relative@,
        path.file_name is Some ==> job.document.file_name@ == path.file_name->Some_0@,
        path.file_name is None ==> job.document.file_name@.len() == 0,
        job.document.extension is Some == path.extension is Some,
        path.extension is Some ==> job.document.extension->Some_0@ == path.extension->Some_0@,
        job.document.vectors.vector is None,
        job.input is DocumentContents,
        job.progress.path@ == path.relative@,
        job.progress.entry.size == fingerprint.size,
        job.progress.entry.modified_secs == fingerprint.modified_secs,
        job.progress.entry.modified_nanos == fingerprint.modified_nanos,
        job.progress.entry.state is Indexed,
{
    let name_text = metadata_text(path@);
    law_name_text_holds_path_name_and_extension(path@);
    law_contents_decide_how_a_file_is_indexed(
        context,
        path,
        fingerprint,
        bytes,
        name_text,
        output,
    );
    assert(output.messages.deep_view()[i] == MessageView::Embed(job@));
}

/// A file whose contents cannot be read is reported with its path and the error, is counted, and
/// keeps what was known of it.
pub proof fn law_file_with_unreadable_contents_is_reported<'a>(
    context: &mut ScanContext<'a>,
    path: &EntryPath,
    fingerprint: FileFingerprint,
    message: String,
    output: ScanOutput,
)
    requires
        has_room(old(context).stats()),
        call_ensures(
            ScanContext::scan_bytes,
            (context, path, fingerprint, Err::<Vec<u8>, String>(message)),
            output,
        ),
    ensures
        output.error matches Some(error) && error.kind == ScanErrorKind::Read
            && error.message@ == message@ && (error.path matches Some(shown) && shown@
            == path.display@),
        keeps_known_entry(old(context), path, output.messages@),
        final(context).stats().read_errors == old(context).stats().read_errors + 1,
        final(context).stats().indexed_or_updated == old(context).stats().indexed_or_updated,
        final(context).seen() == old(context).seen(),
        goes_on(old(context), final(context)),
{
    law_unreadable_file_is_only_reported(
        old(context).previous_entry(path@),
        path@,
        fingerprint,
        message@,
        0,
        old(context).embeds(),
        old(context).stats(),
    );
    assert(output.messages.deep_view() == output@.messages);
    lemma_keeps_known_entry(old(context), path, output);
}

/// What is handed on is the entry that was known of the file, recorded again; nothing where none was.
pub open spec fn keeps_known_entry(
    context: &ScanContext,
    path: &EntryPath,
    messages: Seq<ScanMessage>,
) -> bool {
    let known = context.previous()@.files;
    if known.contains_key(path.relative@) {
        &&& messages.len() == 1
        &&& messages[0] matches ScanMessage::Event(IndexEvent::Progress(update))
        &&& update.path@ == path.relative@
        &&& update.entry == known[path.relative@]
    } else {
        messages.len() == 0
    }
}

proof fn lemma_keeps_known_entry(context: &ScanContext, path: &EntryPath, output: ScanOutput)
    requires
        context.previous_entry(path@) is None ==> output@.messages.len() == 0,
        context.previous_entry(path@) is Some ==> output@.messages == seq![
            MessageView::Event(
                EventView::Progress(
                    ProgressView {
                        path: path@.relative,
                        entry: context.previous_entry(path@)->Some_0,
                    },
                ),
            ),
        ],
    ensures
        keeps_known_entry(context, path, output.messages@),
{
    assert(output@.messages.len() == output.messages@.len());
    if output.messages@.len() == 1 {
        assert(output@.messages[0] == output.messages@[0].deep_view());
    }
}

/// What the metadata of a file decide: a file that is as it was, with nothing left to do, is only
/// recorded; of the others one over the limit is indexed by its name, and the contents of the rest
/// are read. Nothing but these metadata and what was known of the file counts.
pub proof fn law_metadata_decide_whether_a_file_is_read<'a>(
    context: &mut ScanContext<'a>,
    path: &EntryPath,
    fingerprint: FileFingerprint,
    name_text: Seq<char>,
    step: MetadataStep,
)
    requires
        has_room(old(context).stats()),
        is_name_text(name_text, path@),
        call_ensures(ScanContext::scan_metadata, (context, path, Ok(fingerprint)), step),
    ensures
        final(context).seen() == old(context).seen(),
        goes_on(old(context), final(context)),
        ({
            let known = old(context).previous()@.files;
            let unmodified = known.contains_key(path.relative@) && known_as_it_is(
                Some(known[path.relative@]),
                fingerprint,
            );
            let large = fingerprint.size > old(context).options().max_file_bytes;
            let before = old(context).stats();
            let after = final(context).stats();
            if unmodified {
                &&& step matches MetadataStep::Finished(output)
                &&& output.error is None
                &&& keeps_known_entry(old(context), path, output.messages@)
                &&& known[path.relative@].state is Indexed ==> after.unchanged_indexed
                    == before.unchanged_indexed + 1 && after.unchanged_skipped
                    == before.unchanged_skipped
                &&& !(known[path.relative@].state is Indexed) ==> after.unchanged_indexed
                    == before.unchanged_indexed && after.unchanged_skipped
                    == before.unchanged_skipped + 1
                &&& after.indexed_or_updated == before.indexed_or_updated
            } else if large {
                &&& step matches MetadataStep::Finished(output)
                &&& output.error is None
                &&& hands_on(
                    output.messages.deep_view(),
                    path@,
                    Seq::empty(),
                    InputView::Text(name_text),
                    fingerprint,
                    FileState::IndexedMetadata { reason: SkipReason::TooLarge },
                    FileState::IndexedMetadataPendingEmbedding { reason: SkipReason::TooLarge },
                    old(context).embeds(),
                )
                &&& indexed_one_more(before, after, 1, 0)
            } else {
                &&& step == MetadataStep::ReadBytes(fingerprint)
                &&& after == before
            }
        }),
{
    let previous = old(context).previous_entry(path@);
    let stats = old(context).stats();
    let max = old(context).options().max_file_bytes;
    if known_as_it_is(previous, fingerprint) {
        law_known_file_is_only_recorded(
            previous->Some_0,
            path@,
            fingerprint,
            max,
            old(context).embeds(),
            stats,
        );
        let output = step->Finished_0;
        assert(output@.messages =~= seq![
            MessageView::Event(
                EventView::Progress(
                    ProgressView { path: path@.relative, entry: previous->Some_0 },
                ),
            ),
        ]);
        lemma_keeps_known_entry(old(context), path, output);
    } else {
        law_other_file_is_read_unless_too_large(
            previous,
            path@,
            fingerprint,
            max,
            name_text,
            old(context).embeds(),
            stats,
        );
    }
}

/// A file whose metadata cannot be read is reported, is counted, and keeps what was known of it.
pub proof fn law_file_with_unreadable_metadata_is_reported<'a>(
    context: &mut ScanContext<'a>,
    path: &EntryPath,
    message: String,
    step: MetadataStep,
)
    requires
        has_room(old(context).stats()),
        call_ensures(
            ScanContext::scan_metadata,
            (context, path, Err::<FileFingerprint, String>(message)),
            step,
        ),
    ensures
        step matches MetadataStep::Finished(output) && (output.error matches Some(error)
            && error.kind == ScanErrorKind::Metadata && error.message@ == message@ && (
        error.path matches Some(shown) && shown@ == path.display@)) && keeps_known_entry(
            old(context),
            path,
            output.messages@,
        ),
        final(context).stats().read_errors == old(context).stats().read_errors + 1,
        final(context).stats().indexed_or_updated == old(context).stats().indexed_or_updated,
        final(context).seen() == old(context).seen(),
        goes_on(old(context), final(context)),
{
    let fingerprint = FileFingerprint { size: 0, modified_secs: 0, modified_nanos: 0 };
    law_unreadable_file_is_only_reported(
        old(context).previous_entry(path@),
        path@,
        fingerprint,
        message@,
        old(context).options().max_file_bytes,
        old(context).embeds(),
        old(context).stats(),
    );
    lemma_keeps_known_entry(old(context), path, step->Finished_0);
}

/// At the end of a scan the document of a file goes exactly where the file was known and not skipped,
/// and was not found; the documents that go are counted.
pub proof fn law_documents_of_missing_files_go<'a>(
    context: &mut ScanContext<'a>,
    events: Vec<IndexEvent>,
    path: Seq<char>,
)
    requires
        old(context).stats().deleted_missing + events@.len() <= u64::MAX,
        call_ensures(ScanContext::delete_missing_documents, (context,), events),
    ensures
        old(context).previous()@.files.contains_key(path) && !old(context).seen().contains(path) && !(
        old(context).previous()@.files[path].state is Skipped) ==> exists|k: int|
            0 <= k < events@.len() && takes_out((#[trigger] events@[k])@, path),
        forall|k: int|
            0 <= k < events@.len() ==> of_missing_entry(old(context), (#[trigger] events@[k])@),
        final(context).stats().deleted_missing == old(context).stats().deleted_missing
            + events@.len(),
        final(context).stats().scanned_files == old(context).stats().scanned_files,
        final(context).stats().indexed_or_updated == old(context).stats().indexed_or_updated,
        goes_on(old(context), final(context)),
{
    let entries = old(context).previous().files.ordered();
    let seen = old(context).seen();
    let files = old(context).previous()@.files;
    law_only_missing_files_lose_their_documents(entries, seen);
    if files.contains_key(path) && !seen.contains(path) && !(files[path].state is Skipped) {
        let i = choose|i: int| holds_at(entries, path, i);
        lemma_position(entries, i);
        law_missing_file_loses_its_document(entries, seen, i);
        let k = choose|k: int|
            0 <= k < delete_events(entries, seen).len() && takes_out(
                #[trigger] delete_events(entries, seen)[k],
                path,
            );
        assert(events.deep_view()[k] == events@[k]@);
    }
    assert forall|k: int| 0 <= k < events@.len() implies of_missing_entry(
        old(context),
        (#[trigger] events@[k])@,
    ) by {
        assert(events.deep_view()[k] == events@[k]@);
        assert(of_missing_file(entries, seen, delete_events(entries, seen)[k]));
        let i = choose|i: int|
            0 <= i < entries.len() && !seen.contains((#[trigger] entries[i]).0) && !(
            entries[i].1.state is Skipped) && takes_out(events@[k]@, entries[i].0);
        lemma_position(entries, i);
        assert(files.contains_key(entries[i].0));
    }
}

/// The change takes out the document of a known file that is not found, and was not skipped.
pub open spec fn of_missing_entry(context: &ScanContext, event: EventView) -> bool {
    exists|path: Seq<char>| #[trigger]
        context.previous()@.files.contains_key(path) && !context.seen().contains(path) && !(
        context.previous()@.files[path].state is Skipped) && takes_out(event, path)
}

/// The figures that a scan gives are those it has counted.
pub proof fn law_figures_are_those_counted<'a>(context: ScanContext<'a>, stats: SyncStats)
    requires
        call_ensures(ScanContext::figures, (&context,), stats) || call_ensures(
            ScanContext::finish,
            (context,),
            stats,
        ),
    ensures
        stats == context.stats(),
{
}

/// What a file that is not text is embedded by, told by its extension; all other bytes are handed
/// back.
pub proof fn law_files_that_are_not_text_are_told_by_their_extension(
    path: &EntryPath,
    bytes: Vec<u8>,
    input: Result<EmbeddingJobInput, Vec<u8>>,
    extension: &str,
    image: bool,
    text: String,
)
    requires
        call_ensures(supported_binary_embedding_input, (path, bytes), input),
        call_ensures(has_image_extension, (extension,), image),
        call_ensures(metadata_embedding_text, (path,), text),
    ensures
        named_as_pdf(path@) ==> (input matches Ok(EmbeddingJobInput::Text(own)) && own@ == text@),
        named_as_image(path@) ==> (input matches Ok(EmbeddingJobInput::Image(own)) && own@
            == bytes@),
        !named_as_pdf(path@) && !named_as_image(path@) ==> input == Err::<
            EmbeddingJobInput,
            Vec<u8>,
        >(bytes),
        path@.extension == Some(extension@) ==> (image <==> named_as_image(path@)),
        is_name_text(text@, path@),
{
    law_supported_extensions(path@, bytes@);
    law_name_text_holds_path_name_and_extension(path@);
    if let Ok(own) = input {
        match own {
            EmbeddingJobInput::Text(_) => {},
            EmbeddingJobInput::Image(_) => {},
            EmbeddingJobInput::DocumentContents => {},
        }
    }
}

/// A file that waits for its embedding is recorded with the same reason, if any.
pub proof fn law_waiting_file_is_recorded_with_its_reason(
    state: FileState,
    waiting: FileState,
    reason: SkipReason,
)
    requires
        call_ensures(pending_embedding_state, (&state,), waiting),
    ensures
        state is Indexed ==> waiting is IndexedPendingEmbedding,
        state == (FileState::IndexedMetadata { reason }) ==> waiting == (
        FileState::IndexedMetadataPendingEmbedding { reason }),
        !(state is Indexed) && !(state is IndexedMetadata) ==> waiting == state,
{
}

/// The file of ignore rules holds every rule, each on a line of its own; there is none without rules.
pub proof fn law_every_ignore_rule_has_its_line(
    rules: Vec<String>,
    text: Option<String>,
    i: int,
)
    requires
        call_ensures(ignore_file_text, (&rules,), text),
        0 <= i < rules@.len(),
    ensures
        text is Some,
        ({
            let start = lines_text(rules.deep_view().take(i)).len() as int;
            let end = start + rules@[i]@.len();
            &&& end < text->Some_0@.len()
            &&& text->Some_0@.subrange(start, end) == rules@[i]@
            &&& text->Some_0@[end] == '\n'
        }),
{
    law_each_line_stands_in_its_place(rules.deep_view(), i);
}

/// A scan goes on, and hands messages on, as long as the run is not canceled; a message that is not
/// taken ends it. Only what is known to be a file is scanned.
pub proof fn law_scan_goes_on_until_it_is_canceled(
    canceled: bool,
    scanning: Result<(), SearchxError>,
    indexing: Result<(), SearchxError>,
    taken: bool,
    delivered: Result<(), SearchxError>,
    is_file: Option<bool>,
    scanned: bool,
)
    requires
        call_ensures(ensure_not_canceled, (canceled,), scanning),
        call_ensures(ensure_indexing_not_canceled, (canceled,), indexing),
        call_ensures(delivery_result, (taken,), delivered),
        call_ensures(is_scanned, (is_file,), scanned),
    ensures
        scanning is Err <==> canceled,
        indexing is Err <==> canceled,
        canceled ==> scanning->Err_0 is ScanCanceled && indexing->Err_0 is IndexingCanceled,
        delivered is Ok <==> taken,
        !taken ==> delivered->Err_0 is IndexingPipelineDisconnected,
        scanned <==> is_file is Some && is_file->Some_0,
{
}

} // verus!
