//! Whole runs: what a scan makes of all files together, what the manifest holds after it, and what
//! a second run does.

use crate::api::{no_stats, SyncStats};
use crate::batch::index_after_all;
use crate::embedding::embedded_event;
use crate::load::{expected_load, StoreFacts};
use crate::manifest::{FileFingerprint, FileState, ManifestEntry, SkipReason};
use crate::paths::EntryPathView;
use crate::scan::{
    bytes_outcome, bytes_output, counted, delete_events, metadata_outcome, metadata_output,
    progress_message, unchanged, EventView, FileOutcome, JobView, MessageView, OutputView,
    ProgressView, ScanContext,
};
use crate::scan_laws::known_as_it_is;
use crate::store::{
    law_finished_run_reads_back, reads, storable_up_to, update_action, updated, Tables,
};
use crate::stream::{event_progress, progress_of};
use crate::sync::{law_commit_comes_last, run_steps, StepView};
use crate::text_map::{ascending, entries_map, lemma_position};
use vstd::prelude::*;

verus! {

/// A file that a walk finds, and what reading it gives.
pub struct ScannedFile {
    pub path: EntryPathView,
    pub metadata: Result<FileFingerprint, Seq<char>>,
    pub bytes: Result<Seq<u8>, Seq<char>>,
}

/// What a scan starts from.
pub struct ScanSetup {
    /// The manifest before the scan.
    pub previous: Map<Seq<char>, ManifestEntry>,
    pub max_file_bytes: u64,
    /// Whether documents are embedded before they are indexed.
    pub embed: bool,
}

/// The paths of files.
pub open spec fn found_paths(files: Seq<ScannedFile>) -> Set<Seq<char>> {
    files.map_values(|file: ScannedFile| file.path.relative).to_set()
}

/// No two files have one path.
pub open spec fn distinct_paths(files: Seq<ScannedFile>) -> bool {
    forall|i: int, j: int|
        0 <= i < j < files.len() ==> (#[trigger] files[i]).path.relative != (
        #[trigger] files[j]).path.relative
}

impl ScanSetup {
    /// What was known of a file before the scan.
    pub open spec fn known(self, file: ScannedFile) -> Option<ManifestEntry> {
        if self.previous.contains_key(file.path.relative) {
            Some(self.previous[file.path.relative])
        } else {
            None
        }
    }

    /// What becomes of a file.
    pub open spec fn outcome(self, file: ScannedFile) -> FileOutcome {
        match metadata_outcome(self.known(file), self.max_file_bytes, file.metadata) {
            Some(outcome) => outcome,
            None => bytes_outcome(file.path, file.bytes),
        }
    }

    /// What is reported and handed on for a file.
    pub open spec fn output(self, file: ScannedFile) -> OutputView {
        if metadata_outcome(self.known(file), self.max_file_bytes, file.metadata) is Some {
            metadata_output(self.known(file), file.path, file.metadata, self.embed)
        } else {
            bytes_output(
                self.known(file),
                file.path,
                file.metadata->Ok_0,
                file.bytes,
                self.embed,
            )
        }
    }

    /// What is handed on for files, one after the other.
    pub open spec fn file_messages(self, files: Seq<ScannedFile>) -> Seq<MessageView>
        decreases files.len(),
    {
        if files.len() == 0 {
            Seq::empty()
        } else {
            self.file_messages(files.drop_last()) + self.output(files.last()).messages
        }
    }

    /// The figures after files, one after the other.
    pub open spec fn file_stats(self, files: Seq<ScannedFile>) -> SyncStats
        decreases files.len(),
    {
        if files.len() == 0 {
            no_stats()
        } else {
            let before = self.file_stats(files.drop_last());
            counted(
                SyncStats { scanned_files: (before.scanned_files + 1) as u64, ..before },
                self.outcome(files.last()),
            )
        }
    }

    /// What a scan hands on: what it does for the files, and then the documents of those that are
    /// gone. `entries` are those of the manifest before the scan, in their order.
    pub open spec fn messages(
        self,
        entries: Seq<(Seq<char>, ManifestEntry)>,
        files: Seq<ScannedFile>,
    ) -> Seq<MessageView> {
        self.file_messages(files) + delete_events(entries, found_paths(files)).map_values(
            |event: EventView| MessageView::Event(event),
        )
    }

    /// The figures of a scan.
    pub open spec fn stats(
        self,
        entries: Seq<(Seq<char>, ManifestEntry)>,
        files: Seq<ScannedFile>,
    ) -> SyncStats {
        SyncStats {
            deleted_missing: delete_events(entries, found_paths(files)).len() as u64,
            ..self.file_stats(files)
        }
    }

    /// The entry that is last recorded of a file that could be read.
    pub open spec fn final_entry(self, file: ScannedFile) -> ManifestEntry {
        let now = ManifestEntry {
            size: file.metadata->Ok_0.size,
            modified_secs: file.metadata->Ok_0.modified_secs,
            modified_nanos: file.metadata->Ok_0.modified_nanos,
            state: FileState::Indexed,
        };
        match self.outcome(file) {
            FileOutcome::TooLarge => ManifestEntry {
                state: FileState::IndexedMetadata { reason: SkipReason::TooLarge },
                ..now
            },
            FileOutcome::Binary => ManifestEntry {
                state: FileState::IndexedMetadata { reason: SkipReason::Binary },
                ..now
            },
            FileOutcome::Indexed => now,
            _ => self.known(file)->Some_0,
        }
    }

    /// The file is as the manifest has it, and waits for nothing.
    pub open spec fn unmodified(self, file: ScannedFile) -> bool {
        file.metadata is Ok && known_as_it_is(self.known(file), file.metadata->Ok_0)
    }

    /// Nothing has happened to the files since the manifest was made: each is as it was, and none
    /// is gone.
    pub open spec fn all_unmodified(self, files: Seq<ScannedFile>) -> bool {
        &&& forall|i: int| 0 <= i < files.len() ==> self.unmodified(#[trigger] files[i])
        &&& forall|path: Seq<char>| #[trigger]
            self.previous.contains_key(path) ==> found_paths(files).contains(path)
    }
}

/// What a scan under way started from.
pub open spec fn setup_of(context: &ScanContext) -> ScanSetup {
    ScanSetup {
        previous: context.previous()@.files,
        max_file_bytes: context.options().max_file_bytes,
        embed: context.embeds(),
    }
}

/// A scan goes file by file: one more file adds its path, its messages and its outcome to those of
/// the files before it.
pub proof fn law_scan_goes_file_by_file(
    context: &ScanContext,
    files: Seq<ScannedFile>,
    file: ScannedFile,
)
    ensures
        setup_of(context).known(file) == context.previous_entry(file.path),
        found_paths(files.push(file)) == found_paths(files).insert(file.path.relative),
        setup_of(context).file_messages(files.push(file)) == setup_of(context).file_messages(files)
            + setup_of(context).output(file).messages,
        setup_of(context).file_stats(files.push(file)) == ({
            let before = setup_of(context).file_stats(files);
            counted(
                SyncStats { scanned_files: (before.scanned_files + 1) as u64, ..before },
                setup_of(context).outcome(file),
            )
        }),
{
    assert(files.push(file).drop_last() =~= files);
    let paths = files.map_values(|file: ScannedFile| file.path.relative);
    let more = files.push(file).map_values(|file: ScannedFile| file.path.relative);
    assert(more =~= paths.push(file.path.relative));
    assert forall|path: Seq<char>| more.to_set().contains(path) == paths.to_set().insert(
        file.path.relative,
    ).contains(path) by {
        if paths.contains(path) {
            let i = paths.index_of(path);
            assert(more[i] == path);
        }
        if path == file.path.relative {
            assert(more[paths.len() as int] == path);
        }
    }
    assert(more.to_set() =~= paths.to_set().insert(file.path.relative));
}

/// A scan over files to which nothing has happened indexes none and takes no document out: each
/// file is counted as unchanged, its entry is recorded again, and nothing else is handed on.
pub proof fn law_scan_of_unmodified_files_changes_nothing(
    setup: ScanSetup,
    entries: Seq<(Seq<char>, ManifestEntry)>,
    files: Seq<ScannedFile>,
)
    requires
        ascending(entries),
        entries_map(entries) == setup.previous,
        setup.all_unmodified(files),
        files.len() <= u64::MAX,
    ensures
        forall|i: int|
            0 <= i < files.len() ==> (setup.outcome(#[trigger] files[i]) is UnchangedIndexed
                || setup.outcome(files[i]) is UnchangedSkipped),
        delete_events(entries, found_paths(files)).len() == 0,
        setup.messages(entries, files) == Seq::new(
            files.len(),
            |i: int|
                progress_message(files[i].path, setup.previous[files[i].path.relative]),
        ),
        ({
            let stats = setup.stats(entries, files);
            &&& stats == (SyncStats {
                scanned_files: files.len() as u64,
                unchanged_indexed: stats.unchanged_indexed,
                unchanged_skipped: stats.unchanged_skipped,
                ..no_stats()
            })
            &&& stats.unchanged_indexed + stats.unchanged_skipped == files.len()
        }),
{
    let found = found_paths(files);
    assert forall|i: int| 0 <= i < entries.len() implies found.contains((#[trigger] entries[i]).0) by {
        lemma_position(entries, i);
        assert(setup.previous.contains_key(entries[i].0));
    }
    lemma_nothing_gone(entries, found);
    lemma_unmodified_files(setup, files, files.len() as int);
    assert(files.take(files.len() as int) =~= files);
    assert(setup.messages(entries, files) =~= setup.file_messages(files));
}

proof fn lemma_nothing_gone(entries: Seq<(Seq<char>, ManifestEntry)>, seen: Set<Seq<char>>)
    requires
        forall|i: int| 0 <= i < entries.len() ==> seen.contains((#[trigger] entries[i]).0),
    ensures
        delete_events(entries, seen).len() == 0,
    decreases entries.len(),
{
    if entries.len() > 0 {
        assert(seen.contains(entries[entries.len() - 1].0));
        assert forall|i: int| 0 <= i < entries.drop_last().len() implies seen.contains(
            (#[trigger] entries.drop_last()[i]).0,
        ) by {
            assert(entries.drop_last()[i] == entries[i]);
        }
        lemma_nothing_gone(entries.drop_last(), seen);
    }
}

proof fn lemma_unmodified_files(setup: ScanSetup, files: Seq<ScannedFile>, n: int)
    requires
        forall|i: int| 0 <= i < files.len() ==> setup.unmodified(#[trigger] files[i]),
        0 <= n <= files.len() <= u64::MAX,
    ensures
        setup.file_messages(files.take(n)) == Seq::new(
            n as nat,
            |i: int|
                progress_message(files[i].path, setup.previous[files[i].path.relative]),
        ),
        ({
            let stats = setup.file_stats(files.take(n));
            &&& stats == (SyncStats {
                scanned_files: n as u64,
                unchanged_indexed: stats.unchanged_indexed,
                unchanged_skipped: stats.unchanged_skipped,
                ..no_stats()
            })
            &&& stats.unchanged_indexed + stats.unchanged_skipped == n
        }),
    decreases n,
{
    let expected = Seq::new(
        n as nat,
        |i: int| progress_message(files[i].path, setup.previous[files[i].path.relative]),
    );
    if n == 0 {
        assert(files.take(0) =~= Seq::empty());
        assert(setup.file_messages(files.take(0)) =~= expected);
    } else {
        lemma_unmodified_files(setup, files, n - 1);
        assert(files.take(n).drop_last() =~= files.take(n - 1));
        assert(files.take(n).last() == files[n - 1]);
        assert(setup.unmodified(files[n - 1]));
        assert(setup.file_messages(files.take(n)) =~= expected);
    }
}

/// Who delivers a change next: the scan its next message, or the embedding thread the next document
/// that waits, with its vector where it has one.
pub enum Delivery {
    Scan,
    Embedding(Option<Seq<char>>),
}

/// The threads of a run, on their way.
pub struct Pipeline {
    /// How many messages of the scan have been handed on.
    pub sent: int,
    /// The jobs that have come to the embedding thread.
    pub queued: Seq<JobView>,
    /// How many of them it has handed on.
    pub taken: int,
    /// The changes that have come to the index.
    pub events: Seq<EventView>,
}

impl Pipeline {
    /// After one more delivery; one that cannot be made yet changes nothing.
    pub open spec fn after(self, messages: Seq<MessageView>, delivery: Delivery) -> Pipeline {
        match delivery {
            Delivery::Scan => if self.sent < messages.len() {
                match messages[self.sent] {
                    MessageView::Event(event) => Pipeline {
                        sent: self.sent + 1,
                        events: self.events.push(event),
                        ..self
                    },
                    MessageView::Embed(job) => Pipeline {
                        sent: self.sent + 1,
                        queued: self.queued.push(job),
                        ..self
                    },
                }
            } else {
                self
            },
            Delivery::Embedding(vector) => if self.taken < self.queued.len() {
                Pipeline {
                    taken: self.taken + 1,
                    events: self.events.push(embedded_event(self.queued[self.taken], vector)),
                    ..self
                }
            } else {
                self
            },
        }
    }

    /// Everything has been handed on.
    pub open spec fn over(self, messages: Seq<MessageView>) -> bool {
        self.sent == messages.len() && self.taken == self.queued.len()
    }

    /// What the manifest holds of the entries recorded so far.
    pub open spec fn recorded(self) -> Map<Seq<char>, ManifestEntry> {
        updated(Map::empty(), progress_of(self.events))
    }
}

/// The threads of a run after deliveries, in whatever order these come.
pub open spec fn delivered(messages: Seq<MessageView>, deliveries: Seq<Delivery>) -> Pipeline
    decreases deliveries.len(),
{
    if deliveries.len() == 0 {
        Pipeline { sent: 0, queued: Seq::empty(), taken: 0, events: Seq::empty() }
    } else {
        delivered(messages, deliveries.drop_last()).after(messages, deliveries.last())
    }
}

/// The entry that a message records itself.
pub open spec fn message_progress(message: MessageView) -> Option<ProgressView> {
    match message {
        MessageView::Event(event) => event_progress(event),
        MessageView::Embed(_) => None,
    }
}

/// The path of which a message has something recorded, now or once its document is embedded.
pub open spec fn message_path(message: MessageView) -> Option<Seq<char>> {
    match message {
        MessageView::Event(event) => match event_progress(event) {
            Some(update) => Some(update.path),
            None => None,
        },
        MessageView::Embed(job) => Some(job.progress.path),
    }
}

/// Of each path a scan records one entry itself and has one recorded by the embedding thread, at
/// most, and in this order.
pub open spec fn orderly(messages: Seq<MessageView>) -> bool {
    forall|a: int, b: int|
        #![trigger messages[a], messages[b]]
        0 <= a < b < messages.len() && message_path(messages[a]) is Some && message_path(
            messages[a],
        ) == message_path(messages[b]) ==> messages[a] is Event && messages[b] is Embed
}

/// The last entry that messages have recorded of a path: that of its document once it is embedded,
/// and otherwise the one that the scan records itself.
pub open spec fn settles(messages: Seq<MessageView>, update: ProgressView) -> bool {
    ||| exists|b: int|
        0 <= b < messages.len() && (#[trigger] messages[b]) is Embed
            && messages[b]->Embed_0.progress == update
    ||| {
        &&& exists|a: int|
            0 <= a < messages.len() && message_progress(#[trigger] messages[a]) == Some(update)
        &&& forall|b: int|
            0 <= b < messages.len() && (#[trigger] messages[b]) is Embed
                ==> messages[b]->Embed_0.progress.path != update.path
    }
}

/// The job is among the first `n` messages.
pub open spec fn came(messages: Seq<MessageView>, n: int, job: JobView) -> bool {
    exists|b: int| 0 <= b < n && #[trigger] messages[b] == MessageView::Embed(job)
}

/// One of the first `n` messages has something recorded of the path.
spec fn named(messages: Seq<MessageView>, n: int, path: Seq<char>) -> bool {
    exists|a: int| 0 <= a < n && message_path(#[trigger] messages[a]) == Some(path)
}

/// One of the first `n` jobs has something recorded of the path.
spec fn embedded(jobs: Seq<JobView>, n: int, path: Seq<char>) -> bool {
    exists|k: int| 0 <= k < n && (#[trigger] jobs[k]).progress.path == path
}

/// The entry is recorded, or has been followed by that of an embedded document.
spec fn holds_or_embedded(pipe: Pipeline, update: ProgressView) -> bool {
    &&& pipe.recorded().contains_key(update.path)
    &&& pipe.recorded()[update.path] == update.entry || embedded(
        pipe.queued,
        pipe.taken,
        update.path,
    )
}

/// What holds of the threads of a run at every moment.
spec fn on_course(messages: Seq<MessageView>, pipe: Pipeline) -> bool {
    let recorded = pipe.recorded();
    &&& 0 <= pipe.sent <= messages.len()
    &&& 0 <= pipe.taken <= pipe.queued.len()
    &&& forall|k: int|
        0 <= k < pipe.queued.len() ==> came(messages, pipe.sent, #[trigger] pipe.queued[k])
    &&& forall|b: int|
        0 <= b < pipe.sent && (#[trigger] messages[b]) is Embed ==> pipe.queued.contains(
            messages[b]->Embed_0,
        )
    &&& forall|k: int, l: int|
        0 <= k < l < pipe.queued.len() ==> (#[trigger] pipe.queued[k]).progress.path != (
        #[trigger] pipe.queued[l]).progress.path
    &&& forall|k: int|
        0 <= k < pipe.taken ==> recorded.contains_key((#[trigger] pipe.queued[k]).progress.path)
            && recorded[pipe.queued[k].progress.path] == pipe.queued[k].progress.entry
    &&& forall|a: int|
        0 <= a < pipe.sent && message_progress(#[trigger] messages[a]) is Some
            ==> holds_or_embedded(pipe, message_progress(messages[a])->Some_0)
    &&& forall|path: Seq<char>| #[trigger]
        recorded.contains_key(path) ==> named(messages, pipe.sent, path)
}

proof fn lemma_recorded_push(events: Seq<EventView>, event: EventView)
    ensures
        updated(Map::empty(), progress_of(events.push(event))) == (match event_progress(event) {
            Some(update) => updated(Map::empty(), progress_of(events)).insert(
                update.path,
                update.entry,
            ),
            None => updated(Map::empty(), progress_of(events)),
        }),
{
    assert(events.push(event).drop_last() =~= events);
    if let Some(update) = event_progress(event) {
        assert(progress_of(events).push(update).drop_last() =~= progress_of(events));
    }
}

proof fn lemma_named_on(messages: Seq<MessageView>, n: int, path: Seq<char>)
    requires
        named(messages, n, path),
    ensures
        named(messages, n + 1, path),
{
    let a = choose|a: int| 0 <= a < n && message_path(#[trigger] messages[a]) == Some(path);
    assert(0 <= a < n + 1 && message_path(messages[a]) == Some(path));
}

proof fn lemma_came_on(messages: Seq<MessageView>, n: int, job: JobView)
    requires
        came(messages, n, job),
    ensures
        came(messages, n + 1, job),
        named(messages, n, job.progress.path),
{
    let b = choose|b: int| 0 <= b < n && #[trigger] messages[b] == MessageView::Embed(job);
    assert(0 <= b < n + 1 && messages[b] == MessageView::Embed(job));
    assert(message_path(messages[b]) == Some(job.progress.path));
}

/// A path of which an event speaks has not been spoken of before.
proof fn lemma_event_is_first(messages: Seq<MessageView>, n: int, path: Seq<char>)
    requires
        orderly(messages),
        0 <= n < messages.len(),
        messages[n] is Event,
        message_path(messages[n]) == Some(path),
    ensures
        !named(messages, n, path),
{
    if named(messages, n, path) {
        let a = choose|a: int| 0 <= a < n && message_path(#[trigger] messages[a]) == Some(path);
        assert(message_path(messages[a]) == message_path(messages[n]));
    }
}

proof fn lemma_scan_event_on_course(messages: Seq<MessageView>, pipe: Pipeline)
    requires
        orderly(messages),
        on_course(messages, pipe),
        pipe.sent < messages.len(),
        messages[pipe.sent] is Event,
    ensures
        on_course(messages, pipe.after(messages, Delivery::Scan)),
{
    let event = messages[pipe.sent]->Event_0;
    let next = pipe.after(messages, Delivery::Scan);
    let before = pipe.recorded();
    let recorded = next.recorded();
    lemma_recorded_push(pipe.events, event);
    if let Some(update) = event_progress(event) {
        lemma_event_is_first(messages, pipe.sent, update.path);
    }
    assert forall|k: int| 0 <= k < next.queued.len() implies came(
        messages,
        next.sent,
        #[trigger] next.queued[k],
    ) by {
        lemma_came_on(messages, pipe.sent, pipe.queued[k]);
    }
    assert forall|k: int| 0 <= k < next.taken implies recorded.contains_key(
        (#[trigger] next.queued[k]).progress.path,
    ) && recorded[next.queued[k].progress.path] == next.queued[k].progress.entry by {
        lemma_came_on(messages, pipe.sent, pipe.queued[k]);
    }
    assert forall|a: int|
        0 <= a < next.sent && message_progress(#[trigger] messages[a]) is Some implies
        holds_or_embedded(next, message_progress(messages[a])->Some_0) by {
        let update = message_progress(messages[a])->Some_0;
        if a < pipe.sent {
            assert(holds_or_embedded(pipe, update));
            assert(message_path(messages[a]) == Some(update.path));
            assert(named(messages, pipe.sent, update.path));
        }
    }
    assert forall|path: Seq<char>| #[trigger] recorded.contains_key(path) implies named(
        messages,
        next.sent,
        path,
    ) by {
        if before.contains_key(path) {
            lemma_named_on(messages, pipe.sent, path);
        } else {
            assert(message_path(messages[pipe.sent]) == Some(path));
        }
    }
}

proof fn lemma_scan_job_on_course(messages: Seq<MessageView>, pipe: Pipeline)
    requires
        orderly(messages),
        on_course(messages, pipe),
        pipe.sent < messages.len(),
        messages[pipe.sent] is Embed,
    ensures
        on_course(messages, pipe.after(messages, Delivery::Scan)),
{
    let job = messages[pipe.sent]->Embed_0;
    let next = pipe.after(messages, Delivery::Scan);
    let n = pipe.queued.len() as int;
    let recorded = pipe.recorded();
    assert(next.queued[n] == job);
    assert forall|k: int| 0 <= k < n implies (#[trigger] next.queued[k]) == pipe.queued[k] by {}
    assert forall|k: int| 0 <= k < next.queued.len() implies came(
        messages,
        next.sent,
        #[trigger] next.queued[k],
    ) by {
        if k < n {
            lemma_came_on(messages, pipe.sent, pipe.queued[k]);
        } else {
            assert(messages[pipe.sent] == MessageView::Embed(job));
        }
    }
    assert forall|b: int|
        0 <= b < next.sent && (#[trigger] messages[b]) is Embed implies next.queued.contains(
        messages[b]->Embed_0,
    ) by {
        if b < pipe.sent {
            let k = pipe.queued.index_of(messages[b]->Embed_0);
            assert(next.queued[k] == messages[b]->Embed_0);
        }
    }
    assert forall|k: int, l: int| 0 <= k < l < next.queued.len() implies (
    #[trigger] next.queued[k]).progress.path != (#[trigger] next.queued[l]).progress.path by {
        assert(next.queued[k] == pipe.queued[k]);
        if l < n {
            assert(next.queued[l] == pipe.queued[l]);
        } else {
            assert(came(messages, pipe.sent, pipe.queued[k]));
            let b = choose|b: int|
                0 <= b < pipe.sent && #[trigger] messages[b] == MessageView::Embed(pipe.queued[k]);
            assert(message_path(messages[b]) != message_path(messages[pipe.sent]));
        }
    }
    assert forall|a: int|
        0 <= a < next.sent && message_progress(#[trigger] messages[a]) is Some implies
        holds_or_embedded(next, message_progress(messages[a])->Some_0) by {
        let update = message_progress(messages[a])->Some_0;
        assert(holds_or_embedded(pipe, update));
        if recorded[update.path] != update.entry {
            let k = choose|k: int|
                0 <= k < pipe.taken && (#[trigger] pipe.queued[k]).progress.path == update.path;
            assert(next.queued[k].progress.path == update.path);
        }
    }
    assert forall|path: Seq<char>| #[trigger] recorded.contains_key(path) implies named(
        messages,
        next.sent,
        path,
    ) by {
        lemma_named_on(messages, pipe.sent, path);
    }
}

proof fn lemma_embedding_on_course(
    messages: Seq<MessageView>,
    pipe: Pipeline,
    vector: Option<Seq<char>>,
)
    requires
        on_course(messages, pipe),
        pipe.taken < pipe.queued.len(),
    ensures
        on_course(messages, pipe.after(messages, Delivery::Embedding(vector))),
{
    let next = pipe.after(messages, Delivery::Embedding(vector));
    let job = pipe.queued[pipe.taken];
    let before = pipe.recorded();
    let recorded = next.recorded();
    lemma_recorded_push(pipe.events, embedded_event(job, vector));
    assert(recorded == before.insert(job.progress.path, job.progress.entry));
    assert forall|a: int|
        0 <= a < next.sent && message_progress(#[trigger] messages[a]) is Some implies
        holds_or_embedded(next, message_progress(messages[a])->Some_0) by {
        let update = message_progress(messages[a])->Some_0;
        assert(holds_or_embedded(pipe, update));
        if update.path == job.progress.path {
            assert(next.queued[pipe.taken].progress.path == update.path);
        } else if before[update.path] != update.entry {
            let k = choose|k: int|
                0 <= k < pipe.taken && (#[trigger] pipe.queued[k]).progress.path == update.path;
            assert(next.queued[k].progress.path == update.path);
        }
    }
    assert forall|path: Seq<char>| #[trigger] recorded.contains_key(path) implies named(
        messages,
        next.sent,
        path,
    ) by {
        if !before.contains_key(path) {
            assert(came(messages, pipe.sent, job));
            lemma_came_on(messages, pipe.sent, job);
        }
    }
}

proof fn lemma_on_course(messages: Seq<MessageView>, deliveries: Seq<Delivery>)
    requires
        orderly(messages),
    ensures
        on_course(messages, delivered(messages, deliveries)),
    decreases deliveries.len(),
{
    if deliveries.len() > 0 {
        lemma_on_course(messages, deliveries.drop_last());
        let pipe = delivered(messages, deliveries.drop_last());
        match deliveries.last() {
            Delivery::Scan => if pipe.sent < messages.len() {
                if messages[pipe.sent] is Event {
                    lemma_scan_event_on_course(messages, pipe);
                } else {
                    lemma_scan_job_on_course(messages, pipe);
                }
            },
            Delivery::Embedding(vector) => if pipe.taken < pipe.queued.len() {
                lemma_embedding_on_course(messages, pipe, vector);
            },
        }
    }
}

/// However the scan and the embedding thread take turns: once everything has been handed on, the
/// entry recorded of a path is the one that the scan wants recorded last, and no other path has
/// one.
pub proof fn law_last_entry_is_recorded(
    messages: Seq<MessageView>,
    deliveries: Seq<Delivery>,
    update: ProgressView,
)
    requires
        orderly(messages),
        delivered(messages, deliveries).over(messages),
    ensures
        settles(messages, update) ==> delivered(messages, deliveries).recorded().contains_key(
            update.path,
        ) && delivered(messages, deliveries).recorded()[update.path] == update.entry,
        delivered(messages, deliveries).recorded().contains_key(update.path) ==> exists|a: int|
            0 <= a < messages.len() && message_path(#[trigger] messages[a]) == Some(update.path),
{
    let pipe = delivered(messages, deliveries);
    lemma_on_course(messages, deliveries);
    if pipe.recorded().contains_key(update.path) {
        assert(named(messages, pipe.sent, update.path));
    }
    if settles(messages, update) {
        if exists|b: int|
            0 <= b < messages.len() && (#[trigger] messages[b]) is Embed
                && messages[b]->Embed_0.progress == update {
            let b = choose|b: int|
                0 <= b < messages.len() && (#[trigger] messages[b]) is Embed
                    && messages[b]->Embed_0.progress == update;
            let k = pipe.queued.index_of(messages[b]->Embed_0);
            assert(pipe.queued[k].progress == update);
        } else {
            let a = choose|a: int|
                0 <= a < messages.len() && message_progress(#[trigger] messages[a]) == Some(update);
            assert(message_progress(messages[a]) == Some(update));
            assert(holds_or_embedded(pipe, update));
            if pipe.recorded()[update.path] != update.entry {
                let k = choose|k: int|
                    0 <= k < pipe.taken && (#[trigger] pipe.queued[k]).progress.path
                        == update.path;
                assert(came(messages, pipe.sent, pipe.queued[k]));
                let b = choose|b: int|
                    0 <= b < pipe.sent && #[trigger] messages[b] == MessageView::Embed(
                        pipe.queued[k],
                    );
                assert(messages[b] is Embed);
            }
        }
    }
}

/// What is handed on for one file that could be read: its last entry, or an earlier one and then a
/// job with the last.
spec fn is_block(block: Seq<MessageView>, update: ProgressView) -> bool {
    ||| block.len() == 1 && block[0] is Event && message_progress(block[0]) == Some(update)
    ||| {
        &&& block.len() == 2
        &&& block[0] is Event
        &&& message_path(block[0]) == Some(update.path)
        &&& block[1] is Embed
        &&& block[1]->Embed_0.progress == update
    }
}

proof fn lemma_file_block(setup: ScanSetup, file: ScannedFile)
    requires
        !(setup.outcome(file) is Unreadable),
    ensures
        is_block(
            setup.output(file).messages,
            ProgressView { path: file.path.relative, entry: setup.final_entry(file) },
        ),
        file.metadata is Ok,
        unchanged(Some(setup.final_entry(file)), file.metadata->Ok_0),
{
}

proof fn lemma_append_block(
    messages: Seq<MessageView>,
    block: Seq<MessageView>,
    update: ProgressView,
)
    requires
        orderly(messages),
        is_block(block, update),
        forall|a: int|
            0 <= a < messages.len() ==> message_path(#[trigger] messages[a]) != Some(update.path),
    ensures
        orderly(messages + block),
        settles(messages + block, update),
        forall|other: ProgressView| #[trigger]
            settles(messages, other) && other.path != update.path ==> settles(
                messages + block,
                other,
            ),
{
    let n = messages.len() as int;
    let all = messages + block;
    assert forall|a: int, b: int|
        #![trigger all[a], all[b]]
        0 <= a < b < all.len() && message_path(all[a]) is Some && message_path(all[a])
            == message_path(all[b]) implies all[a] is Event && all[b] is Embed by {
        if b < n {
            assert(all[a] == messages[a] && all[b] == messages[b]);
        } else if a < n {
            assert(all[a] == messages[a]);
            assert(all[b] == block[b - n]);
        } else {
            assert(all[a] == block[a - n]);
            assert(all[b] == block[b - n]);
        }
    }
    if block.len() == 1 {
        assert(all[n] == block[0]);
        assert(message_progress(all[n]) == Some(update));
        assert forall|b: int| 0 <= b < all.len() && (#[trigger] all[b]) is Embed implies
            all[b]->Embed_0.progress.path != update.path by {
            if b < n {
                assert(all[b] == messages[b]);
                assert(message_path(messages[b]) != Some(update.path));
            }
        }
    } else {
        assert(all[n + 1] == block[1]);
    }
    assert forall|other: ProgressView| #[trigger]
        settles(messages, other) && other.path != update.path implies settles(all, other) by {
        lemma_settles_on(messages, block, other);
    }
}

proof fn lemma_settles_on(
    messages: Seq<MessageView>,
    more: Seq<MessageView>,
    update: ProgressView,
)
    requires
        settles(messages, update),
        forall|b: int|
            0 <= b < more.len() && (#[trigger] more[b]) is Embed
                ==> more[b]->Embed_0.progress.path != update.path,
    ensures
        settles(messages + more, update),
{
    let n = messages.len() as int;
    let all = messages + more;
    if exists|b: int|
        0 <= b < n && (#[trigger] messages[b]) is Embed && messages[b]->Embed_0.progress
            == update {
        let b = choose|b: int|
            0 <= b < n && (#[trigger] messages[b]) is Embed && messages[b]->Embed_0.progress
                == update;
        assert(all[b] == messages[b]);
    } else {
        let a = choose|a: int|
            0 <= a < n && message_progress(#[trigger] messages[a]) == Some(update);
        assert(all[a] == messages[a]);
        assert(message_progress(all[a]) == Some(update));
        assert forall|b: int| 0 <= b < all.len() && (#[trigger] all[b]) is Embed implies
            all[b]->Embed_0.progress.path != update.path by {
            if b < n {
                assert(all[b] == messages[b]);
            } else {
                assert(all[b] == more[b - n]);
            }
        }
    }
}

/// Every file could be read.
pub open spec fn all_read(setup: ScanSetup, files: Seq<ScannedFile>) -> bool {
    forall|i: int| 0 <= i < files.len() ==> !(setup.outcome(#[trigger] files[i]) is Unreadable)
}

/// What is last recorded of a file.
pub open spec fn final_update(setup: ScanSetup, file: ScannedFile) -> ProgressView {
    ProgressView { path: file.path.relative, entry: setup.final_entry(file) }
}

proof fn lemma_files_settle(setup: ScanSetup, files: Seq<ScannedFile>)
    requires
        distinct_paths(files),
        all_read(setup, files),
    ensures
        orderly(setup.file_messages(files)),
        forall|i: int|
            0 <= i < files.len() ==> settles(
                setup.file_messages(files),
                final_update(setup, #[trigger] files[i]),
            ),
        forall|a: int|
            0 <= a < setup.file_messages(files).len() ==> exists|i: int|
                0 <= i < files.len() && message_path(#[trigger] setup.file_messages(files)[a])
                    == Some((#[trigger] files[i]).path.relative),
    decreases files.len(),
{
    let messages = setup.file_messages(files);
    if files.len() > 0 {
        let rest = files.drop_last();
        let last = files.last();
        let n = rest.len() as int;
        assert forall|i: int| 0 <= i < n implies (#[trigger] rest[i]) == files[i] by {}
        assert(!(setup.outcome(files[n]) is Unreadable));
        lemma_files_settle(setup, rest);
        let before = setup.file_messages(rest);
        let block = setup.output(last).messages;
        let update = final_update(setup, last);
        lemma_file_block(setup, last);
        assert forall|a: int| 0 <= a < before.len() implies message_path(#[trigger] before[a])
            != Some(update.path) by {
            let i = choose|i: int|
                0 <= i < rest.len() && message_path(before[a]) == Some(
                    (#[trigger] rest[i]).path.relative,
                );
            assert(files[i].path.relative != files[n].path.relative);
        }
        lemma_append_block(before, block, update);
        assert forall|i: int| 0 <= i < files.len() implies settles(
            messages,
            final_update(setup, #[trigger] files[i]),
        ) by {
            if i < n {
                assert(rest[i] == files[i]);
                assert(settles(before, final_update(setup, rest[i])));
                assert(files[i].path.relative != files[n].path.relative);
            }
        }
        assert forall|a: int| 0 <= a < messages.len() implies exists|i: int|
            0 <= i < files.len() && message_path(#[trigger] messages[a]) == Some(
                (#[trigger] files[i]).path.relative,
            ) by {
            if a < before.len() {
                assert(messages[a] == before[a]);
                let i = choose|i: int|
                    0 <= i < rest.len() && message_path(before[a]) == Some(
                        (#[trigger] rest[i]).path.relative,
                    );
                assert(message_path(messages[a]) == Some(files[i].path.relative));
            } else {
                assert(messages[a] == block[a - before.len()]);
                assert(message_path(messages[a]) == Some(files[n].path.relative));
            }
        }
    }
}

proof fn lemma_deletes_record_nothing(
    entries: Seq<(Seq<char>, ManifestEntry)>,
    seen: Set<Seq<char>>,
)
    ensures
        forall|i: int|
            0 <= i < delete_events(entries, seen).len() ==> event_progress(
                #[trigger] delete_events(entries, seen)[i],
            ) is None,
    decreases entries.len(),
{
    if entries.len() > 0 {
        lemma_deletes_record_nothing(entries.drop_last(), seen);
    }
}

proof fn lemma_run_settles(
    setup: ScanSetup,
    entries: Seq<(Seq<char>, ManifestEntry)>,
    files: Seq<ScannedFile>,
)
    requires
        distinct_paths(files),
        all_read(setup, files),
    ensures
        orderly(setup.messages(entries, files)),
        forall|i: int|
            0 <= i < files.len() ==> settles(
                setup.messages(entries, files),
                final_update(setup, #[trigger] files[i]),
            ),
        forall|a: int|
            0 <= a < setup.messages(entries, files).len() ==> (message_path(
                #[trigger] setup.messages(entries, files)[a],
            ) matches Some(path) ==> found_paths(files).contains(path)),
{
    let first = setup.file_messages(files);
    let deletes = delete_events(entries, found_paths(files));
    let more = deletes.map_values(|event: EventView| MessageView::Event(event));
    let all = setup.messages(entries, files);
    lemma_files_settle(setup, files);
    lemma_deletes_record_nothing(entries, found_paths(files));
    let n = first.len() as int;
    assert forall|a: int| 0 <= a < more.len() implies message_path(#[trigger] more[a]) is None
        && more[a] is Event by {
        assert(event_progress(deletes[a]) is None);
    }
    assert forall|a: int, b: int|
        #![trigger all[a], all[b]]
        0 <= a < b < all.len() && message_path(all[a]) is Some && message_path(all[a])
            == message_path(all[b]) implies all[a] is Event && all[b] is Embed by {
        if b < n {
            assert(all[a] == first[a] && all[b] == first[b]);
        } else {
            assert(all[b] == more[b - n]);
        }
    }
    assert forall|i: int| 0 <= i < files.len() implies settles(
        all,
        final_update(setup, #[trigger] files[i]),
    ) by {
        lemma_settles_on(first, more, final_update(setup, files[i]));
    }
    let paths = files.map_values(|file: ScannedFile| file.path.relative);
    assert forall|a: int| 0 <= a < all.len() && message_path(#[trigger] all[a]) is Some implies
        found_paths(files).contains(message_path(all[a])->Some_0) by {
        if a < n {
            assert(all[a] == first[a]);
            let i = choose|i: int|
                0 <= i < files.len() && message_path(first[a]) == Some(
                    (#[trigger] files[i]).path.relative,
                );
            assert(paths[i] == files[i].path.relative);
        } else {
            assert(all[a] == more[a - n]);
        }
    }
}

/// However its threads take turns, a run that has read every file leaves a manifest of exactly these
/// files, each with an entry by which it is unchanged until it is modified.
pub proof fn law_run_records_every_file(
    setup: ScanSetup,
    entries: Seq<(Seq<char>, ManifestEntry)>,
    files: Seq<ScannedFile>,
    deliveries: Seq<Delivery>,
)
    requires
        distinct_paths(files),
        all_read(setup, files),
        delivered(setup.messages(entries, files), deliveries).over(setup.messages(entries, files)),
    ensures
        ({
            let recorded = delivered(setup.messages(entries, files), deliveries).recorded();
            &&& recorded.dom() == found_paths(files)
            &&& forall|i: int|
                0 <= i < files.len() ==> {
                    let file = #[trigger] files[i];
                    &&& recorded[file.path.relative] == setup.final_entry(file)
                    &&& file.metadata is Ok
                    &&& unchanged(Some(recorded[file.path.relative]), file.metadata->Ok_0)
                }
        }),
{
    let messages = setup.messages(entries, files);
    let recorded = delivered(messages, deliveries).recorded();
    lemma_run_settles(setup, entries, files);
    assert forall|i: int| 0 <= i < files.len() implies ({
        let file = #[trigger] files[i];
        &&& recorded.contains_key(file.path.relative)
        &&& recorded[file.path.relative] == setup.final_entry(file)
        &&& file.metadata is Ok
        &&& unchanged(Some(recorded[file.path.relative]), file.metadata->Ok_0)
    }) by {
        assert(settles(messages, final_update(setup, files[i])));
        law_last_entry_is_recorded(messages, deliveries, final_update(setup, files[i]));
        lemma_file_block(setup, files[i]);
    }
    let paths = files.map_values(|file: ScannedFile| file.path.relative);
    assert forall|path: Seq<char>| recorded.dom().contains(path) == found_paths(files).contains(
        path,
    ) by {
        if recorded.contains_key(path) {
            let any = ProgressView { path, entry: recorded[path] };
            law_last_entry_is_recorded(messages, deliveries, any);
            let a = choose|a: int|
                0 <= a < messages.len() && message_path(#[trigger] messages[a]) == Some(path);
            assert(message_path(messages[a]) == Some(path));
        }
        if found_paths(files).contains(path) {
            let i = choose|i: int| 0 <= i < paths.len() && paths[i] == path;
            assert(recorded.contains_key(files[i].path.relative));
        }
    }
    assert(recorded.dom() =~= found_paths(files));
}

/// A scan without read errors has read every file.
pub proof fn law_no_read_errors_means_all_read(setup: ScanSetup, files: Seq<ScannedFile>)
    requires
        files.len() <= u64::MAX,
        setup.file_stats(files).read_errors == 0,
    ensures
        all_read(setup, files),
    decreases files.len(),
{
    if files.len() > 0 {
        let rest = files.drop_last();
        lemma_read_errors_bound(setup, rest);
        law_no_read_errors_means_all_read(setup, rest);
        assert forall|i: int| 0 <= i < files.len() implies !(setup.outcome(
            #[trigger] files[i],
        ) is Unreadable) by {
            if i < rest.len() {
                assert(rest[i] == files[i]);
            }
        }
    }
}

proof fn lemma_read_errors_bound(setup: ScanSetup, files: Seq<ScannedFile>)
    requires
        files.len() <= u64::MAX,
    ensures
        setup.file_stats(files).read_errors <= files.len(),
    decreases files.len(),
{
    if files.len() > 0 {
        lemma_read_errors_bound(setup, files.drop_last());
    }
}

/// Messages that only record entries leave the index as it is.
proof fn lemma_progress_leaves_index(
    messages: Seq<MessageView>,
    deliveries: Seq<Delivery>,
    index: Map<Seq<char>, Seq<char>>,
)
    requires
        forall|a: int|
            0 <= a < messages.len() ==> ((#[trigger] messages[a]) matches MessageView::Event(event)
                && event is Progress),
    ensures
        delivered(messages, deliveries).queued.len() == 0,
        0 <= delivered(messages, deliveries).sent <= messages.len(),
        delivered(messages, deliveries).taken == 0,
        index_after_all(index, delivered(messages, deliveries).events) == index,
    decreases deliveries.len(),
{
    if deliveries.len() > 0 {
        let before = delivered(messages, deliveries.drop_last());
        lemma_progress_leaves_index(messages, deliveries.drop_last(), index);
        if deliveries.last() is Scan && before.sent < messages.len() {
            assert(messages[before.sent] is Event);
            let event = messages[before.sent]->Event_0;
            assert(before.events.push(event).drop_last() =~= before.events);
        }
    }
}

/// The files of a second walk are those of the first, whatever the order, and none has been
/// modified.
pub open spec fn same_files(first: Seq<ScannedFile>, second: Seq<ScannedFile>) -> bool {
    &&& found_paths(second) == found_paths(first)
    &&& forall|i: int, j: int|
        0 <= i < first.len() && 0 <= j < second.len() && (#[trigger] first[i]).path.relative == (
        #[trigger] second[j]).path.relative ==> second[j].metadata == first[i].metadata
}

/// A run that follows a finished one, with no file modified since, does nothing: nothing is built
/// anew, resumed or repaired, no file is indexed, no document is taken out, every file is counted
/// as unchanged, and the index holds what it held. The first run is one that began with no
/// unfinished one before it and read every file; `facts` are those of the store that it leaves.
pub proof fn law_second_run_changes_nothing(
    tables: Tables,
    root: Seq<char>,
    setup: ScanSetup,
    entries: Seq<(Seq<char>, ManifestEntry)>,
    files: Seq<ScannedFile>,
    deliveries: Seq<Delivery>,
    facts: StoreFacts,
    next_files: Seq<ScannedFile>,
    next_entries: Seq<(Seq<char>, ManifestEntry)>,
    next_deliveries: Seq<Delivery>,
    next: ScanSetup,
    index: Map<Seq<char>, Seq<char>>,
)
    requires
        distinct_paths(files),
        files.len() <= u64::MAX,
        setup.file_stats(files).read_errors == 0,
        delivered(setup.messages(entries, files), deliveries).over(setup.messages(entries, files)),
        ({
            let updates = progress_of(
                delivered(setup.messages(entries, files), deliveries).events,
            );
            &&& storable_up_to(updates, updates.len() as int)
            &&& reads(
                tables.opened(root, false).apply_all(
                    updates.map_values(|update: ProgressView| update_action(update)),
                ).committed(root),
                facts,
            )
        }),
        !facts.marker_exists,
        same_files(files, next_files),
        next_files.len() <= u64::MAX,
        next.previous == expected_load(root, false, facts).manifest.files,
        ascending(next_entries),
        entries_map(next_entries) == next.previous,
    ensures
        expected_load(root, false, facts).rebuild_reason is None,
        !expected_load(root, false, facts).resume_from_incomplete,
        !run_steps(expected_load(root, false, facts), facts.marker_exists).contains(
            StepView::RepairIndex,
        ),
        ({
            let stats = next.stats(next_entries, next_files);
            &&& stats == (SyncStats {
                scanned_files: next_files.len() as u64,
                unchanged_indexed: stats.unchanged_indexed,
                unchanged_skipped: stats.unchanged_skipped,
                ..no_stats()
            })
            &&& stats.unchanged_indexed + stats.unchanged_skipped == stats.scanned_files
        }),
        index_after_all(
            index,
            delivered(next.messages(next_entries, next_files), next_deliveries).events,
        ) == index,
{
    let pipe = delivered(setup.messages(entries, files), deliveries);
    let load = expected_load(root, false, facts);
    law_no_read_errors_means_all_read(setup, files);
    law_run_records_every_file(setup, entries, files, deliveries);
    law_finished_run_reads_back(tables, root, progress_of(pipe.events), facts);
    assert(next.previous == pipe.recorded());
    law_commit_comes_last(load, facts.marker_exists);
    let paths = files.map_values(|file: ScannedFile| file.path.relative);
    let next_paths = next_files.map_values(|file: ScannedFile| file.path.relative);
    assert forall|j: int| 0 <= j < next_files.len() implies next.unmodified(
        #[trigger] next_files[j],
    ) by {
        assert(next_paths[j] == next_files[j].path.relative);
        assert(found_paths(next_files).contains(next_files[j].path.relative));
        let i = choose|i: int| 0 <= i < paths.len() && paths[i] == next_files[j].path.relative;
        assert(files[i].path.relative == next_files[j].path.relative);
        assert(next.previous.dom().contains(files[i].path.relative));
    }
    law_scan_of_unmodified_files_changes_nothing(next, next_entries, next_files);
    lemma_progress_leaves_index(
        next.messages(next_entries, next_files),
        next_deliveries,
        index,
    );
}

} // verus!
