//! The stream of changes from a scan into the index: when a batch is put into the index, when its
//! progress is recorded, and what an error or the end of the scan leads to.

use crate::api::{ScanError, ScanErrorView, SyncProgress, SyncStats};
use crate::batch::{
    empty_batch, index_after, index_after_all, law_batch_applies_like_its_events,
    law_batch_is_consistent, law_batch_with_documents_changes_the_index, lemma_index_after_concat,
    speaks_of, total_bytes, with_update, BatchView, PendingIndexBatch,
};
use crate::constants::{
    INDEX_BATCH_BYTE_LIMIT, INDEX_BATCH_DELETE_LIMIT, INDEX_BATCH_DOC_LIMIT,
    MANIFEST_BATCH_ENTRY_LIMIT,
};
use crate::error::SearchxError;
use crate::scan::{EventView, IndexEvent, ProgressView};
use crate::text::text_eq;
use vstd::prelude::*;
use vstd::string::*;

verus! {

/// What a thread that ended with a panic left: its payload, where it is a text of one kind or the
/// other.
pub open spec fn panic_text(
    borrowed: Option<Seq<char>>,
    owned: Option<Seq<char>>,
) -> Seq<char> {
    match borrowed {
        Some(text) => text,
        None => match owned {
            Some(text) => text,
            None => "unknown panic payload"@,
        },
    }
}

/// The message of a panic, from its payload as a borrowed and as an owned text.
pub fn panic_message(borrowed: Option<&str>, owned: Option<&String>) -> (message: String)
    ensures
        message@ == panic_text(
            match borrowed {
                Some(text) => Some(text@),
                None => None,
            },
            match owned {
                Some(text) => Some(text@),
                None => None,
            },
        ),
{
    match borrowed {
        Some(text) => text.to_string(),
        None => match owned {
            Some(text) => text.clone(),
            None => "unknown panic payload".to_string(),
        },
    }
}

/// What the scan thread gave, or the message of its panic.
pub fn finish_scan_thread(joined: Result<Result<SyncStats, SearchxError>, String>) -> (result:
    Result<SyncStats, SearchxError>)
    ensures
        match joined {
            Ok(given) => result == given,
            Err(message) => result == Err::<SyncStats, SearchxError>(
                SearchxError::ScanThreadPanicked { message },
            ),
        },
{
    match joined {
        Ok(result) => result,
        Err(message) => Err(SearchxError::ScanThreadPanicked { message }),
    }
}

/// What the embedding thread gave, or the message of its panic.
pub fn finish_embedding_thread(joined: Result<Result<(), SearchxError>, String>) -> (result: Result<
    (),
    SearchxError,
>)
    ensures
        match joined {
            Ok(given) => result == given,
            Err(message) => result == Err::<(), SearchxError>(
                SearchxError::EmbeddingThreadPanicked { message },
            ),
        },
{
    match joined {
        Ok(result) => result,
        Err(message) => Err(SearchxError::EmbeddingThreadPanicked { message }),
    }
}

/// What the two threads gave together: the error of the scan, else that of the embedding, else the
/// figures.
pub open spec fn threads_result(
    scan: Result<SyncStats, SearchxError>,
    embedding: Result<(), SearchxError>,
) -> Result<SyncStats, SearchxError> {
    match scan {
        Err(error) => Err(error),
        Ok(stats) => match embedding {
            Err(error) => Err(error),
            Ok(()) => Ok(stats),
        },
    }
}

/// A [`SyncProgress`] as text.
pub enum SyncProgressView {
    Rebuilding { reason: Seq<char> },
    Indexing { path: Seq<char> },
    ScanError(ScanErrorView),
}

impl DeepView for SyncProgress {
    type V = SyncProgressView;

    open spec fn deep_view(&self) -> SyncProgressView {
        match self {
            SyncProgress::Rebuilding { reason } => SyncProgressView::Rebuilding { reason: reason@ },
            SyncProgress::Indexing { path } => SyncProgressView::Indexing { path: path@ },
            SyncProgress::ScanError(error) => SyncProgressView::ScanError(error@),
        }
    }
}

impl SyncProgressView {
    /// The text in which progress is reported.
    pub open spec fn text(self) -> Seq<char> {
        match self {
            SyncProgressView::Rebuilding { reason } => "Rebuilding index: "@ + reason,
            SyncProgressView::Indexing { path } => "Indexing: "@ + path,
            SyncProgressView::ScanError(error) => error.text(),
        }
    }
}

impl SyncProgress {
    /// The text in which progress is reported.
    pub fn to_text(&self) -> (text: String)
        ensures
            text@ == self.deep_view().text(),
    {
        match self {
            SyncProgress::Rebuilding { reason } => {
                let mut text = "Rebuilding index: ".to_string();
                text.append(reason.as_str());
                text
            },
            SyncProgress::Indexing { path } => {
                let mut text = "Indexing: ".to_string();
                text.append(path.as_str());
                text
            },
            SyncProgress::ScanError(error) => error.to_text(),
        }
    }
}

/// The reports of errors of the scan, in their order.
pub fn drain_scan_errors(errors: Vec<ScanError>) -> (reports: Vec<SyncProgress>)
    ensures
        reports.deep_view() == errors.deep_view().map_values(
            |error: ScanErrorView| SyncProgressView::ScanError(error),
        ),
{
    let mut reports: Vec<SyncProgress> = Vec::new();
    let ghost expected = errors.deep_view().map_values(
        |error: ScanErrorView| SyncProgressView::ScanError(error),
    );
    for error in it: errors
        invariant
            it.seq() == errors@,
            reports@.len() == it.index(),
            expected == errors.deep_view().map_values(
                |error: ScanErrorView| SyncProgressView::ScanError(error),
            ),
            forall|j: int|
                0 <= j < it.index() ==> (#[trigger] reports@[j]).deep_view() == expected[j],
    {
        reports.push(SyncProgress::ScanError(error));
    }
    assert(reports.deep_view() =~= expected);
    reports
}

fn same_file(a: &Option<String>, b: &Option<String>) -> (same: bool)
    ensures
        same == (a.deep_view() == b.deep_view()),
{
    match (a, b) {
        (Some(a), Some(b)) => text_eq(a.as_str(), b.as_str()),
        (None, None) => true,
        _ => false,
    }
}

/// The report of the file that the scan is at, where it is at another one than was last reported.
pub fn report_sync_progress(current: Option<String>, last_reported: &mut Option<String>) -> (report:
    Option<SyncProgress>)
    ensures
        final(last_reported).deep_view() == current.deep_view(),
        report.deep_view() == (if current is Some && current.deep_view() != old(
            last_reported,
        ).deep_view() {
            Some(SyncProgressView::Indexing { path: current->Some_0@ })
        } else {
            None
        }),
{
    if same_file(&current, last_reported) {
        None
    } else {
        let report = match &current {
            Some(path) => Some(SyncProgress::Indexing { path: path.clone() }),
            None => None,
        };
        *last_reported = current;
        report
    }
}

/// How far a stream has come.
#[derive(Debug)]
pub enum StreamPhase {
    /// It waits for a change.
    Receiving,
    /// The batch is to be put into the index; `last` holds the figures once the scan is over.
    Applying { last: Option<SyncStats> },
    /// The progress of the batch is to be recorded.
    Recording { last: Option<SyncStats> },
    /// The threads are to be stopped, and the run fails.
    Canceled { error: SearchxError },
    /// The threads are over, and the run fails.
    Failed { error: SearchxError },
    /// All changes have been made.
    Finished { stats: SyncStats },
}

/// A stream as its batch and its phase.
pub struct StreamView {
    pub batch: BatchView,
    pub phase: StreamPhase,
}

/// A batch is large enough to be put into the index.
pub open spec fn full(batch: BatchView) -> bool {
    ||| batch.upserts.len() >= INDEX_BATCH_DOC_LIMIT
    ||| batch.deleted.len() >= INDEX_BATCH_DELETE_LIMIT
    ||| total_bytes(batch.upserts) >= INDEX_BATCH_BYTE_LIMIT
    ||| batch.progress.len() >= MANIFEST_BATCH_ENTRY_LIMIT
}

/// What follows once a batch has been dealt with.
pub open spec fn phase_after_flush(last: Option<SyncStats>) -> StreamPhase {
    match last {
        Some(stats) => StreamPhase::Finished { stats },
        None => StreamPhase::Receiving,
    }
}

/// What dealing with a batch begins with.
pub open spec fn flush_phase(batch: BatchView, last: Option<SyncStats>) -> StreamPhase {
    if batch == empty_batch() {
        phase_after_flush(last)
    } else if batch.changes_index() {
        StreamPhase::Applying { last }
    } else {
        StreamPhase::Recording { last }
    }
}

/// What an error in dealing with a batch leads to: while the scan goes on, it is to be stopped.
pub open spec fn phase_after_error(last: Option<SyncStats>, error: SearchxError) -> StreamPhase {
    match last {
        Some(_) => StreamPhase::Failed { error },
        None => StreamPhase::Canceled { error },
    }
}

impl StreamView {
    /// Once a change has come.
    pub open spec fn after_event(self, event: EventView) -> StreamView {
        let batch = self.batch.with(event);
        StreamView {
            batch,
            phase: if full(batch) {
                flush_phase(batch, None)
            } else {
                StreamPhase::Receiving
            },
        }
    }

    /// Once no change has come for a while.
    pub open spec fn after_timeout(self) -> StreamView {
        StreamView { phase: flush_phase(self.batch, None), ..self }
    }

    /// Once no more changes can come, the threads being over.
    pub open spec fn after_end(self, result: Result<SyncStats, SearchxError>) -> StreamView {
        StreamView {
            phase: match result {
                Ok(stats) => flush_phase(self.batch, Some(stats)),
                Err(error) => StreamPhase::Failed { error },
            },
            ..self
        }
    }

    /// Once the batch has been put into the index, or could not be.
    pub open spec fn after_applying(
        self,
        last: Option<SyncStats>,
        result: Result<(), SearchxError>,
    ) -> StreamView {
        StreamView {
            phase: match result {
                Ok(()) => StreamPhase::Recording { last },
                Err(error) => phase_after_error(last, error),
            },
            ..self
        }
    }

    /// Once the progress of the batch has been recorded, or could not be.
    pub open spec fn after_recording(
        self,
        last: Option<SyncStats>,
        result: Result<(), SearchxError>,
    ) -> StreamView {
        match result {
            Ok(()) => StreamView { batch: empty_batch(), phase: phase_after_flush(last) },
            Err(error) => StreamView { phase: phase_after_error(last, error), ..self },
        }
    }
}

/// The changes of a scan on their way into the index.
#[derive(Debug)]
pub struct ScanStream {
    batch: PendingIndexBatch,
    phase: StreamPhase,
}

impl View for ScanStream {
    type V = StreamView;

    closed spec fn view(&self) -> StreamView {
        StreamView { batch: self.batch@, phase: self.phase }
    }
}

impl ScanStream {
    /// A stream that waits holds less than a full batch, and one that is finished holds nothing.
    pub closed spec fn wf(&self) -> bool {
        &&& self.batch.wf()
        &&& self.phase is Receiving ==> !full(self.batch@)
        &&& self.phase is Applying ==> self.batch@.changes_index()
        &&& self.phase is Finished ==> self.batch@ == empty_batch()
    }

    /// The beginning of a stream.
    pub fn new() -> (stream: Self)
        ensures
            stream.wf(),
            stream@ == (StreamView { batch: empty_batch(), phase: StreamPhase::Receiving }),
    {
        ScanStream { batch: PendingIndexBatch::new(), phase: StreamPhase::Receiving }
    }

    /// How far the stream has come.
    pub fn phase(&self) -> (phase: &StreamPhase)
        ensures
            *phase == self@.phase,
    {
        &self.phase
    }

    /// The batch that is being gathered or dealt with.
    pub fn batch(&self) -> (batch: &PendingIndexBatch)
        ensures
            batch@ == self@.batch,
    {
        &self.batch
    }

    /// How far the stream has come, at its end.
    pub fn into_phase(self) -> (phase: StreamPhase)
        ensures
            phase == self@.phase,
    {
        self.phase
    }

    fn begin_flush(&mut self, last: Option<SyncStats>)
        requires
            old(self).batch.wf(),
            last is None ==> (old(self).batch@ == empty_batch() ==> !full(old(self).batch@)),
        ensures
            final(self).wf(),
            final(self)@ == (StreamView {
                batch: old(self)@.batch,
                phase: flush_phase(old(self)@.batch, last),
            }),
    {
        if self.batch.is_empty() {
            self.phase = match last {
                Some(stats) => StreamPhase::Finished { stats },
                None => StreamPhase::Receiving,
            };
        } else if self.batch.index_change().is_some() {
            self.phase = StreamPhase::Applying { last };
        } else {
            self.phase = StreamPhase::Recording { last };
        }
    }

    /// Takes a change.
    pub fn received(&mut self, event: IndexEvent)
        requires
            old(self).wf(),
            old(self)@.phase is Receiving,
        ensures
            final(self).wf(),
            final(self)@ == old(self)@.after_event(event@),
    {
        self.batch.push(event);
        if self.batch.should_flush() {
            proof {
                lemma_empty_is_not_full();
            }
            self.begin_flush(None);
        } else {
            self.phase = StreamPhase::Receiving;
        }
    }

    /// Takes note that no change has come for a while.
    pub fn timed_out(&mut self)
        requires
            old(self).wf(),
            old(self)@.phase is Receiving,
        ensures
            final(self).wf(),
            final(self)@ == old(self)@.after_timeout(),
    {
        self.begin_flush(None);
    }

    /// Takes note that no more changes can come, and of what the two threads gave.
    pub fn disconnected(
        &mut self,
        scan: Result<SyncStats, SearchxError>,
        embedding: Result<(), SearchxError>,
    )
        requires
            old(self).wf(),
            old(self)@.phase is Receiving,
        ensures
            final(self).wf(),
            final(self)@ == old(self)@.after_end(threads_result(scan, embedding)),
    {
        match scan {
            Err(error) => {
                self.phase = StreamPhase::Failed { error };
            },
            Ok(stats) => match embedding {
                Err(error) => {
                    self.phase = StreamPhase::Failed { error };
                },
                Ok(()) => self.begin_flush(Some(stats)),
            },
        }
    }

    /// Takes note of whether the batch could be put into the index.
    pub fn applied(&mut self, result: Result<(), SearchxError>)
        requires
            old(self).wf(),
            old(self)@.phase is Applying,
        ensures
            final(self).wf(),
            final(self)@ == old(self)@.after_applying(
                old(self)@.phase->Applying_last,
                result,
            ),
    {
        if let StreamPhase::Applying { last } = &self.phase {
            let last = *last;
            match result {
                Ok(()) => {
                    self.phase = StreamPhase::Recording { last };
                },
                Err(error) => self.fail(last, error),
            }
        }
    }

    /// Takes note of whether the progress of the batch could be recorded.
    pub fn recorded(&mut self, result: Result<(), SearchxError>)
        requires
            old(self).wf(),
            old(self)@.phase is Recording,
        ensures
            final(self).wf(),
            final(self)@ == old(self)@.after_recording(
                old(self)@.phase->Recording_last,
                result,
            ),
    {
        if let StreamPhase::Recording { last } = &self.phase {
            let last = *last;
            match result {
                Ok(()) => {
                    self.batch.clear();
                    proof {
                        lemma_empty_is_not_full();
                    }
                    self.phase = match last {
                        Some(stats) => StreamPhase::Finished { stats },
                        None => StreamPhase::Receiving,
                    };
                },
                Err(error) => self.fail(last, error),
            }
        }
    }

    fn fail(&mut self, last: Option<SyncStats>, error: SearchxError)
        requires
            old(self).wf(),
        ensures
            final(self).wf(),
            final(self)@ == (StreamView {
                batch: old(self)@.batch,
                phase: phase_after_error(last, error),
            }),
    {
        self.phase = match last {
            Some(_) => StreamPhase::Failed { error },
            None => StreamPhase::Canceled { error },
        };
    }
}

/// A stream that waits holds less than a full batch, and one that has finished holds nothing; what
/// it holds never puts a document in and takes it out.
pub proof fn law_stream_holds_less_than_a_batch(stream: &ScanStream)
    requires
        stream.wf(),
    ensures
        stream@.batch.consistent(),
        stream@.phase is Receiving ==> !full(stream@.batch),
        stream@.phase is Finished ==> stream@.batch == empty_batch(),
{
    law_batch_is_consistent(&stream.batch);
}

proof fn lemma_empty_is_not_full()
    ensures
        !full(empty_batch()),
{
    assert(Map::<Seq<char>, Seq<char>>::empty().dom() =~= Set::empty());
    assert(empty_batch().upserts.dom().len() == 0);
}

/// The entry that a change records, where it records one.
pub open spec fn event_progress(event: EventView) -> Option<ProgressView> {
    match event {
        EventView::Upsert { progress, .. } => progress,
        EventView::Delete { progress, .. } => progress,
        EventView::Progress(update) => Some(update),
    }
}

/// The entries that changes record, in their order.
pub open spec fn progress_of(events: Seq<EventView>) -> Seq<ProgressView>
    decreases events.len(),
{
    if events.len() == 0 {
        Seq::empty()
    } else {
        with_update(progress_of(events.drop_last()), event_progress(events.last()))
    }
}

/// What a run has done so far.
pub struct RunState {
    /// The documents in the index before the run.
    pub start: Map<Seq<char>, Seq<char>>,
    /// The documents in the index now.
    pub index: Map<Seq<char>, Seq<char>>,
    /// The changes that have come.
    pub events: Seq<EventView>,
    /// The entries that have been recorded.
    pub recorded: Seq<ProgressView>,
}

/// Every change that has come either has been made or waits in the batch, and progress is recorded
/// only once the documents that came with it are in the index.
pub open spec fn accounted(stream: StreamView, run: RunState) -> bool {
    &&& stream.batch.consistent()
    &&& stream.batch.applied_to(run.index) == index_after_all(run.start, run.events)
    &&& run.recorded + stream.batch.progress == progress_of(run.events)
    &&& stream.phase is Recording ==> stream.batch.applied_to(run.index) == run.index
    &&& stream.phase is Finished ==> stream.batch == empty_batch()
}

/// At its beginning a stream accounts for everything.
pub proof fn law_stream_begins_accounted(start: Map<Seq<char>, Seq<char>>)
    ensures
        accounted(
            StreamView { batch: empty_batch(), phase: StreamPhase::Receiving },
            RunState {
                start,
                index: start,
                events: Seq::empty(),
                recorded: Seq::empty(),
            },
        ),
{
    assert(empty_batch().applied_to(start) =~= start);
}

/// No change is lost as it comes.
pub proof fn law_received_change_is_accounted(stream: StreamView, run: RunState, event: EventView)
    requires
        accounted(stream, run),
        stream.phase is Receiving,
    ensures
        accounted(
            stream.after_event(event),
            RunState { events: run.events.push(event), ..run },
        ),
{
    let batch = stream.batch.with(event);
    assert(run.events.push(event).drop_last() =~= run.events);
    assert(batch.applied_to(run.index) =~= index_after(
        stream.batch.applied_to(run.index),
        event,
    ));
    assert(run.recorded + batch.progress =~= progress_of(run.events.push(event)));
    if !batch.changes_index() {
        assert(batch.applied_to(run.index) =~= run.index);
    }
}

/// Nor is any lost while none come, or when the scan ends.
pub proof fn law_waiting_and_ending_are_accounted(
    stream: StreamView,
    run: RunState,
    result: Result<SyncStats, SearchxError>,
)
    requires
        accounted(stream, run),
        stream.phase is Receiving,
    ensures
        accounted(stream.after_timeout(), run),
        accounted(stream.after_end(result), run),
{
    if !stream.batch.changes_index() {
        assert(stream.batch.applied_to(run.index) =~= run.index);
    }
}

/// Putting the batch into the index, and then recording its progress, account for its changes; an
/// error in either loses none.
pub proof fn law_flushing_is_accounted(
    stream: StreamView,
    run: RunState,
    last: Option<SyncStats>,
    error: SearchxError,
)
    requires
        accounted(stream, run),
    ensures
        stream.phase == (StreamPhase::Applying { last }) ==> accounted(
            stream.after_applying(last, Ok(())),
            RunState { index: stream.batch.applied_to(run.index), ..run },
        ),
        stream.phase == (StreamPhase::Recording { last }) ==> accounted(
            stream.after_recording(last, Ok(())),
            RunState { recorded: run.recorded + stream.batch.progress, ..run },
        ),
        accounted(stream.after_applying(last, Err(error)), run),
        accounted(stream.after_recording(last, Err(error)), run),
{
    let batch = stream.batch;
    assert(batch.applied_to(batch.applied_to(run.index)) =~= batch.applied_to(run.index));
    assert(empty_batch().applied_to(run.index) =~= run.index);
    assert((run.recorded + batch.progress) + Seq::<ProgressView>::empty() =~= run.recorded
        + batch.progress);
}

/// A stream that finishes has made every change that came, and recorded every entry.
pub proof fn law_finished_stream_has_made_every_change(stream: StreamView, run: RunState)
    requires
        accounted(stream, run),
        stream.phase is Finished,
    ensures
        run.index == index_after_all(run.start, run.events),
        run.recorded == progress_of(run.events),
{
    assert(empty_batch().applied_to(run.index) =~= run.index);
    assert(run.recorded + Seq::<ProgressView>::empty() =~= run.recorded);
}

/// The first `n` changes have been made in the index, and what is recorded is part of what these
/// changes record.
pub open spec fn made_up_to(run: RunState, n: int) -> bool {
    &&& 0 <= n <= run.events.len()
    &&& run.index == index_after_all(run.start, run.events.take(n))
    &&& run.recorded.is_prefix_of(progress_of(run.events.take(n)))
}

/// Nothing is recorded of a change that has not been made in the index.
pub open spec fn recorded_after_made(run: RunState) -> bool {
    exists|n: int| made_up_to(run, n)
}

/// The stream has dealt with the first `k` changes, and holds the others in its batch.
pub open spec fn in_step(stream: StreamView, run: RunState, k: int) -> bool {
    &&& recorded_after_made(run)
    &&& !(stream.phase is Canceled) && !(stream.phase is Failed) ==> {
        &&& 0 <= k <= run.events.len()
        &&& stream.batch == empty_batch().with_all(run.events.skip(k))
        &&& run.recorded == progress_of(run.events.take(k))
        &&& run.index == index_after_all(
            run.start,
            if stream.phase is Recording {
                run.events
            } else {
                run.events.take(k)
            },
        )
    }
}

proof fn lemma_progress_concat(a: Seq<EventView>, b: Seq<EventView>)
    ensures
        progress_of(a + b) == progress_of(a) + progress_of(b),
    decreases b.len(),
{
    if b.len() == 0 {
        assert(a + b =~= a);
        assert(progress_of(a) + progress_of(b) =~= progress_of(a));
    } else {
        lemma_progress_concat(a, b.drop_last());
        assert((a + b).drop_last() =~= a + b.drop_last());
        assert(progress_of(a + b) =~= progress_of(a) + progress_of(b));
    }
}

proof fn lemma_batch_progress(events: Seq<EventView>)
    ensures
        empty_batch().with_all(events).progress == progress_of(events),
    decreases events.len(),
{
    if events.len() > 0 {
        lemma_batch_progress(events.drop_last());
    }
}

/// What the changes up to `k` and those after it come to.
proof fn lemma_split(run: RunState, k: int)
    requires
        0 <= k <= run.events.len(),
    ensures
        ({
            let batch = empty_batch().with_all(run.events.skip(k));
            let index = index_after_all(run.start, run.events.take(k));
            let recorded = progress_of(run.events.take(k));
            &&& batch.applied_to(index) == index_after_all(run.start, run.events)
            &&& !batch.changes_index() ==> index == index_after_all(run.start, run.events)
            &&& recorded + batch.progress == progress_of(run.events)
        }),
{
    let batch = empty_batch().with_all(run.events.skip(k));
    let index = index_after_all(run.start, run.events.take(k));
    assert(run.events.take(k) + run.events.skip(k) =~= run.events);
    law_batch_applies_like_its_events(index, run.events.skip(k));
    lemma_index_after_concat(run.start, run.events.take(k), run.events.skip(k));
    lemma_progress_concat(run.events.take(k), run.events.skip(k));
    lemma_batch_progress(run.events.skip(k));
    if !batch.changes_index() {
        assert(batch.applied_to(index) =~= index);
    }
}

proof fn lemma_made(run: RunState, n: int)
    requires
        made_up_to(run, n),
    ensures
        recorded_after_made(run),
{
}

/// At its beginning a stream is in step.
pub proof fn law_stream_begins_in_step(start: Map<Seq<char>, Seq<char>>)
    ensures
        in_step(
            StreamView { batch: empty_batch(), phase: StreamPhase::Receiving },
            RunState {
                start,
                index: start,
                events: Seq::empty(),
                recorded: Seq::empty(),
            },
            0,
        ),
{
    let run = RunState {
        start,
        index: start,
        events: Seq::<EventView>::empty(),
        recorded: Seq::<ProgressView>::empty(),
    };
    assert(run.events.take(0) =~= Seq::empty());
    assert(run.events.skip(0) =~= Seq::empty());
    lemma_made(run, 0);
}

proof fn lemma_flush_in_step(
    stream: StreamView,
    run: RunState,
    k: int,
    last: Option<SyncStats>,
)
    requires
        recorded_after_made(run),
        0 <= k <= run.events.len(),
        stream.batch == empty_batch().with_all(run.events.skip(k)),
        run.recorded == progress_of(run.events.take(k)),
        run.index == index_after_all(run.start, run.events.take(k)),
        stream.phase == flush_phase(stream.batch, last),
    ensures
        in_step(stream, run, k),
{
    lemma_split(run, k);
}

/// A change that comes keeps the stream in step.
pub proof fn law_received_change_keeps_step(
    stream: StreamView,
    run: RunState,
    k: int,
    event: EventView,
)
    requires
        in_step(stream, run, k),
        stream.phase is Receiving,
    ensures
        in_step(
            stream.after_event(event),
            RunState { events: run.events.push(event), ..run },
            k,
        ),
{
    let next = RunState { events: run.events.push(event), ..run };
    assert(next.events.take(k) =~= run.events.take(k));
    assert(next.events.skip(k) =~= run.events.skip(k).push(event));
    assert(run.events.skip(k).push(event).drop_last() =~= run.events.skip(k));
    assert(made_up_to(next, k));
    lemma_made(next, k);
    if full(stream.batch.with(event)) {
        lemma_flush_in_step(stream.after_event(event), next, k, None);
    }
}

/// So do pauses, and the end of the scan.
pub proof fn law_waiting_and_ending_keep_step(
    stream: StreamView,
    run: RunState,
    k: int,
    result: Result<SyncStats, SearchxError>,
)
    requires
        in_step(stream, run, k),
        stream.phase is Receiving,
    ensures
        in_step(stream.after_timeout(), run, k),
        in_step(stream.after_end(result), run, k),
{
    lemma_flush_in_step(stream.after_timeout(), run, k, None);
    if let Ok(stats) = result {
        lemma_flush_in_step(stream.after_end(result), run, k, Some(stats));
    }
}

/// So does dealing with the batch, whether it succeeds or fails; where recording fails, some of the
/// entries of the batch may have been recorded, the first `n` of them.
pub proof fn law_flushing_keeps_step(
    stream: StreamView,
    run: RunState,
    k: int,
    last: Option<SyncStats>,
    error: SearchxError,
    n: int,
)
    requires
        in_step(stream, run, k),
        0 <= n <= stream.batch.progress.len(),
    ensures
        stream.phase == (StreamPhase::Applying { last }) ==> in_step(
            stream.after_applying(last, Ok(())),
            RunState { index: stream.batch.applied_to(run.index), ..run },
            k,
        ),
        stream.phase == (StreamPhase::Applying { last }) ==> in_step(
            stream.after_applying(last, Err(error)),
            run,
            k,
        ),
        stream.phase == (StreamPhase::Recording { last }) ==> in_step(
            stream.after_recording(last, Ok(())),
            RunState { recorded: run.recorded + stream.batch.progress, ..run },
            run.events.len() as int,
        ),
        stream.phase == (StreamPhase::Recording { last }) ==> in_step(
            stream.after_recording(last, Err(error)),
            RunState { recorded: run.recorded + stream.batch.progress.take(n), ..run },
            k,
        ),
{
    let all = run.events.len() as int;
    assert(run.events.take(all) =~= run.events);
    if stream.phase == (StreamPhase::Applying { last }) {
        lemma_split(run, k);
        let next = RunState { index: stream.batch.applied_to(run.index), ..run };
        assert(run.recorded.is_prefix_of(progress_of(run.events)));
        lemma_made(next, all);
    }
    if stream.phase == (StreamPhase::Recording { last }) {
        lemma_split(run, k);
        let whole = RunState { recorded: run.recorded + stream.batch.progress, ..run };
        assert(run.events.skip(all) =~= Seq::empty());
        lemma_made(whole, all);
        let part = RunState { recorded: run.recorded + stream.batch.progress.take(n), ..run };
        assert(part.recorded =~= progress_of(run.events).take(part.recorded.len() as int));
        assert(part.recorded.is_prefix_of(progress_of(run.events)));
        lemma_made(part, all);
    }
}

/// The stream deals with its batch: it puts it into the index where it holds documents to put in or
/// take out, and only records its entries where it does not. Nothing is left to do for a batch
/// without changes: the stream waits on, or has finished once the scan is over.
pub open spec fn deals_with_batch(stream: StreamView, last: Option<SyncStats>) -> bool {
    let documents = exists|id: Seq<char>| speaks_of(stream.batch, id);
    &&& documents ==> stream.phase == (StreamPhase::Applying { last })
    &&& !documents && stream.batch.progress.len() > 0 ==> stream.phase == (
    StreamPhase::Recording { last })
    &&& !documents && stream.batch.progress.len() == 0 ==> waits_or_has_finished(
        stream.phase,
        last,
    )
}

/// The stream waits while the scan goes on, and has finished, with its figures, once it is over.
pub open spec fn waits_or_has_finished(phase: StreamPhase, last: Option<SyncStats>) -> bool {
    if last is Some {
        phase == (StreamPhase::Finished { stats: last->Some_0 })
    } else {
        phase is Receiving
    }
}

proof fn lemma_deals_with_batch(batch: BatchView, last: Option<SyncStats>)
    ensures
        deals_with_batch(StreamView { batch, phase: flush_phase(batch, last) }, last),
{
    law_batch_with_documents_changes_the_index(batch);
    if !batch.changes_index() && batch.progress.len() == 0 {
        assert(batch =~= empty_batch());
    }
}

/// A stream goes on waiting as long as its batch is not full; a full batch is dealt with at once,
/// and any batch when no change comes for a while, or when the scan is over.
pub proof fn law_stream_deals_with_every_batch(
    stream: StreamView,
    event: EventView,
    stats: SyncStats,
    error: SearchxError,
)
    ensures
        stream.after_event(event).batch == stream.batch.with(event),
        full(stream.batch.with(event)) ==> deals_with_batch(stream.after_event(event), None),
        !full(stream.batch.with(event)) ==> stream.after_event(event).phase is Receiving,
        stream.after_timeout().batch == stream.batch,
        deals_with_batch(stream.after_timeout(), None),
        stream.after_end(Ok(stats)).batch == stream.batch,
        deals_with_batch(stream.after_end(Ok(stats)), Some(stats)),
        stream.after_end(Err(error)).phase == (StreamPhase::Failed { error }),
{
    lemma_deals_with_batch(stream.batch.with(event), None);
    lemma_deals_with_batch(stream.batch, None);
    lemma_deals_with_batch(stream.batch, Some(stats));
}

/// Once a batch is in the index its entries are recorded, and then the stream waits for more, or
/// has finished with the figures of the scan. An error ends the run with itself: the threads are
/// stopped while the scan goes on.
pub proof fn law_stream_records_what_it_has_applied(
    stream: StreamView,
    last: Option<SyncStats>,
    error: SearchxError,
)
    ensures
        stream.after_applying(last, Ok(())).phase == (StreamPhase::Recording { last }),
        stream.after_applying(last, Ok(())).batch == stream.batch,
        waits_or_has_finished(stream.after_recording(last, Ok(())).phase, last),
        stream.after_recording(last, Ok(())).batch == empty_batch(),
        last is None ==> stream.after_applying(last, Err(error)).phase == (
        StreamPhase::Canceled { error }),
        last is Some ==> stream.after_applying(last, Err(error)).phase == (
        StreamPhase::Failed { error }),
        stream.after_recording(last, Err(error)).phase == stream.after_applying(
            last,
            Err(error),
        ).phase,
{
}

/// A batch is full exactly with so many documents, deletions, bytes or entries that one more kind of
/// limit is reached; each limit alone is enough.
pub proof fn law_batch_is_full_at_each_limit(batch: BatchView)
    ensures
        batch.upserts.len() >= INDEX_BATCH_DOC_LIMIT ==> full(batch),
        batch.deleted.len() >= INDEX_BATCH_DELETE_LIMIT ==> full(batch),
        total_bytes(batch.upserts) >= INDEX_BATCH_BYTE_LIMIT ==> full(batch),
        batch.progress.len() >= MANIFEST_BATCH_ENTRY_LIMIT ==> full(batch),
        batch.upserts.len() < INDEX_BATCH_DOC_LIMIT && batch.deleted.len()
            < INDEX_BATCH_DELETE_LIMIT && total_bytes(batch.upserts) < INDEX_BATCH_BYTE_LIMIT
            && batch.progress.len() < MANIFEST_BATCH_ENTRY_LIMIT ==> !full(batch),
{
}

/// The threads give figures only where both have succeeded; otherwise the error of the scan, where
/// there is one, and else that of the embedding.
pub proof fn law_threads_succeed_together(
    scan: Result<SyncStats, SearchxError>,
    embedding: Result<(), SearchxError>,
)
    ensures
        threads_result(scan, embedding) is Ok <==> scan is Ok && embedding is Ok,
        threads_result(scan, embedding) is Ok ==> threads_result(scan, embedding) == scan,
        scan is Err ==> threads_result(scan, embedding) == scan,
        scan is Ok && embedding is Err ==> threads_result(scan, embedding)->Err_0
            == embedding->Err_0,
{
}

/// The entries that changes record are those of each change, none left out and none added: one more
/// change adds its own, where it has one.
pub proof fn law_every_change_records_its_entry(events: Seq<EventView>, event: EventView)
    ensures
        progress_of(Seq::empty()).len() == 0,
        event matches EventView::Progress(update) ==> progress_of(events.push(event))
            == progress_of(events).push(update),
        event matches EventView::Upsert { progress: Some(update), .. } ==> progress_of(
            events.push(event),
        ) == progress_of(events).push(update),
        event matches EventView::Delete { progress: Some(update), .. } ==> progress_of(
            events.push(event),
        ) == progress_of(events).push(update),
        event matches EventView::Upsert { progress: None, .. } ==> progress_of(events.push(event))
            == progress_of(events),
        event matches EventView::Delete { progress: None, .. } ==> progress_of(events.push(event))
            == progress_of(events),
{
    assert(events.push(event).drop_last() =~= events);
}

/// The message of a panic is its payload, where that is a text.
pub proof fn law_panic_is_told_by_its_payload(borrowed: Option<Seq<char>>, owned: Option<Seq<char>>)
    ensures
        borrowed is Some ==> panic_text(borrowed, owned) == borrowed->Some_0,
        borrowed is None && owned is Some ==> panic_text(borrowed, owned) == owned->Some_0,
        borrowed is None && owned is None ==> panic_text(borrowed, owned).len() > 0,
{
    reveal_strlit("unknown panic payload");
}

/// A report ends with what it is about: the reason of a rebuild, the path of a file, or the message
/// of an error.
pub proof fn law_report_ends_with_its_subject(
    reason: Seq<char>,
    path: Seq<char>,
    error: ScanErrorView,
)
    ensures
        reason.is_suffix_of((SyncProgressView::Rebuilding { reason }).text()),
        path.is_suffix_of((SyncProgressView::Indexing { path }).text()),
        (SyncProgressView::Rebuilding { reason: path }).text() != (SyncProgressView::Indexing {
            path,
        }).text(),
        SyncProgressView::ScanError(error).text() == error.text(),
{
    let rebuilding = "Rebuilding index: "@ + reason;
    let indexing = "Indexing: "@ + path;
    assert(reason =~= rebuilding.subrange(
        rebuilding.len() - reason.len(),
        rebuilding.len() as int,
    ));
    assert(path =~= indexing.subrange(indexing.len() - path.len(), indexing.len() as int));
    reveal_strlit("Rebuilding index: ");
    reveal_strlit("Indexing: ");
    assert(("Rebuilding index: "@ + path).len() != indexing.len());
}

/// A stream begins with nothing, and waits.
pub proof fn law_stream_begins_waiting(stream: ScanStream, id: Seq<char>)
    requires
        call_ensures(ScanStream::new, (), stream),
    ensures
        stream@.phase is Receiving,
        !speaks_of(stream@.batch, id),
        stream@.batch.progress.len() == 0,
{
}

/// A change that comes is in the batch; the stream deals with that once it is full.
pub proof fn law_change_comes_into_the_batch(stream: &mut ScanStream, event: IndexEvent)
    requires
        call_ensures(ScanStream::received, (stream, event), ()),
    ensures
        final(stream)@.batch == old(stream)@.batch.with(event@),
        full(final(stream)@.batch) ==> deals_with_batch(final(stream)@, None),
        !full(final(stream)@.batch) ==> final(stream)@.phase is Receiving,
{
    lemma_deals_with_batch(old(stream)@.batch.with(event@), None);
}

/// When no change comes for a while, the stream deals with what it has.
pub proof fn law_pause_deals_with_the_batch(stream: &mut ScanStream)
    requires
        call_ensures(ScanStream::timed_out, (stream,), ()),
    ensures
        final(stream)@.batch == old(stream)@.batch,
        deals_with_batch(final(stream)@, None),
{
    lemma_deals_with_batch(old(stream)@.batch, None);
}

/// When the scan is over, the stream deals with what it has and then finishes with the figures; the
/// error of the scan, or else that of the embedding, fails the run.
pub proof fn law_end_of_the_scan_deals_with_the_batch(
    stream: &mut ScanStream,
    scan: Result<SyncStats, SearchxError>,
    embedding: Result<(), SearchxError>,
)
    requires
        call_ensures(ScanStream::disconnected, (stream, scan, embedding), ()),
    ensures
        final(stream)@.batch == old(stream)@.batch,
        scan is Ok && embedding is Ok ==> deals_with_batch(final(stream)@, Some(scan->Ok_0)),
        scan is Err ==> final(stream)@.phase == (StreamPhase::Failed { error: scan->Err_0 }),
        scan is Ok && embedding is Err ==> final(stream)@.phase == (StreamPhase::Failed {
            error: embedding->Err_0,
        }),
{
    if scan is Ok && embedding is Ok {
        lemma_deals_with_batch(old(stream)@.batch, Some(scan->Ok_0));
    }
}

/// Once the batch is in the index, its entries are to be recorded; an error ends the run with itself.
pub proof fn law_applied_batch_is_to_be_recorded(
    stream: &mut ScanStream,
    result: Result<(), SearchxError>,
    last: Option<SyncStats>,
)
    requires
        old(stream)@.phase == (StreamPhase::Applying { last }),
        call_ensures(ScanStream::applied, (stream, result), ()),
    ensures
        final(stream)@.batch == old(stream)@.batch,
        result is Ok ==> final(stream)@.phase == (StreamPhase::Recording { last }),
        result is Err && last is None ==> final(stream)@.phase == (StreamPhase::Canceled {
            error: result->Err_0,
        }),
        result is Err && last is Some ==> final(stream)@.phase == (StreamPhase::Failed {
            error: result->Err_0,
        }),
{
}

/// Once the entries are recorded, nothing of the batch is left, and the stream waits on or has
/// finished; an error ends the run with itself.
pub proof fn law_recorded_batch_is_done_with(
    stream: &mut ScanStream,
    result: Result<(), SearchxError>,
    last: Option<SyncStats>,
    id: Seq<char>,
)
    requires
        old(stream)@.phase == (StreamPhase::Recording { last }),
        call_ensures(ScanStream::recorded, (stream, result), ()),
    ensures
        result is Ok ==> waits_or_has_finished(final(stream)@.phase, last) && !speaks_of(
            final(stream)@.batch,
            id,
        ) && final(stream)@.batch.progress.len() == 0,
        result is Err ==> final(stream)@.batch == old(stream)@.batch,
        result is Err && last is None ==> final(stream)@.phase == (StreamPhase::Canceled {
            error: result->Err_0,
        }),
        result is Err && last is Some ==> final(stream)@.phase == (StreamPhase::Failed {
            error: result->Err_0,
        }),
{
}

/// What a stream shows of itself is what it holds.
pub proof fn law_stream_shows_what_it_holds(
    stream: ScanStream,
    phase: &StreamPhase,
    batch: &PendingIndexBatch,
    last: StreamPhase,
)
    requires
        call_ensures(ScanStream::phase, (&stream,), phase),
        call_ensures(ScanStream::batch, (&stream,), batch),
        call_ensures(ScanStream::into_phase, (stream,), last),
    ensures
        *phase == stream@.phase,
        last == stream@.phase,
        batch@ == stream@.batch,
{
}

/// A thread gives what it returned, or else an error with the message of its panic.
pub proof fn law_thread_gives_what_it_returned(
    scan: Result<Result<SyncStats, SearchxError>, String>,
    scanned: Result<SyncStats, SearchxError>,
    embedding: Result<Result<(), SearchxError>, String>,
    embedded: Result<(), SearchxError>,
)
    requires
        call_ensures(finish_scan_thread, (scan,), scanned),
        call_ensures(finish_embedding_thread, (embedding,), embedded),
    ensures
        scan is Ok ==> scanned == scan->Ok_0,
        scan is Err ==> (scanned matches Err(SearchxError::ScanThreadPanicked { message })
            && message == scan->Err_0),
        embedding is Ok ==> embedded == embedding->Ok_0,
        embedding is Err ==> (embedded matches Err(
            SearchxError::EmbeddingThreadPanicked { message },
        ) && message == embedding->Err_0),
{
}

/// The file that the scan is at is reported when it is another one than before, and only then; each
/// is reported once.
pub proof fn law_each_file_is_reported_once(
    current: Option<String>,
    last_reported: &mut Option<String>,
    report: Option<SyncProgress>,
)
    requires
        call_ensures(report_sync_progress, (current, last_reported), report),
    ensures
        final(last_reported).deep_view() == current.deep_view(),
        report is Some <==> current is Some && current.deep_view() != old(
            last_reported,
        ).deep_view(),
        report matches Some(SyncProgress::Indexing { path }) ==> current is Some && path@
            == current->Some_0@,
        report is Some ==> report->Some_0 is Indexing,
{
    if let Some(shown) = report {
        assert(report.deep_view() == Some(shown.deep_view()));
        match shown {
            SyncProgress::Indexing { path } => {},
            SyncProgress::Rebuilding { reason } => {},
            SyncProgress::ScanError(error) => {},
        }
    } else {
        assert(report.deep_view() is None);
    }
}

/// Every error of the scan is reported, in their order.
pub proof fn law_every_scan_error_is_reported(
    errors: Vec<ScanError>,
    reports: Vec<SyncProgress>,
    i: int,
)
    requires
        call_ensures(drain_scan_errors, (errors,), reports),
        0 <= i < errors@.len(),
    ensures
        reports@.len() == errors@.len(),
        reports@[i] matches SyncProgress::ScanError(error) && error@ == errors@[i]@,
{
    let all = reports.deep_view();
    assert(all.len() == reports@.len());
    assert(errors.deep_view().len() == errors@.len());
    assert(all[i] == reports@[i].deep_view());
    assert(errors.deep_view()[i] == errors@[i]@);
    match reports@[i] {
        SyncProgress::Indexing { path } => {},
        SyncProgress::Rebuilding { reason } => {},
        SyncProgress::ScanError(error) => {},
    }
}

/// Progress and panics are told by their texts.
pub proof fn law_progress_and_panics_are_told_by_their_texts(
    progress: SyncProgress,
    text: String,
    borrowed: Option<&str>,
    owned: Option<&String>,
    message: String,
)
    requires
        call_ensures(SyncProgress::to_text, (&progress,), text),
        call_ensures(panic_message, (borrowed, owned), message),
    ensures
        progress matches SyncProgress::Indexing { path } ==> path@.is_suffix_of(text@),
        progress matches SyncProgress::Rebuilding { reason } ==> reason@.is_suffix_of(text@),
        progress matches SyncProgress::ScanError(error) ==> text@ == error@.text(),
        borrowed is Some ==> message@ == borrowed->Some_0@,
        borrowed is None && owned is Some ==> message@ == owned->Some_0@,
{
    match progress {
        SyncProgress::Indexing { path } => law_report_ends_with_its_subject(
            Seq::empty(),
            path@,
            arbitrary(),
        ),
        SyncProgress::Rebuilding { reason } => law_report_ends_with_its_subject(
            reason@,
            Seq::empty(),
            arbitrary(),
        ),
        SyncProgress::ScanError(_) => {},
    }
}

} // verus!
