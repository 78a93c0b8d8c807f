//! A run from its beginning to its end: its steps in their order, and the repair of an index that
//! an unfinished run left.

use crate::api::ManifestLoad;
use crate::load::LoadView;
use crate::manifest::{FileFingerprint, FileState};
use crate::scan::{entry_of, metadata_outcome, FileOutcome, ProgressView};
use crate::store::{law_last_update_counts, updated};
use vstd::prelude::*;

verus! {

/// One step of a run. Each is taken once those before it have succeeded; where one fails, the run
/// fails with its error.
#[derive(Debug, Clone, PartialEq, Eq)]
pub enum SyncStep {
    /// Report why the index is built anew.
    ReportRebuilding { reason: String },
    /// Remove the data directory and make an empty one.
    ResetDataDir,
    /// Make the index directory, where there is none.
    CreateIndexDir,
    /// Mark the run as unfinished.
    MarkIncomplete,
    /// Open the index, or create it.
    OpenIndex,
    /// Set up the index.
    ConfigureIndex,
    /// Scan the files and put the changes into the index, recording the progress.
    StreamScan { resume_existing: bool },
    /// Take documents out of the index that no file stands for.
    RepairIndex,
    /// Make the recorded progress the manifest.
    CommitManifest,
    /// Take the mark of an unfinished run away.
    ClearIncomplete,
}

/// A [`SyncStep`] as text.
pub enum StepView {
    ReportRebuilding { reason: Seq<char> },
    ResetDataDir,
    CreateIndexDir,
    MarkIncomplete,
    OpenIndex,
    ConfigureIndex,
    StreamScan { resume_existing: bool },
    RepairIndex,
    CommitManifest,
    ClearIncomplete,
}

impl DeepView for SyncStep {
    type V = StepView;

    open spec fn deep_view(&self) -> StepView {
        match self {
            SyncStep::ReportRebuilding { reason } => StepView::ReportRebuilding { reason: reason@ },
            SyncStep::ResetDataDir => StepView::ResetDataDir,
            SyncStep::CreateIndexDir => StepView::CreateIndexDir,
            SyncStep::MarkIncomplete => StepView::MarkIncomplete,
            SyncStep::OpenIndex => StepView::OpenIndex,
            SyncStep::ConfigureIndex => StepView::ConfigureIndex,
            SyncStep::StreamScan { resume_existing } => StepView::StreamScan {
                resume_existing: *resume_existing,
            },
            SyncStep::RepairIndex => StepView::RepairIndex,
            SyncStep::CommitManifest => StepView::CommitManifest,
            SyncStep::ClearIncomplete => StepView::ClearIncomplete,
        }
    }
}

/// The steps that come before the index is opened.
pub open spec fn opening_steps(rebuild_reason: Option<Seq<char>>) -> Seq<StepView> {
    match rebuild_reason {
        Some(reason) => seq![
            StepView::ReportRebuilding { reason },
            StepView::ResetDataDir,
            StepView::MarkIncomplete,
        ],
        None => seq![StepView::CreateIndexDir, StepView::MarkIncomplete],
    }
}

/// The steps that fill the index.
pub open spec fn indexing_steps(resume_existing: bool) -> Seq<StepView> {
    seq![
        StepView::OpenIndex,
        StepView::ConfigureIndex,
        StepView::StreamScan { resume_existing },
    ]
}

/// The steps that end a run; the index is repaired where the run before was not finished.
pub open spec fn closing_steps(repair: bool) -> Seq<StepView> {
    if repair {
        seq![StepView::RepairIndex, StepView::CommitManifest, StepView::ClearIncomplete]
    } else {
        seq![StepView::CommitManifest, StepView::ClearIncomplete]
    }
}

/// The steps of a run that starts from `load`, the mark of an unfinished run being there or not.
pub open spec fn run_steps(load: LoadView, marker_exists: bool) -> Seq<StepView> {
    opening_steps(load.rebuild_reason) + indexing_steps(load.resume_from_incomplete)
        + closing_steps(marker_exists && load.rebuild_reason is None)
}

/// The steps of a run that starts from `load`, the mark of an unfinished run being there or not.
pub fn sync_steps(load: &ManifestLoad, marker_exists: bool) -> (steps: Vec<SyncStep>)
    ensures
        steps.deep_view() == run_steps(load@, marker_exists),
{
    let recovering = marker_exists && load.rebuild_reason.is_none();
    let mut steps: Vec<SyncStep> = Vec::new();
    match &load.rebuild_reason {
        Some(reason) => {
            steps.push(SyncStep::ReportRebuilding { reason: reason.clone() });
            steps.push(SyncStep::ResetDataDir);
        },
        None => {
            steps.push(SyncStep::CreateIndexDir);
        },
    }
    steps.push(SyncStep::MarkIncomplete);
    steps.push(SyncStep::OpenIndex);
    steps.push(SyncStep::ConfigureIndex);
    steps.push(SyncStep::StreamScan { resume_existing: load.resume_from_incomplete });
    if recovering {
        steps.push(SyncStep::RepairIndex);
    }
    steps.push(SyncStep::CommitManifest);
    steps.push(SyncStep::ClearIncomplete);
    assert(steps.deep_view() =~= run_steps(load@, marker_exists));
    steps
}

/// Whether the mark of an unfinished run is there after some steps.
pub open spec fn marker_after(marker_exists: bool, steps: Seq<StepView>) -> bool
    decreases steps.len(),
{
    if steps.len() == 0 {
        marker_exists
    } else {
        match steps.last() {
            StepView::MarkIncomplete => true,
            StepView::ResetDataDir => false,
            StepView::ClearIncomplete => false,
            _ => marker_after(marker_exists, steps.drop_last()),
        }
    }
}

proof fn lemma_marker_stays(marker_exists: bool, steps: Seq<StepView>, from: int, n: int)
    requires
        0 <= from < n <= steps.len(),
        steps[from] is MarkIncomplete,
        forall|i: int|
            from < i < n ==> !((#[trigger] steps[i]) is ResetDataDir) && !(
            steps[i] is ClearIncomplete),
    ensures
        marker_after(marker_exists, steps.take(n)),
    decreases n,
{
    let taken = steps.take(n);
    assert(taken.drop_last() =~= steps.take(n - 1));
    assert(taken.last() == steps[n - 1]);
    if n - 1 > from {
        lemma_marker_stays(marker_exists, steps, from, n - 1);
    }
}

/// From before the index is opened until the very end, a run is marked as unfinished: wherever it
/// stops in between, the next run learns of it. A run that comes to its end leaves no mark.
pub proof fn law_unfinished_run_is_marked(load: LoadView, marker_exists: bool, n: int)
    requires
        0 <= n <= run_steps(load, marker_exists).len(),
    ensures
        run_steps(load, marker_exists).take(n).contains(StepView::OpenIndex) && n < run_steps(
            load,
            marker_exists,
        ).len() ==> marker_after(marker_exists, run_steps(load, marker_exists).take(n)),
        !marker_after(marker_exists, run_steps(load, marker_exists)),
{
    let steps = run_steps(load, marker_exists);
    let opening = opening_steps(load.rebuild_reason);
    let from = opening.len() - 1;
    assert(steps[from] is MarkIncomplete);
    assert(steps.last() is ClearIncomplete);
    if steps.take(n).contains(StepView::OpenIndex) && n < steps.len() {
        let k = steps.take(n).index_of(StepView::OpenIndex);
        assert(steps[k] is OpenIndex);
        assert(k > from) by {
            if k <= from {
                assert(steps[k] == opening[k]);
            }
        }
        assert forall|i: int| from < i < n implies !((#[trigger] steps[i]) is ResetDataDir) && !(
        steps[i] is ClearIncomplete) by {
            let indexing = indexing_steps(load.resume_from_incomplete);
            let closing = closing_steps(marker_exists && load.rebuild_reason is None);
            if i < opening.len() + indexing.len() {
                assert(steps[i] == indexing[i - opening.len()]);
            } else {
                assert(steps[i] == closing[i - opening.len() - indexing.len()]);
            }
        }
        lemma_marker_stays(marker_exists, steps, from, n);
    }
}

/// The manifest is committed only after the whole scan has been streamed into the index, and the
/// index has been repaired where it had to be.
pub proof fn law_commit_comes_last(load: LoadView, marker_exists: bool)
    ensures
        ({
            let steps = run_steps(load, marker_exists);
            let n = steps.len();
            &&& steps[n - 1] is ClearIncomplete
            &&& steps[n - 2] is CommitManifest
            &&& forall|i: int| 0 <= i < n - 2 ==> !((#[trigger] steps[i]) is CommitManifest)
            &&& steps.contains(StepView::RepairIndex) <==> marker_exists
                && load.rebuild_reason is None
        }),
{
    let steps = run_steps(load, marker_exists);
    let opening = opening_steps(load.rebuild_reason);
    let indexing = indexing_steps(load.resume_from_incomplete);
    let repair = marker_exists && load.rebuild_reason is None;
    let closing = closing_steps(repair);
    let offset = (opening.len() + indexing.len()) as int;
    assert forall|i: int| 0 <= i < steps.len() - 2 implies !((#[trigger] steps[i]) is CommitManifest)
        && (steps[i] is RepairIndex ==> repair) by {
        if i < opening.len() {
            assert(steps[i] == opening[i]);
        } else if i < offset {
            assert(steps[i] == indexing[i - opening.len()]);
        } else {
            assert(steps[i] == closing[i - offset]);
        }
    }
    if repair {
        assert(steps[offset] is RepairIndex);
    }
    if steps.contains(StepView::RepairIndex) {
        let k = steps.index_of(StepView::RepairIndex);
        assert(steps[k] is RepairIndex);
    }
}

/// Whether an index is opened or created.
#[derive(Debug, Clone, Copy, PartialEq, Eq, Structural)]
pub enum OpenMode {
    Open,
    Create,
}

/// An index whose data file is there is opened; otherwise one is created.
pub fn open_mode(data_file_exists: bool) -> (mode: OpenMode)
    ensures
        mode == (if data_file_exists {
            OpenMode::Open
        } else {
            OpenMode::Create
        }),
{
    if data_file_exists {
        OpenMode::Open
    } else {
        OpenMode::Create
    }
}

/// A file whose document is in the index, and which was recorded so last in a finished run, is left
/// alone by the next run where it has not been modified.
pub proof fn law_next_run_leaves_indexed_file_alone(
    updates: Seq<ProgressView>,
    i: int,
    fingerprint: FileFingerprint,
    state: FileState,
    max_file_bytes: u64,
)
    requires
        0 <= i < updates.len(),
        updates[i].entry == entry_of(fingerprint, state),
        state is Indexed || state is IndexedMetadata,
        forall|j: int| i < j < updates.len() ==> (#[trigger] updates[j]).path != updates[i].path,
    ensures
        ({
            let files = updated(Map::empty(), updates);
            let path = updates[i].path;
            &&& files.contains_key(path)
            &&& metadata_outcome(Some(files[path]), max_file_bytes, Ok(fingerprint)) == Some(
                if state is Indexed {
                    FileOutcome::UnchangedIndexed
                } else {
                    FileOutcome::UnchangedSkipped
                },
            )
        }),
{
    law_last_update_counts(Map::empty(), updates, i);
}

/// A step comes at a place, and nowhere else.
pub open spec fn only_at(steps: Seq<StepView>, step: StepView, at: int) -> bool {
    &&& 0 <= at < steps.len()
    &&& steps[at] == step
    &&& forall|i: int| 0 <= i < steps.len() && i != at ==> #[trigger] steps[i] != step
}

/// In a run every step has its place. An index that is built anew is reported with the reason, and
/// the data directory is emptied before anything is marked or opened; otherwise its directory is
/// made. Then the run is marked as unfinished, the index is opened, set up and filled, taking an
/// unfinished run up where there is one, and repaired where the run before was not finished. At the
/// end the progress becomes the manifest, and the mark is taken away.
pub proof fn law_every_step_has_its_place(load: LoadView, marker_exists: bool)
    ensures
        ({
            let steps = run_steps(load, marker_exists);
            let anew = load.rebuild_reason is Some;
            let repaired = marker_exists && !anew;
            let mark: int = if anew { 2 } else { 1 };
            let end: int = if repaired { mark + 5 } else { mark + 4 };
            &&& steps.len() == end + 2
            &&& anew ==> only_at(
                steps,
                StepView::ReportRebuilding { reason: load.rebuild_reason->Some_0 },
                0,
            ) && only_at(steps, StepView::ResetDataDir, 1) && !steps.contains(
                StepView::CreateIndexDir,
            )
            &&& !anew ==> only_at(steps, StepView::CreateIndexDir, 0) && !steps.contains(
                StepView::ResetDataDir,
            )
            &&& only_at(steps, StepView::MarkIncomplete, mark)
            &&& only_at(steps, StepView::OpenIndex, mark + 1)
            &&& only_at(steps, StepView::ConfigureIndex, mark + 2)
            &&& only_at(
                steps,
                StepView::StreamScan { resume_existing: load.resume_from_incomplete },
                mark + 3,
            )
            &&& repaired ==> only_at(steps, StepView::RepairIndex, mark + 4)
            &&& !repaired ==> !steps.contains(StepView::RepairIndex)
            &&& only_at(steps, StepView::CommitManifest, end)
            &&& only_at(steps, StepView::ClearIncomplete, end + 1)
        }),
{
}

/// The steps of a run come in their order: whatever was wrong is reported and cleared away first, the
/// index is marked as unfinished before it is opened, set up and filled, then repaired where the run
/// before was not finished, and only then the manifest is committed and the mark taken away.
pub proof fn law_steps_come_in_their_order(
    load: ManifestLoad,
    marker_exists: bool,
    steps: Vec<SyncStep>,
)
    requires
        call_ensures(sync_steps, (&load, marker_exists), steps),
    ensures
        ({
            let mark: int = if load.rebuild_reason is Some { 2 } else { 1 };
            let repaired = marker_exists && load.rebuild_reason is None;
            let n = steps@.len();
            &&& n == mark + 6 + if repaired { 1int } else { 0int }
            &&& load.rebuild_reason is Some ==> (steps@[0] matches SyncStep::ReportRebuilding {
                reason,
            } && reason@ == load.rebuild_reason->Some_0@) && steps@[1] is ResetDataDir
            &&& load.rebuild_reason is None ==> steps@[0] is CreateIndexDir
            &&& steps@[mark] is MarkIncomplete
            &&& steps@[mark + 1] is OpenIndex
            &&& steps@[mark + 2] is ConfigureIndex
            &&& steps@[mark + 3] matches SyncStep::StreamScan { resume_existing }
            &&& resume_existing == load.resume_from_incomplete
            &&& repaired ==> steps@[mark + 4] is RepairIndex
            &&& steps@[n - 2] is CommitManifest
            &&& steps@[n - 1] is ClearIncomplete
        }),
{
    law_every_step_has_its_place(load@, marker_exists);
    let all = steps.deep_view();
    assert(all.len() == steps@.len());
    assert forall|i: int| 0 <= i < all.len() implies all[i] == (#[trigger] steps@[i]).deep_view() by {}
    assert(load.rebuild_reason is Some ==> load@.rebuild_reason == Some(
        load.rebuild_reason->Some_0@,
    ));
}

/// An index that is there is opened, and none is made over it.
pub proof fn law_existing_index_is_opened(data_file_exists: bool, mode: OpenMode)
    requires
        call_ensures(open_mode, (data_file_exists,), mode),
    ensures
        mode == OpenMode::Open <==> data_file_exists,
        mode == OpenMode::Create <==> !data_file_exists,
{
}

} // verus!
