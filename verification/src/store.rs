//! The manifest tables: what a run changes in them, as a list of statements.
//!
//! The database holds two pairs of tables: the manifest itself (an info row and the files), and
//! the working manifest, in which a run records its progress until it commits.

use crate::api::DataPaths;
use crate::constants::{
    INCOMPLETE_FILE_NAME, INDEX_DATA_FILE_NAME, INDEX_DIR_NAME, MANIFEST_FILE_NAME,
    MANIFEST_VERSION,
};
use crate::error::SearchxError;
use crate::load::{
    expected_load, info_fits, info_view, working_manifest_needs_reset, LoadView, StoreFacts,
};
use crate::manifest::{
    columns_entry, entry_columns, law_entry_columns_read_back, manifest_row, rows_files, storable,
    ManifestEntry, ManifestRow, ManifestView, RowColumns,
};
use crate::paths::{join, join_name, joined, path_buf_bytes, path_bytes};
use crate::scan::{ProgressUpdate, ProgressView};
use std::path::{Path, PathBuf};
use vstd::prelude::*;
use vstd::utf8::*;

verus! {

/// The files below a data directory, which is taken from `current_dir` where it is relative.
pub fn data_paths(current_dir: &Path, data_dir: &Path) -> (paths: DataPaths)
    ensures
        path_buf_bytes(&paths.base) == joined(path_bytes(current_dir), path_bytes(data_dir)),
        path_buf_bytes(&paths.index) == joined(
            path_buf_bytes(&paths.base),
            encode_utf8(INDEX_DIR_NAME@),
        ),
        path_buf_bytes(&paths.manifest) == joined(
            path_buf_bytes(&paths.base),
            encode_utf8(MANIFEST_FILE_NAME@),
        ),
        path_buf_bytes(&paths.incomplete_marker) == joined(
            path_buf_bytes(&paths.base),
            encode_utf8(INCOMPLETE_FILE_NAME@),
        ),
{
    let base = join(current_dir, data_dir);
    DataPaths {
        index: join_name(&base, INDEX_DIR_NAME),
        manifest: join_name(&base, MANIFEST_FILE_NAME),
        incomplete_marker: join_name(&base, INCOMPLETE_FILE_NAME),
        base,
    }
}

/// The file whose presence shows that there is an index.
pub fn index_data_file(paths: &DataPaths) -> (file: PathBuf)
    ensures
        path_buf_bytes(&file) == joined(
            path_buf_bytes(&paths.index),
            encode_utf8(INDEX_DATA_FILE_NAME@),
        ),
{
    join_name(&paths.index, INDEX_DATA_FILE_NAME)
}

/// One statement on the manifest tables.
#[derive(Debug, Clone, PartialEq, Eq)]
pub enum StoreAction {
    /// Empties the info table of the working manifest.
    ClearWorkingInfo,
    /// Empties the file table of the working manifest.
    ClearWorkingFiles,
    /// Sets the info row of the working manifest.
    PutWorkingInfo { version: u32, root: String },
    /// Sets the row of a path in the working manifest.
    PutWorkingFile { row: ManifestRow },
    /// Sets the info row of the manifest.
    PutInfo { version: u32, root: String },
    /// Empties the file table of the manifest.
    ClearFiles,
    /// Adds the rows of the working manifest to the manifest.
    CopyWorkingFiles,
}

/// A [`StoreAction`] as text.
pub enum ActionView {
    ClearWorkingInfo,
    ClearWorkingFiles,
    PutWorkingInfo { version: u32, root: Seq<char> },
    PutWorkingFile { path: Seq<char>, columns: RowColumns },
    PutInfo { version: u32, root: Seq<char> },
    ClearFiles,
    CopyWorkingFiles,
}

impl DeepView for StoreAction {
    type V = ActionView;

    open spec fn deep_view(&self) -> ActionView {
        match self {
            StoreAction::ClearWorkingInfo => ActionView::ClearWorkingInfo,
            StoreAction::ClearWorkingFiles => ActionView::ClearWorkingFiles,
            StoreAction::PutWorkingInfo { version, root } => ActionView::PutWorkingInfo {
                version: *version,
                root: root@,
            },
            StoreAction::PutWorkingFile { row } => ActionView::PutWorkingFile {
                path: row.path@,
                columns: row.columns(),
            },
            StoreAction::PutInfo { version, root } => ActionView::PutInfo {
                version: *version,
                root: root@,
            },
            StoreAction::ClearFiles => ActionView::ClearFiles,
            StoreAction::CopyWorkingFiles => ActionView::CopyWorkingFiles,
        }
    }
}

/// What the manifest tables hold.
#[verifier::ext_equal]
pub struct Tables {
    pub info: Option<(u32, Seq<char>)>,
    pub files: Map<Seq<char>, RowColumns>,
    pub working_info: Option<(u32, Seq<char>)>,
    pub working_files: Map<Seq<char>, RowColumns>,
}

impl Tables {
    /// The tables after one statement.
    pub open spec fn apply(self, action: ActionView) -> Tables {
        match action {
            ActionView::ClearWorkingInfo => Tables { working_info: None, ..self },
            ActionView::ClearWorkingFiles => Tables { working_files: Map::empty(), ..self },
            ActionView::PutWorkingInfo { version, root } => Tables {
                working_info: Some((version, root)),
                ..self
            },
            ActionView::PutWorkingFile { path, columns } => Tables {
                working_files: self.working_files.insert(path, columns),
                ..self
            },
            ActionView::PutInfo { version, root } => Tables {
                info: Some((version, root)),
                ..self
            },
            ActionView::ClearFiles => Tables { files: Map::empty(), ..self },
            ActionView::CopyWorkingFiles => Tables {
                files: self.files.union_prefer_right(self.working_files),
                ..self
            },
        }
    }

    /// The tables after a list of statements.
    pub open spec fn apply_all(self, actions: Seq<ActionView>) -> Tables
        decreases actions.len(),
    {
        if actions.len() == 0 {
            self
        } else {
            self.apply_all(actions.drop_last()).apply(actions.last())
        }
    }

    /// The tables once a run on `root` may record its progress.
    pub open spec fn opened(self, root: Seq<char>, resume_existing: bool) -> Tables {
        Tables {
            working_info: Some((MANIFEST_VERSION, root)),
            working_files: if resume_existing && info_fits(root, self.working_info) {
                self.working_files
            } else {
                Map::empty()
            },
            ..self
        }
    }

    /// The tables once the progress of a run on `root` has become the manifest.
    pub open spec fn committed(self, root: Seq<char>) -> Tables {
        Tables {
            info: Some((MANIFEST_VERSION, root)),
            files: self.working_files,
            working_info: None,
            working_files: Map::empty(),
        }
    }

    /// The tables without a working manifest.
    pub open spec fn discarded(self) -> Tables {
        Tables { working_info: None, working_files: Map::empty(), ..self }
    }
}

proof fn lemma_apply_push(tables: Tables, actions: Seq<ActionView>, action: ActionView)
    ensures
        tables.apply_all(actions.push(action)) == tables.apply_all(actions).apply(action),
{
    assert(actions.push(action).drop_last() =~= actions);
}

/// The statements that drop the working manifest: first what says whose it is, then its rows.
pub open spec fn clearing_actions() -> Seq<ActionView> {
    seq![ActionView::ClearWorkingInfo, ActionView::ClearWorkingFiles]
}

/// The statements that make the tables ready for the progress of a run on `root`: none where the
/// run takes the working manifest up, and otherwise those that drop it, and then the new info row.
pub open spec fn opening_actions(root: Seq<char>, keep: bool) -> Seq<ActionView> {
    if keep {
        Seq::empty()
    } else {
        clearing_actions().push(ActionView::PutWorkingInfo { version: MANIFEST_VERSION, root })
    }
}

/// The statements by which the progress of a run on `root` becomes the manifest.
pub open spec fn commit_actions(root: Seq<char>) -> Seq<ActionView> {
    seq![
        ActionView::PutInfo { version: MANIFEST_VERSION, root },
        ActionView::ClearFiles,
        ActionView::CopyWorkingFiles,
        ActionView::ClearWorkingInfo,
        ActionView::ClearWorkingFiles,
    ]
}

/// Wherever the statements that open or drop a working manifest are cut off, no info row stands
/// beside rows of an earlier run.
pub proof fn law_rows_never_pass_for_those_of_another_run(
    tables: Tables,
    root: Seq<char>,
    n: int,
)
    ensures
        0 < n <= opening_actions(root, false).len() ==> ({
            let after = tables.apply_all(opening_actions(root, false).take(n));
            after.working_info is None || after.working_files == Map::<
                Seq<char>,
                RowColumns,
            >::empty()
        }),
        0 < n <= clearing_actions().len() ==> tables.apply_all(
            clearing_actions().take(n),
        ).working_info is None,
{
    let first = seq![ActionView::ClearWorkingInfo];
    let put = ActionView::PutWorkingInfo { version: MANIFEST_VERSION, root };
    let opening = opening_actions(root, false);
    assert(first =~= Seq::empty().push(ActionView::ClearWorkingInfo));
    lemma_apply_push(tables, Seq::empty(), ActionView::ClearWorkingInfo);
    lemma_apply_push(tables, first, ActionView::ClearWorkingFiles);
    assert(clearing_actions() =~= first.push(ActionView::ClearWorkingFiles));
    lemma_apply_push(tables, clearing_actions(), put);
    assert(opening.take(1) =~= first);
    assert(opening.take(2) =~= clearing_actions());
    assert(opening.take(3) =~= opening);
    assert(clearing_actions().take(1) =~= first);
    assert(clearing_actions().take(2) =~= clearing_actions());
}

/// The statements that make the tables ready for the progress of a run on `root`. Where the run
/// takes up an unfinished one, `info` is what the info table of the working manifest holds.
pub fn open_working_manifest(root: &str, resume_existing: bool, info: &Option<(u32, String)>) -> (
actions: Vec<StoreAction>)
    ensures
        actions.deep_view() == opening_actions(
            root@,
            resume_existing && info_fits(root@, info_view(Ok(*info))->Ok_0),
        ),
        forall|tables: Tables|
            (resume_existing ==> tables.working_info == info_view(Ok(*info))->Ok_0)
                ==> #[trigger] tables.apply_all(actions.deep_view()) == tables.opened(
                root@,
                resume_existing,
            ),
{
    if working_manifest_needs_reset(resume_existing, info, root) {
        let actions: Vec<StoreAction> = vec![
            StoreAction::ClearWorkingInfo,
            StoreAction::ClearWorkingFiles,
            StoreAction::PutWorkingInfo { version: MANIFEST_VERSION, root: root.to_string() },
        ];
        proof {
            let first = seq![ActionView::ClearWorkingInfo];
            let second = first.push(ActionView::ClearWorkingFiles);
            let put = ActionView::PutWorkingInfo { version: MANIFEST_VERSION, root: root@ };
            assert(actions.deep_view() =~= second.push(put));
            assert(second =~= clearing_actions());
            assert forall|tables: Tables| #[trigger]
                tables.apply_all(actions.deep_view()) == (Tables {
                    working_info: Some((MANIFEST_VERSION, root@)),
                    working_files: Map::empty(),
                    ..tables
                }) by {
                assert(first =~= Seq::empty().push(ActionView::ClearWorkingInfo));
                lemma_apply_push(tables, Seq::empty(), ActionView::ClearWorkingInfo);
                lemma_apply_push(tables, first, ActionView::ClearWorkingFiles);
                lemma_apply_push(tables, second, put);
            }
        }
        actions
    } else {
        let actions: Vec<StoreAction> = Vec::new();
        assert(actions.deep_view() =~= Seq::<ActionView>::empty());
        assert forall|tables: Tables|
            tables.working_info == info_view(Ok(*info))->Ok_0 implies #[trigger] tables.apply_all(
            actions.deep_view(),
        ) == tables.opened(root@, true) by {
            assert(tables =~= tables.opened(root@, true));
        }
        actions
    }
}

/// The statement that records the entry of a path.
pub fn update_entry(path: &str, entry: &ManifestEntry) -> (action: Result<
    StoreAction,
    SearchxError,
>)
    ensures
        if storable(*entry) {
            action is Ok && action->Ok_0.deep_view() == (ActionView::PutWorkingFile {
                path: path@,
                columns: entry_columns(*entry),
            })
        } else {
            action is Err && is_overflow_error(action->Err_0, *entry)
        },
{
    match manifest_row(path, entry) {
        Ok(row) => Ok(StoreAction::PutWorkingFile { row }),
        Err(error) => Err(error),
    }
}

/// The error that an entry which cannot be stored gives.
pub open spec fn is_overflow_error(error: SearchxError, entry: ManifestEntry) -> bool {
    error matches SearchxError::ManifestIntegerOverflow { field, value } && if entry.size
        > i64::MAX {
        field@ == "size"@ && value == entry.size
    } else {
        field@ == "modified_secs"@ && value == entry.modified_secs
    }
}

/// The statement that records an update.
pub open spec fn update_action(update: ProgressView) -> ActionView {
    ActionView::PutWorkingFile { path: update.path, columns: entry_columns(update.entry) }
}

/// The first `n` updates can be stored.
pub open spec fn storable_up_to(updates: Seq<ProgressView>, n: int) -> bool {
    forall|i: int| 0 <= i < n ==> storable((#[trigger] updates[i]).entry)
}

/// The statements that record updates, in their order. An update that cannot be stored ends them:
/// the statements of those before it are to be run all the same, and then the error is to be
/// reported.
pub fn update_entries(updates: &Vec<ProgressUpdate>) -> (result: (
    Vec<StoreAction>,
    Option<SearchxError>,
))
    ensures
        result.0@.len() <= updates@.len(),
        storable_up_to(updates.deep_view(), result.0@.len() as int),
        result.0.deep_view() == updates.deep_view().take(result.0@.len() as int).map_values(
            |update: ProgressView| update_action(update),
        ),
        match result.1 {
            None => result.0@.len() == updates@.len(),
            Some(error) => {
                let n = result.0@.len() as int;
                &&& n < updates@.len()
                &&& !storable(updates@[n].entry)
                &&& is_overflow_error(error, updates@[n].entry)
            },
        },
{
    let mut actions: Vec<StoreAction> = Vec::new();
    let ghost all = updates.deep_view();
    for i in 0..updates.len()
        invariant
            all == updates.deep_view(),
            actions@.len() == i,
            storable_up_to(all, i as int),
            forall|j: int|
                0 <= j < i ==> (#[trigger] actions@[j]).deep_view() == update_action(all[j]),
    {
        let update = &updates[i];
        assert(all[i as int] == update@);
        match update_entry(update.path.as_str(), &update.entry) {
            Ok(action) => actions.push(action),
            Err(error) => {
                assert(actions.deep_view() =~= all.take(i as int).map_values(
                    |update: ProgressView| update_action(update),
                ));
                return (actions, Some(error));
            },
        }
    }
    assert(actions.deep_view() =~= all.take(actions@.len() as int).map_values(
        |update: ProgressView| update_action(update),
    ));
    (actions, None)
}

/// The statements, to be run as one, by which the progress of a run becomes the manifest.
pub fn commit_working_manifest(root: &str) -> (actions: Vec<StoreAction>)
    ensures
        actions.deep_view() == commit_actions(root@),
        forall|tables: Tables| #[trigger]
            tables.apply_all(actions.deep_view()) == tables.committed(root@),
{
    let actions: Vec<StoreAction> = vec![
        StoreAction::PutInfo { version: MANIFEST_VERSION, root: root.to_string() },
        StoreAction::ClearFiles,
        StoreAction::CopyWorkingFiles,
        StoreAction::ClearWorkingInfo,
        StoreAction::ClearWorkingFiles,
    ];
    proof {
        let put = ActionView::PutInfo { version: MANIFEST_VERSION, root: root@ };
        let a = Seq::empty().push(put);
        let b = a.push(ActionView::ClearFiles);
        let c = b.push(ActionView::CopyWorkingFiles);
        let d = c.push(ActionView::ClearWorkingInfo);
        assert(actions.deep_view() =~= d.push(ActionView::ClearWorkingFiles));
        assert forall|tables: Tables| #[trigger]
            tables.apply_all(actions.deep_view()) == tables.committed(root@) by {
            lemma_apply_push(tables, Seq::empty(), put);
            lemma_apply_push(tables, a, ActionView::ClearFiles);
            lemma_apply_push(tables, b, ActionView::CopyWorkingFiles);
            lemma_apply_push(tables, c, ActionView::ClearWorkingInfo);
            lemma_apply_push(tables, d, ActionView::ClearWorkingFiles);
            assert(tables.apply_all(actions.deep_view()) =~= tables.committed(root@));
        }
    }
    actions
}

/// The statements that drop the working manifest.
pub fn discard_working_manifest() -> (actions: Vec<StoreAction>)
    ensures
        actions.deep_view() == clearing_actions(),
        forall|tables: Tables| #[trigger]
            tables.apply_all(actions.deep_view()) == tables.discarded(),
{
    let actions: Vec<StoreAction> = vec![
        StoreAction::ClearWorkingInfo,
        StoreAction::ClearWorkingFiles,
    ];
    proof {
        let a = Seq::empty().push(ActionView::ClearWorkingInfo);
        assert(actions.deep_view() =~= a.push(ActionView::ClearWorkingFiles));
        assert forall|tables: Tables| #[trigger]
            tables.apply_all(actions.deep_view()) == tables.discarded() by {
            lemma_apply_push(tables, Seq::empty(), ActionView::ClearWorkingInfo);
            lemma_apply_push(tables, a, ActionView::ClearWorkingFiles);
        }
    }
    actions
}

/// The rows list a table: each of its paths once, with its columns.
pub open spec fn lists(
    rows: Seq<(Seq<char>, RowColumns)>,
    table: Map<Seq<char>, RowColumns>,
) -> bool {
    &&& forall|i: int|
        0 <= i < rows.len() ==> #[trigger] table.contains_key(rows[i].0) && table[rows[i].0]
            == rows[i].1
    &&& forall|i: int, j: int|
        0 <= i < j < rows.len() ==> (#[trigger] rows[i]).0 != (#[trigger] rows[j]).0
    &&& forall|path: Seq<char>|
        table.contains_key(path) ==> exists|i: int| 0 <= i < rows.len() && (#[trigger] rows[i]).0
            == path
}

/// The table in which entries are stored.
pub open spec fn entries_table(entries: Map<Seq<char>, ManifestEntry>) -> Map<
    Seq<char>,
    RowColumns,
> {
    entries.map_values(|entry: ManifestEntry| entry_columns(entry))
}

/// Every entry can be stored.
pub open spec fn all_storable(entries: Map<Seq<char>, ManifestEntry>) -> bool {
    forall|path: Seq<char>| entries.contains_key(path) ==> storable(#[trigger] entries[path])
}

/// However its rows are listed, a table reads back as the entries that were stored in it.
pub proof fn law_table_reads_back(
    entries: Map<Seq<char>, ManifestEntry>,
    rows: Seq<(Seq<char>, RowColumns)>,
)
    requires
        all_storable(entries),
        lists(rows, entries_table(entries)),
    ensures
        rows_files(rows) == Ok::<Map<Seq<char>, ManifestEntry>, Seq<char>>(entries),
{
    lemma_rows_read(entries, rows, rows.len() as int);
    let read = rows_files(rows)->Ok_0;
    assert(rows.take(rows.len() as int) =~= rows);
    assert forall|path: Seq<char>| entries.contains_key(path) implies read.contains_key(path) by {
        assert(entries_table(entries).contains_key(path));
        let i = choose|i: int| 0 <= i < rows.len() && (#[trigger] rows[i]).0 == path;
        assert(read.contains_key(rows[i].0));
    }
    assert(read =~= entries);
}

proof fn lemma_rows_read(
    entries: Map<Seq<char>, ManifestEntry>,
    rows: Seq<(Seq<char>, RowColumns)>,
    n: int,
)
    requires
        all_storable(entries),
        lists(rows, entries_table(entries)),
        0 <= n <= rows.len(),
    ensures
        rows_files(rows.take(n)) is Ok,
        forall|i: int|
            0 <= i < n ==> rows_files(rows.take(n))->Ok_0.contains_key((#[trigger] rows[i]).0),
        forall|path: Seq<char>| #[trigger]
            rows_files(rows.take(n))->Ok_0.contains_key(path) ==> entries.contains_key(path)
                && rows_files(rows.take(n))->Ok_0[path] == entries[path],
    decreases n,
{
    if n > 0 {
        lemma_rows_read(entries, rows, n - 1);
        let taken = rows.take(n);
        assert(taken.drop_last() =~= rows.take(n - 1));
        assert(taken.last() == rows[n - 1]);
        let path = rows[n - 1].0;
        assert(entries_table(entries).contains_key(path));
        law_entry_columns_read_back(entries[path]);
    }
}

/// The facts of a store whose manifest file can be opened and whose tables hold `tables`.
pub open spec fn reads(tables: Tables, facts: StoreFacts) -> bool {
    &&& facts.manifest_exists
    &&& facts.manifest_exists_again
    &&& facts.opened is Ok
    &&& facts.reopened is Ok
    &&& facts.info == Ok::<Option<(u32, Seq<char>)>, Seq<char>>(tables.info)
    &&& facts.working_info == Ok::<Option<(u32, Seq<char>)>, Seq<char>>(tables.working_info)
    &&& exists|rows: Seq<(Seq<char>, RowColumns)>| #[trigger]
        lists(rows, tables.files) && facts.files == rows_files(rows)
    &&& exists|rows: Seq<(Seq<char>, RowColumns)>| #[trigger]
        lists(rows, tables.working_files) && facts.working_files == rows_files(rows)
}

/// After a commit a run starts from the entries that were recorded before it, whatever the
/// manifest held earlier, and nothing is rebuilt.
pub proof fn law_load_after_commit(
    tables: Tables,
    root: Seq<char>,
    entries: Map<Seq<char>, ManifestEntry>,
    facts: StoreFacts,
)
    requires
        all_storable(entries),
        tables.working_files == entries_table(entries),
        reads(tables.committed(root), facts),
    ensures
        expected_load(root, false, facts) == (LoadView {
            manifest: ManifestView { version: MANIFEST_VERSION, root, files: entries },
            rebuild_reason: None,
            resume_from_incomplete: false,
        }),
{
    let after = tables.committed(root);
    let rows = choose|rows: Seq<(Seq<char>, RowColumns)>| #[trigger]
        lists(rows, after.files) && facts.files == rows_files(rows);
    law_table_reads_back(entries, rows);
}

/// While no run is marked as unfinished, what the working manifest holds is not seen.
pub proof fn law_uncommitted_progress_is_not_seen(
    root: Seq<char>,
    force_rebuild: bool,
    facts: StoreFacts,
    other: StoreFacts,
)
    requires
        !facts.marker_exists,
        other == (StoreFacts {
            manifest_exists_again: other.manifest_exists_again,
            reopened: other.reopened,
            working_info: other.working_info,
            working_files: other.working_files,
            ..facts
        }),
    ensures
        expected_load(root, force_rebuild, facts) == expected_load(root, force_rebuild, other),
{
}

/// A run that follows an unfinished one starts from the manifest, with the entries that the
/// unfinished run recorded put over it.
pub proof fn law_unfinished_run_is_resumed(
    tables: Tables,
    root: Seq<char>,
    entries: Map<Seq<char>, ManifestEntry>,
    recorded: Map<Seq<char>, ManifestEntry>,
    facts: StoreFacts,
)
    requires
        all_storable(entries),
        all_storable(recorded),
        tables.info == Some((MANIFEST_VERSION, root)),
        tables.files == entries_table(entries),
        tables.working_info == Some((MANIFEST_VERSION, root)),
        tables.working_files == entries_table(recorded),
        reads(tables, facts),
        facts.marker_exists,
    ensures
        expected_load(root, false, facts) == (LoadView {
            manifest: ManifestView {
                version: MANIFEST_VERSION,
                root,
                files: entries.union_prefer_right(recorded),
            },
            rebuild_reason: None,
            resume_from_incomplete: true,
        }),
{
    let rows = choose|rows: Seq<(Seq<char>, RowColumns)>| #[trigger]
        lists(rows, tables.files) && facts.files == rows_files(rows);
    law_table_reads_back(entries, rows);
    let working = choose|rows: Seq<(Seq<char>, RowColumns)>| #[trigger]
        lists(rows, tables.working_files) && facts.working_files == rows_files(rows);
    law_table_reads_back(recorded, working);
}

/// Opening the working manifest, recording progress in it and dropping it all leave the manifest
/// as it is.
pub proof fn law_manifest_stays_until_commit(
    tables: Tables,
    root: Seq<char>,
    resume: bool,
    path: Seq<char>,
    columns: RowColumns,
)
    ensures
        tables.apply(ActionView::PutWorkingFile { path, columns }).info == tables.info,
        tables.apply(ActionView::PutWorkingFile { path, columns }).files == tables.files,
        tables.opened(root, resume).info == tables.info,
        tables.opened(root, resume).files == tables.files,
        tables.discarded().info == tables.info,
        tables.discarded().files == tables.files,
{
}

/// The entries after updates, the last one of a path counting.
pub open spec fn updated(
    entries: Map<Seq<char>, ManifestEntry>,
    updates: Seq<ProgressView>,
) -> Map<Seq<char>, ManifestEntry>
    decreases updates.len(),
{
    if updates.len() == 0 {
        entries
    } else {
        updated(entries, updates.drop_last()).insert(updates.last().path, updates.last().entry)
    }
}

/// Of the updates of a path the last one counts.
pub proof fn law_last_update_counts(
    entries: Map<Seq<char>, ManifestEntry>,
    updates: Seq<ProgressView>,
    i: int,
)
    requires
        0 <= i < updates.len(),
        forall|j: int| i < j < updates.len() ==> (#[trigger] updates[j]).path != updates[i].path,
    ensures
        updated(entries, updates).contains_key(updates[i].path),
        updated(entries, updates)[updates[i].path] == updates[i].entry,
    decreases updates.len(),
{
    if i < updates.len() - 1 {
        let rest = updates.drop_last();
        assert(updates[updates.len() - 1].path != updates[i].path);
        assert forall|j: int| i < j < rest.len() implies (#[trigger] rest[j]).path
            != rest[i].path by {
            assert(rest[j] == updates[j]);
        }
        law_last_update_counts(entries, rest, i);
    }
}

/// Recorded updates are what the working manifest then holds, the last one of a path counting, and
/// nothing else changes.
pub proof fn law_updates_are_recorded(
    tables: Tables,
    entries: Map<Seq<char>, ManifestEntry>,
    updates: Seq<ProgressView>,
)
    requires
        all_storable(entries),
        tables.working_files == entries_table(entries),
        storable_up_to(updates, updates.len() as int),
    ensures
        tables.apply_all(updates.map_values(|update: ProgressView| update_action(update))) == (
        Tables { working_files: entries_table(updated(entries, updates)), ..tables }),
        all_storable(updated(entries, updates)),
    decreases updates.len(),
{
    let actions = updates.map_values(|update: ProgressView| update_action(update));
    if updates.len() == 0 {
        assert(tables.apply_all(actions) =~= tables);
    } else {
        let rest = updates.drop_last();
        assert forall|i: int| 0 <= i < rest.len() implies storable((#[trigger] rest[i]).entry) by {
            assert(rest[i] == updates[i]);
        }
        law_updates_are_recorded(tables, entries, rest);
        assert(actions.drop_last() =~= rest.map_values(
            |update: ProgressView| update_action(update),
        ));
        assert(storable(updates[updates.len() - 1].entry));
        assert(tables.apply_all(actions).working_files =~= entries_table(
            updated(entries, updates),
        ));
        assert(tables.apply_all(actions) =~= (Tables {
            working_files: entries_table(updated(entries, updates)),
            ..tables
        }));
    }
}

/// What a run records from its start to its end is what the next run starts from: the updates, the
/// last one of a path counting, and nothing that the manifest held before.
pub proof fn law_finished_run_reads_back(
    tables: Tables,
    root: Seq<char>,
    updates: Seq<ProgressView>,
    facts: StoreFacts,
)
    requires
        storable_up_to(updates, updates.len() as int),
        reads(
            tables.opened(root, false).apply_all(
                updates.map_values(|update: ProgressView| update_action(update)),
            ).committed(root),
            facts,
        ),
    ensures
        expected_load(root, false, facts) == (LoadView {
            manifest: ManifestView {
                version: MANIFEST_VERSION,
                root,
                files: updated(Map::empty(), updates),
            },
            rebuild_reason: None,
            resume_from_incomplete: false,
        }),
{
    let opened = tables.opened(root, false);
    assert(opened.working_files =~= entries_table(Map::empty()));
    law_updates_are_recorded(opened, Map::empty(), updates);
    law_load_after_commit(
        opened.apply_all(updates.map_values(|update: ProgressView| update_action(update))),
        root,
        updated(Map::empty(), updates),
        facts,
    );
}

/// A run that follows an unfinished first one, of which nothing has been committed yet, starts from
/// the entries that the unfinished run recorded.
pub proof fn law_unfinished_first_run_is_resumed(
    tables: Tables,
    root: Seq<char>,
    recorded: Map<Seq<char>, ManifestEntry>,
    facts: StoreFacts,
)
    requires
        all_storable(recorded),
        tables.info is None,
        tables.working_info == Some((MANIFEST_VERSION, root)),
        tables.working_files == entries_table(recorded),
        reads(tables, facts),
        facts.marker_exists,
    ensures
        expected_load(root, false, facts) == (LoadView {
            manifest: ManifestView { version: MANIFEST_VERSION, root, files: recorded },
            rebuild_reason: None,
            resume_from_incomplete: true,
        }),
{
    let working = choose|rows: Seq<(Seq<char>, RowColumns)>| #[trigger]
        lists(rows, tables.working_files) && facts.working_files == rows_files(rows);
    law_table_reads_back(recorded, working);
}

/// What a run that takes up an unfinished one records, put over what the unfinished one recorded,
/// is what the next run starts from.
pub proof fn law_resumed_run_reads_back(
    tables: Tables,
    root: Seq<char>,
    recorded: Map<Seq<char>, ManifestEntry>,
    updates: Seq<ProgressView>,
    facts: StoreFacts,
)
    requires
        all_storable(recorded),
        tables.working_info == Some((MANIFEST_VERSION, root)),
        tables.working_files == entries_table(recorded),
        storable_up_to(updates, updates.len() as int),
        reads(
            tables.opened(root, true).apply_all(
                updates.map_values(|update: ProgressView| update_action(update)),
            ).committed(root),
            facts,
        ),
    ensures
        expected_load(root, false, facts) == (LoadView {
            manifest: ManifestView {
                version: MANIFEST_VERSION,
                root,
                files: updated(recorded, updates),
            },
            rebuild_reason: None,
            resume_from_incomplete: false,
        }),
{
    let opened = tables.opened(root, true);
    law_updates_are_recorded(opened, recorded, updates);
    law_load_after_commit(
        opened.apply_all(updates.map_values(|update: ProgressView| update_action(update))),
        root,
        updated(recorded, updates),
        facts,
    );
}

/// After the statements of a commit the manifest is that of the run: its root, and exactly the rows
/// that it recorded. Nothing of the run is left beside it.
pub proof fn law_commit_makes_the_recorded_rows_the_manifest(tables: Tables, root: Seq<char>)
    ensures
        ({
            let after = tables.apply_all(commit_actions(root));
            &&& after.info == Some((MANIFEST_VERSION, root))
            &&& after.files == tables.working_files
            &&& after.working_info is None
            &&& after.working_files == Map::<Seq<char>, RowColumns>::empty()
            &&& after == tables.committed(root)
        }),
{
    let put = ActionView::PutInfo { version: MANIFEST_VERSION, root };
    let a = Seq::empty().push(put);
    let b = a.push(ActionView::ClearFiles);
    let c = b.push(ActionView::CopyWorkingFiles);
    let d = c.push(ActionView::ClearWorkingInfo);
    assert(commit_actions(root) =~= d.push(ActionView::ClearWorkingFiles));
    lemma_apply_push(tables, Seq::empty(), put);
    lemma_apply_push(tables, a, ActionView::ClearFiles);
    lemma_apply_push(tables, b, ActionView::CopyWorkingFiles);
    lemma_apply_push(tables, c, ActionView::ClearWorkingInfo);
    lemma_apply_push(tables, d, ActionView::ClearWorkingFiles);
    assert(tables.apply_all(commit_actions(root)).files =~= tables.working_files);
}

/// A run that takes no unfinished one up begins with an empty working manifest of its root; one that
/// does keeps the rows that were recorded on the same root. Dropping a working manifest leaves
/// nothing of it. The manifest itself stays as it is in all cases.
pub proof fn law_working_manifest_begins_empty_unless_taken_up(
    tables: Tables,
    root: Seq<char>,
    resume_existing: bool,
)
    ensures
        ({
            let fresh = tables.apply_all(opening_actions(root, false));
            let kept = tables.apply_all(opening_actions(root, true));
            let dropped = tables.apply_all(clearing_actions());
            let opened = tables.opened(root, resume_existing);
            &&& fresh.working_info == Some((MANIFEST_VERSION, root))
            &&& fresh.working_files == Map::<Seq<char>, RowColumns>::empty()
            &&& fresh.info == tables.info && fresh.files == tables.files
            &&& kept == tables
            &&& dropped.working_info is None
            &&& dropped.working_files == Map::<Seq<char>, RowColumns>::empty()
            &&& dropped.info == tables.info && dropped.files == tables.files
            &&& opened.working_info == Some((MANIFEST_VERSION, root))
            &&& resume_existing && tables.working_info == Some((MANIFEST_VERSION, root))
                ==> opened == tables
            &&& !(resume_existing && tables.working_info == Some((MANIFEST_VERSION, root)))
                ==> opened == fresh
        }),
{
    let first = seq![ActionView::ClearWorkingInfo];
    let put = ActionView::PutWorkingInfo { version: MANIFEST_VERSION, root };
    assert(first =~= Seq::empty().push(ActionView::ClearWorkingInfo));
    lemma_apply_push(tables, Seq::empty(), ActionView::ClearWorkingInfo);
    lemma_apply_push(tables, first, ActionView::ClearWorkingFiles);
    assert(clearing_actions() =~= first.push(ActionView::ClearWorkingFiles));
    lemma_apply_push(tables, clearing_actions(), put);
    assert(opening_actions(root, true) =~= Seq::empty());
}

/// The statement that records an update puts its own figures and its own state under its own path.
pub proof fn law_update_is_recorded_under_its_path(tables: Tables, update: ProgressView)
    requires
        storable(update.entry),
    ensures
        ({
            let after = tables.apply(update_action(update));
            &&& after.working_files.dom() == tables.working_files.dom().insert(update.path)
            &&& after.working_files[update.path].size == update.entry.size
            &&& after.working_files[update.path].modified_secs == update.entry.modified_secs
            &&& after.working_files[update.path].modified_nanos == update.entry.modified_nanos
            &&& columns_entry(after.working_files[update.path]) == Ok::<
                ManifestEntry,
                Seq<char>,
            >(update.entry)
            &&& forall|path: Seq<char>|
                path != update.path && tables.working_files.contains_key(path)
                    ==> #[trigger] after.working_files[path] == tables.working_files[path]
        }),
{
    law_entry_columns_read_back(update.entry);
}

/// What no update speaks of stays as it was.
pub proof fn law_other_entries_stay(
    entries: Map<Seq<char>, ManifestEntry>,
    updates: Seq<ProgressView>,
    path: Seq<char>,
)
    requires
        forall|i: int| 0 <= i < updates.len() ==> (#[trigger] updates[i]).path != path,
    ensures
        updated(entries, updates).contains_key(path) == entries.contains_key(path),
        entries.contains_key(path) ==> updated(entries, updates)[path] == entries[path],
    decreases updates.len(),
{
    if updates.len() > 0 {
        assert(updates[updates.len() - 1].path != path);
        assert forall|i: int| 0 <= i < updates.drop_last().len() implies (
        #[trigger] updates.drop_last()[i]).path != path by {
            assert(updates.drop_last()[i] == updates[i]);
        }
        law_other_entries_stay(entries, updates.drop_last(), path);
    }
}

/// An update can be stored exactly where size and seconds fit a database integer; the error of one
/// that cannot names the field that is too large and its value.
pub proof fn law_only_too_large_figures_cannot_be_stored(error: SearchxError, entry: ManifestEntry)
    ensures
        storable(entry) <==> entry.size < 0x8000_0000_0000_0000 && entry.modified_secs
            < 0x8000_0000_0000_0000,
        is_overflow_error(error, entry) && !storable(entry) ==> (
        error matches SearchxError::ManifestIntegerOverflow { field, value } && value
            >= 0x8000_0000_0000_0000 && ((field@ == "size"@ && value == entry.size) || (field@
            == "modified_secs"@ && value == entry.modified_secs && entry.size
            < 0x8000_0000_0000_0000))),
{
}

/// The statements that open a working manifest leave it ready for a run on its root: with the rows of
/// an unfinished run where that is taken up, and otherwise empty.
pub proof fn law_opened_working_manifest_is_ready(
    root: &str,
    resume_existing: bool,
    info: Option<(u32, String)>,
    actions: Vec<StoreAction>,
    tables: Tables,
)
    requires
        call_ensures(open_working_manifest, (root, resume_existing, &info), actions),
        info is None <==> tables.working_info is None,
        info matches Some((version, stored)) ==> tables.working_info == Some((version, stored@)),
    ensures
        ({
            let after = tables.apply_all(actions.deep_view());
            let taken_up = resume_existing && tables.working_info == Some(
                (MANIFEST_VERSION, root@),
            );
            &&& after.working_info == Some((MANIFEST_VERSION, root@))
            &&& taken_up ==> after.working_files == tables.working_files
            &&& !taken_up ==> after.working_files == Map::<Seq<char>, RowColumns>::empty()
            &&& after.info == tables.info
            &&& after.files == tables.files
        }),
{
    law_working_manifest_begins_empty_unless_taken_up(tables, root@, resume_existing);
}

/// The statements of a commit make the rows of the working manifest the manifest of the root, and
/// those that drop it leave nothing of it.
pub proof fn law_working_manifest_is_committed_or_dropped(
    root: &str,
    committing: Vec<StoreAction>,
    dropping: Vec<StoreAction>,
    tables: Tables,
)
    requires
        call_ensures(commit_working_manifest, (root,), committing),
        call_ensures(discard_working_manifest, (), dropping),
    ensures
        ({
            let after = tables.apply_all(committing.deep_view());
            &&& after.info == Some((MANIFEST_VERSION, root@))
            &&& after.files == tables.working_files
            &&& after.working_info is None
            &&& after.working_files == Map::<Seq<char>, RowColumns>::empty()
        }),
        ({
            let after = tables.apply_all(dropping.deep_view());
            &&& after.info == tables.info
            &&& after.files == tables.files
            &&& after.working_info is None
            &&& after.working_files == Map::<Seq<char>, RowColumns>::empty()
        }),
{
    law_commit_makes_the_recorded_rows_the_manifest(tables, root@);
    law_working_manifest_begins_empty_unless_taken_up(tables, root@, false);
}

/// The statement that records an entry puts it under its path, so that it is read back from there,
/// and touches nothing else.
pub proof fn law_recorded_entry_is_read_back(
    path: &str,
    entry: ManifestEntry,
    action: Result<StoreAction, SearchxError>,
    tables: Tables,
    other: Seq<char>,
)
    requires
        call_ensures(update_entry, (path, &entry), action),
    ensures
        action is Ok <==> entry.size < 0x8000_0000_0000_0000 && entry.modified_secs
            < 0x8000_0000_0000_0000,
        action matches Ok(action) ==> ({
            let after = tables.apply(action.deep_view());
            &&& after.working_files.contains_key(path@)
            &&& columns_entry(after.working_files[path@]) == Ok::<
                ManifestEntry,
                Seq<char>,
            >(entry)
            &&& other != path@ ==> after.working_files.contains_key(other)
                == tables.working_files.contains_key(other)
            &&& other != path@ && tables.working_files.contains_key(other)
                ==> after.working_files[other] == tables.working_files[other]
            &&& after.info == tables.info && after.files == tables.files && after.working_info
                == tables.working_info
        }),
{
    if storable(entry) {
        law_entry_columns_read_back(entry);
    }
}

/// Updates are recorded in their order, each by its own statement, up to the first that cannot be
/// stored; all of them where there is no such.
pub proof fn law_updates_are_recorded_in_their_order(
    updates: Vec<ProgressUpdate>,
    result: (Vec<StoreAction>, Option<SearchxError>),
    i: int,
)
    requires
        call_ensures(update_entries, (&updates,), result),
        0 <= i < result.0@.len(),
    ensures
        result.0@.len() <= updates@.len(),
        result.1 is None <==> result.0@.len() == updates@.len(),
        result.0@[i].deep_view() matches ActionView::PutWorkingFile { path, columns } && path
            == updates@[i].path@ && columns_entry(columns) == Ok::<
            ManifestEntry,
            Seq<char>,
        >(updates@[i].entry),
{
    let n = result.0@.len() as int;
    let all = updates.deep_view();
    assert(result.0.deep_view()[i] == result.0@[i].deep_view());
    assert(all[i] == updates@[i]@);
    assert(all.take(n)[i] == all[i]);
    assert(result.0.deep_view()[i] == update_action(all[i]));
    assert(storable(all[i].entry));
    law_entry_columns_read_back(all[i].entry);
}

/// Each file of a data directory has its own name below it, and the data directory is taken from the
/// current one.
pub proof fn law_data_files_have_their_names(
    current_dir: &Path,
    data_dir: &Path,
    paths: DataPaths,
    data_file: PathBuf,
)
    requires
        call_ensures(data_paths, (current_dir, data_dir), paths),
        call_ensures(index_data_file, (&paths,), data_file),
    ensures
        ({
            let base = joined(path_bytes(current_dir), path_bytes(data_dir));
            &&& path_buf_bytes(&paths.base) == base
            &&& path_buf_bytes(&paths.index) == joined(base, encode_utf8("index"@))
            &&& path_buf_bytes(&paths.manifest) == joined(
                base,
                encode_utf8("manifest.sqlite3"@),
            )
            &&& path_buf_bytes(&paths.incomplete_marker) == joined(
                base,
                encode_utf8("indexing-incomplete"@),
            )
            &&& path_buf_bytes(&data_file) == joined(
                path_buf_bytes(&paths.index),
                encode_utf8("data.mdb"@),
            )
        }),
{
}

} // verus!
