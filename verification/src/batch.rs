//! Batches: the changes gathered before they are put into the index together.

use crate::constants::{
    INDEX_BATCH_BYTE_LIMIT, INDEX_BATCH_DELETE_LIMIT, INDEX_BATCH_DOC_LIMIT,
    MANIFEST_BATCH_ENTRY_LIMIT,
};
use crate::document::single_line;
use crate::error::SearchxError;
use crate::scan::{EventView, IndexEvent, ProgressUpdate, ProgressView};
use crate::text::{
    join_lines, law_each_line_stands_in_its_place, lemma_text_less_irreflexive, lines_text,
};
use crate::text_map::{ascending_keys, lemma_ordered_keys, ordered_keys, TextMap};
use vstd::prelude::*;
use vstd::utf8::*;

verus! {

/// A batch as maps and lists.
#[verifier::ext_equal]
pub struct BatchView {
    /// The documents to put into the index, by their ids.
    pub upserts: Map<Seq<char>, Seq<char>>,
    /// The ids of the documents to take out of it.
    pub deleted: Set<Seq<char>>,
    /// The entries to record, in order.
    pub progress: Seq<ProgressView>,
}

/// A batch without changes.
pub open spec fn empty_batch() -> BatchView {
    BatchView { upserts: Map::empty(), deleted: Set::empty(), progress: Seq::empty() }
}

/// A list with one more update, where there is one.
pub open spec fn with_update(
    progress: Seq<ProgressView>,
    update: Option<ProgressView>,
) -> Seq<ProgressView> {
    match update {
        Some(update) => progress.push(update),
        None => progress,
    }
}

impl BatchView {
    /// The batch with one more change: a change of a document replaces an earlier one.
    pub open spec fn with(self, event: EventView) -> BatchView {
        match event {
            EventView::Upsert { document_id, document, progress } => BatchView {
                upserts: self.upserts.insert(document_id, document),
                deleted: self.deleted.remove(document_id),
                progress: with_update(self.progress, progress),
            },
            EventView::Delete { document_id, progress } => BatchView {
                upserts: self.upserts.remove(document_id),
                deleted: self.deleted.insert(document_id),
                progress: with_update(self.progress, progress),
            },
            EventView::Progress(update) => BatchView {
                progress: self.progress.push(update),
                ..self
            },
        }
    }

    /// The batch with more changes.
    pub open spec fn with_all(self, events: Seq<EventView>) -> BatchView
        decreases events.len(),
    {
        if events.len() == 0 {
            self
        } else {
            self.with_all(events.drop_last()).with(events.last())
        }
    }

    /// No document is both put in and taken out.
    pub open spec fn consistent(self) -> bool {
        self.upserts.dom().disjoint(self.deleted)
    }

    /// The batch changes the index.
    pub open spec fn changes_index(self) -> bool {
        self.upserts != Map::<Seq<char>, Seq<char>>::empty() || self.deleted != Set::<
            Seq<char>,
        >::empty()
    }

    /// What an index holds after the batch, documents by their ids.
    pub open spec fn applied_to(self, index: Map<Seq<char>, Seq<char>>) -> Map<
        Seq<char>,
        Seq<char>,
    > {
        index.remove_keys(self.deleted).union_prefer_right(self.upserts)
    }
}

/// What an index holds after one change.
pub open spec fn index_after(index: Map<Seq<char>, Seq<char>>, event: EventView) -> Map<
    Seq<char>,
    Seq<char>,
> {
    match event {
        EventView::Upsert { document_id, document, .. } => index.insert(document_id, document),
        EventView::Delete { document_id, .. } => index.remove(document_id),
        EventView::Progress(_) => index,
    }
}

/// What an index holds after changes, one after the other.
pub open spec fn index_after_all(
    index: Map<Seq<char>, Seq<char>>,
    events: Seq<EventView>,
) -> Map<Seq<char>, Seq<char>>
    decreases events.len(),
{
    if events.len() == 0 {
        index
    } else {
        index_after(index_after_all(index, events.drop_last()), events.last())
    }
}

/// A batch changes an index as its changes would one after the other.
pub proof fn law_batch_applies_like_its_events(
    index: Map<Seq<char>, Seq<char>>,
    events: Seq<EventView>,
)
    ensures
        empty_batch().with_all(events).applied_to(index) == index_after_all(index, events),
    decreases events.len(),
{
    if events.len() == 0 {
        assert(empty_batch().applied_to(index) =~= index);
    } else {
        law_batch_applies_like_its_events(index, events.drop_last());
        assert(empty_batch().with_all(events).applied_to(index) =~= index_after_all(index, events));
    }
}

/// Where a list of changes is cut into batches makes no difference to the index.
pub proof fn law_cutting_batches_is_free(
    index: Map<Seq<char>, Seq<char>>,
    first: Seq<EventView>,
    second: Seq<EventView>,
)
    ensures
        empty_batch().with_all(second).applied_to(
            empty_batch().with_all(first).applied_to(index),
        ) == empty_batch().with_all(first + second).applied_to(index),
{
    law_batch_applies_like_its_events(index, first);
    law_batch_applies_like_its_events(index_after_all(index, first), second);
    law_batch_applies_like_its_events(index, first + second);
    lemma_index_after_concat(index, first, second);
}

/// Changes made in two parts are made as in one.
pub proof fn lemma_index_after_concat(
    index: Map<Seq<char>, Seq<char>>,
    first: Seq<EventView>,
    second: Seq<EventView>,
)
    ensures
        index_after_all(index_after_all(index, first), second) == index_after_all(
            index,
            first + second,
        ),
    decreases second.len(),
{
    if second.len() == 0 {
        assert(first + second =~= first);
    } else {
        lemma_index_after_concat(index, first, second.drop_last());
        assert((first + second).drop_last() =~= first + second.drop_last());
    }
}

/// Whether the documents of a batch are put in before others are taken out, or after, makes no
/// difference.
pub proof fn law_order_within_a_batch_is_free(
    batch: BatchView,
    index: Map<Seq<char>, Seq<char>>,
)
    requires
        batch.consistent(),
    ensures
        batch.applied_to(index) == index.union_prefer_right(batch.upserts).remove_keys(
            batch.deleted,
        ),
{
    assert(batch.applied_to(index) =~= index.union_prefer_right(batch.upserts).remove_keys(
        batch.deleted,
    ));
}

/// A change keeps a batch consistent.
pub proof fn law_batch_stays_consistent(batch: BatchView, event: EventView)
    requires
        batch.consistent(),
    ensures
        batch.with(event).consistent(),
{
}

/// The bytes of a text in UTF-8.
pub open spec fn byte_len(text: Seq<char>) -> nat {
    encode_utf8(text).len()
}

fn size_of_text(text: &str) -> (size: usize)
    ensures
        size == byte_len(text@),
{
    text.as_bytes().len()
}

/// The bytes of all documents of a map.
pub open spec fn total_bytes(documents: Map<Seq<char>, Seq<char>>) -> nat
    decreases documents.dom().len(),
    when documents.dom().finite()
{
    if documents.dom().len() == 0 {
        0
    } else {
        let key = documents.dom().choose();
        total_bytes(documents.remove(key)) + byte_len(documents[key])
    }
}

proof fn lemma_total_remove(documents: Map<Seq<char>, Seq<char>>, key: Seq<char>)
    requires
        documents.dom().finite(),
        documents.contains_key(key),
    ensures
        total_bytes(documents) == total_bytes(documents.remove(key)) + byte_len(documents[key]),
    decreases documents.dom().len(),
{
    let chosen = documents.dom().choose();
    assert(documents.dom().contains(chosen));
    if chosen != key {
        lemma_total_remove(documents.remove(chosen), key);
        lemma_total_remove(documents.remove(key), chosen);
        assert(documents.remove(chosen).remove(key) =~= documents.remove(key).remove(chosen));
    }
}

/// Each document is one that a machine can hold.
spec fn documents_fit(documents: Map<Seq<char>, Seq<char>>) -> bool {
    forall|key: Seq<char>| #[trigger]
        documents.contains_key(key) ==> byte_len(documents[key]) <= usize::MAX
}

proof fn lemma_total_fits(documents: Map<Seq<char>, Seq<char>>)
    requires
        documents.dom().finite(),
        documents.dom().len() <= usize::MAX,
        documents_fit(documents),
    ensures
        total_bytes(documents) <= usize::MAX * usize::MAX,
        usize::MAX * usize::MAX <= u128::MAX,
{
    lemma_total_bound(documents);
    let n = documents.dom().len() as int;
    assert(n * usize::MAX <= usize::MAX * usize::MAX) by (nonlinear_arith)
        requires
            0 <= n <= usize::MAX,
    ;
    assert(usize::MAX * usize::MAX <= u128::MAX) by (nonlinear_arith)
        requires
            usize::MAX <= 0xffff_ffff_ffff_ffff,
    ;
}

proof fn lemma_total_bound(documents: Map<Seq<char>, Seq<char>>)
    requires
        documents.dom().finite(),
        documents_fit(documents),
    ensures
        total_bytes(documents) <= documents.dom().len() * usize::MAX,
    decreases documents.dom().len(),
{
    if documents.dom().len() > 0 {
        let key = documents.dom().choose();
        assert(documents.dom().contains(key));
        let rest = documents.remove(key);
        assert forall|k: Seq<char>| #[trigger] rest.contains_key(k) implies byte_len(rest[k])
            <= usize::MAX by {
            assert(documents.contains_key(k));
        }
        lemma_total_bound(rest);
        let n = rest.dom().len() as int;
        assert((n + 1) * usize::MAX == n * usize::MAX + usize::MAX) by (nonlinear_arith);
    }
}

/// Changes that wait to be put into the index together.
#[derive(Debug)]
pub struct PendingIndexBatch {
    upserts: TextMap<String>,
    deleted_ids: TextMap<()>,
    progress_updates: Vec<ProgressUpdate>,
    bytes: u128,
}

/// The documents of a map as text.
pub open spec fn texts(documents: Map<Seq<char>, String>) -> Map<Seq<char>, Seq<char>> {
    documents.map_values(|document: String| document@)
}

impl View for PendingIndexBatch {
    type V = BatchView;

    closed spec fn view(&self) -> BatchView {
        BatchView {
            upserts: texts(self.upserts@),
            deleted: self.deleted_ids@.dom(),
            progress: self.progress_updates.deep_view(),
        }
    }
}

/// The documents of `lines` are those of `upserts`, in ascending order of their ids.
pub open spec fn lists_documents(
    lines: Seq<Seq<char>>,
    upserts: Map<Seq<char>, Seq<char>>,
) -> bool {
    exists|ids: Seq<Seq<char>>| #[trigger]
        ascending_keys(ids, upserts.dom()) && lines == ids.map_values(
            |id: Seq<char>| upserts[id],
        )
}

/// What is to be put into the index: the documents, one a line, where there are any, and the ids
/// of the documents to take out.
#[derive(Debug)]
pub struct IndexChange {
    pub payload: Option<String>,
    pub deleted_ids: Vec<String>,
}

/// What the index is to be given for documents and for ids of documents to take out; nothing where
/// there are neither.
pub fn index_change(upserts: &Vec<String>, deleted_ids: Vec<String>) -> (change: Option<
    IndexChange,
>)
    ensures
        change is None == (upserts@.len() == 0 && deleted_ids@.len() == 0),
        change matches Some(change) ==> {
            &&& change.payload is None == (upserts@.len() == 0)
            &&& change.payload matches Some(payload) ==> payload@ == lines_text(
                upserts.deep_view(),
            )
            &&& change.deleted_ids == deleted_ids
        },
{
    if upserts.len() == 0 && deleted_ids.len() == 0 {
        return None;
    }
    let payload: Option<String> = if upserts.len() == 0 {
        None
    } else {
        Some(join_lines(upserts))
    };
    Some(IndexChange { payload, deleted_ids })
}

/// The first error that the operations on an index report.
pub fn first_operation_error(errors: Vec<Option<String>>) -> (result: Result<(), SearchxError>)
    ensures
        match result {
            Ok(()) => forall|i: int| 0 <= i < errors@.len() ==> (#[trigger] errors@[i]) is None,
            Err(error) => exists|i: int|
                0 <= i < errors@.len() && (#[trigger] errors@[i]) is Some && (forall|j: int|
                    0 <= j < i ==> (#[trigger] errors@[j]) is None) && (
                error matches SearchxError::Milli { message } && message@
                    == errors@[i]->Some_0@),
        },
{
    for i in 0..errors.len()
        invariant
            forall|j: int| 0 <= j < i ==> (#[trigger] errors@[j]) is None,
    {
        if let Some(message) = &errors[i] {
            assert(errors@[i as int] is Some);
            return Err(SearchxError::Milli { message: message.clone() });
        }
    }
    Ok(())
}

impl PendingIndexBatch {
    /// The bytes counted are those of the documents, and no document is both put in and taken out.
    pub closed spec fn wf(&self) -> bool {
        &&& self.upserts@.dom().finite()
        &&& self.deleted_ids@.dom().finite()
        &&& self.bytes == total_bytes(self@.upserts)
        &&& documents_fit(self@.upserts)
        &&& self@.consistent()
    }

    /// A batch without changes.
    pub fn new() -> (batch: Self)
        ensures
            batch.wf(),
            batch@ == empty_batch(),
    {
        let batch = PendingIndexBatch {
            upserts: TextMap::new(),
            deleted_ids: TextMap::new(),
            progress_updates: Vec::new(),
            bytes: 0,
        };
        assert(batch@ =~= empty_batch());
        batch
    }

    /// Adds a change.
    pub fn push(&mut self, event: IndexEvent)
        requires
            old(self).wf(),
        ensures
            final(self).wf(),
            final(self)@ == old(self)@.with(event@),
    {
        let ghost before = self@;
        assert(before.upserts.dom() =~= self.upserts@.dom());
        match event {
            IndexEvent::Upsert { document_id, document, progress } => {
                let ghost id = document_id@;
                let ghost text = document@;
                let document_len: usize = size_of_text(document.as_str());
                self.deleted_ids.remove(document_id.as_str());
                let replaced = self.upserts.insert(document_id, document);
                let _count: usize = self.upserts.len();
                proof {
                    assert(before.upserts.insert(id, text) =~= texts(self.upserts@));
                    assert(before.upserts.insert(id, text).remove(id) =~= before.upserts.remove(
                        id,
                    ));
                    lemma_total_remove(before.upserts.insert(id, text), id);
                    if before.upserts.contains_key(id) {
                        lemma_total_remove(before.upserts, id);
                    } else {
                        assert(before.upserts.remove(id) =~= before.upserts);
                    }
                    assert(texts(self.upserts@).dom() =~= self.upserts@.dom());
                    assert(documents_fit(before.upserts.insert(id, text))) by {
                        assert forall|key: Seq<char>|
                            before.upserts.insert(id, text).contains_key(key) implies byte_len(
                            #[trigger] before.upserts.insert(id, text)[key],
                        ) <= usize::MAX by {
                            assert(key != id ==> before.upserts.contains_key(key));
                        }
                    }
                    lemma_total_fits(before.upserts.insert(id, text));
                }
                if let Some(previous) = replaced {
                    assert(previous@ == before.upserts[id]);
                    self.bytes = self.bytes - size_of_text(previous.as_str()) as u128;
                }
                self.bytes = self.bytes + document_len as u128;
                if let Some(update) = progress {
                    self.progress_updates.push(update);
                }
            },
            IndexEvent::Delete { document_id, progress } => {
                let ghost id = document_id@;
                let removed = self.upserts.remove(document_id.as_str());
                proof {
                    assert(before.upserts.remove(id) =~= texts(self.upserts@));
                    assert(documents_fit(before.upserts.remove(id))) by {
                        assert forall|key: Seq<char>|
                            before.upserts.remove(id).contains_key(key) implies byte_len(
                            #[trigger] before.upserts.remove(id)[key],
                        ) <= usize::MAX by {
                            assert(before.upserts.contains_key(key));
                        }
                    }
                    if before.upserts.contains_key(id) {
                        lemma_total_remove(before.upserts, id);
                    } else {
                        assert(before.upserts.remove(id) =~= before.upserts);
                    }
                }
                if let Some(previous) = removed {
                    assert(previous@ == before.upserts[id]);
                    self.bytes = self.bytes - size_of_text(previous.as_str()) as u128;
                }
                self.deleted_ids.insert(document_id, ());
                if let Some(update) = progress {
                    self.progress_updates.push(update);
                }
            },
            IndexEvent::Progress(update) => {
                self.progress_updates.push(update);
            },
        }
        assert(self@ =~= before.with(event@));
    }

    /// Whether the batch is large enough to be put into the index.
    pub fn should_flush(&self) -> (flush: bool)
        requires
            self.wf(),
        ensures
            flush == (self@.upserts.len() >= INDEX_BATCH_DOC_LIMIT || self@.deleted.len()
                >= INDEX_BATCH_DELETE_LIMIT || total_bytes(self@.upserts)
                >= INDEX_BATCH_BYTE_LIMIT || self@.progress.len() >= MANIFEST_BATCH_ENTRY_LIMIT),
    {
        assert(self@.upserts.dom() =~= self.upserts@.dom());
        self.upserts.len() >= INDEX_BATCH_DOC_LIMIT || self.deleted_ids.len()
            >= INDEX_BATCH_DELETE_LIMIT || self.bytes >= INDEX_BATCH_BYTE_LIMIT as u128
            || self.progress_updates.len() >= MANIFEST_BATCH_ENTRY_LIMIT
    }

    /// Whether there is anything to do for the batch.
    pub fn is_empty(&self) -> (empty: bool)
        ensures
            empty == (self@ == empty_batch()),
    {
        let empty = self.upserts.is_empty() && self.deleted_ids.is_empty()
            && self.progress_updates.len() == 0;
        proof {
            if empty {
                assert(self@ =~= empty_batch());
            }
            if self@ == empty_batch() {
                assert(self.upserts@ =~= Map::empty()) by {
                    assert(self.upserts@.dom() =~= self@.upserts.dom());
                }
                assert(self.deleted_ids@ =~= Map::empty());
                assert(self.progress_updates.deep_view().len() == 0);
            }
        }
        empty
    }

    /// What the index is to be given for the batch, in ascending order of the ids; nothing where
    /// the batch does not change it.
    pub fn index_change(&self) -> (change: Option<IndexChange>)
        ensures
            change is Some == self@.changes_index(),
            change matches Some(change) ==> {
                &&& change.payload is None == (self@.upserts == Map::<
                    Seq<char>,
                    Seq<char>,
                >::empty())
                &&& change.payload matches Some(payload) ==> exists|lines: Seq<Seq<char>>| #[trigger]
                    lists_documents(lines, self@.upserts) && payload@ == lines_text(lines)
                &&& ascending_keys(change.deleted_ids.deep_view(), self@.deleted)
            },
    {
        let upserts = documents_of(&self.upserts);
        let deleted_ids = self.deleted_ids.keys();
        proof {
            if deleted_ids@.len() == 0 {
                assert(self@.deleted =~= Set::empty()) by {
                    assert(deleted_ids.deep_view().to_set() =~= Set::empty());
                }
            } else {
                assert(self@.deleted.contains(deleted_ids.deep_view()[0]));
            }
        }
        index_change(&upserts, deleted_ids)
    }

    /// The entries to record for the batch.
    pub fn progress_updates(&self) -> (updates: &Vec<ProgressUpdate>)
        ensures
            updates.deep_view() == self@.progress,
    {
        &self.progress_updates
    }

    /// Forgets the changes, once they have been made.
    pub fn clear(&mut self)
        ensures
            final(self).wf(),
            final(self)@ == empty_batch(),
    {
        self.upserts.clear();
        self.deleted_ids.clear();
        self.progress_updates.clear();
        self.bytes = 0;
        assert(self@ =~= empty_batch());
    }
}

/// A batch never puts a document in and takes it out.
pub proof fn law_batch_is_consistent(batch: &PendingIndexBatch)
    requires
        batch.wf(),
    ensures
        batch@.consistent(),
{
}

/// The documents of a map, in ascending order of their ids.
fn documents_of(map: &TextMap<String>) -> (documents: Vec<String>)
    ensures
        lists_documents(documents.deep_view(), texts(map@)),
        documents@.len() == 0 <==> texts(map@) == Map::<Seq<char>, Seq<char>>::empty(),
{
    let ghost entries = map.ordered();
    let ghost ids = ordered_keys(entries);
    let total = map.len();
    let empty = map.is_empty();
    let mut documents: Vec<String> = Vec::new();
    for i in 0..total
        invariant
            entries == map.ordered(),
            total == entries.len(),
            ids == ordered_keys(entries),
            documents@.len() == i,
            forall|j: int|
                0 <= j < i ==> (#[trigger] documents@[j])@ == texts(map@)[ids[j]],
    {
        let document = map.value_at(i);
        documents.push(document.clone());
    }
    proof {
        lemma_ordered_keys(entries);
        assert(texts(map@).dom() =~= map@.dom());
        assert(ascending_keys(ids, texts(map@).dom()));
        assert(documents.deep_view() =~= ids.map_values(|id: Seq<char>| texts(map@)[id]));
        if empty {
            assert(texts(map@) =~= Map::empty());
        } else if texts(map@) == Map::<Seq<char>, Seq<char>>::empty() {
            assert(map@ =~= Map::empty());
        }
    }
    documents
}

/// Each of the texts is one line.
pub open spec fn single_lines(lines: Seq<Seq<char>>) -> bool {
    forall|i: int| 0 <= i < lines.len() ==> single_line(#[trigger] lines[i])
}

/// What the index is given for documents stands for those documents only: none runs into another.
pub proof fn law_payload_reads_back(a: Seq<Seq<char>>, b: Seq<Seq<char>>)
    requires
        single_lines(a),
        single_lines(b),
        lines_text(a) == lines_text(b),
    ensures
        a == b,
    decreases a.len(),
{
    let text = lines_text(a);
    if a.len() == 0 || b.len() == 0 {
        assert(a.len() > 0 ==> lines_text(a).len() == lines_text(a.drop_last()).len()
            + a.last().len() + 1);
        assert(b.len() > 0 ==> lines_text(b).len() == lines_text(b.drop_last()).len()
            + b.last().len() + 1);
        assert(a =~= b);
    } else {
        lemma_last_line_len(a, b);
        lemma_last_line_len(b, a);
        let before_a = lines_text(a.drop_last());
        let before_b = lines_text(b.drop_last());
        assert(before_a =~= text.take(before_a.len() as int));
        assert(before_b =~= text.take(before_b.len() as int));
        assert(a.last() =~= text.subrange(before_a.len() as int, text.len() - 1));
        assert(b.last() =~= text.subrange(before_b.len() as int, text.len() - 1));
        assert forall|i: int| 0 <= i < a.drop_last().len() implies single_line(
            #[trigger] a.drop_last()[i],
        ) by {
            assert(a.drop_last()[i] == a[i]);
        }
        assert forall|i: int| 0 <= i < b.drop_last().len() implies single_line(
            #[trigger] b.drop_last()[i],
        ) by {
            assert(b.drop_last()[i] == b[i]);
        }
        law_payload_reads_back(a.drop_last(), b.drop_last());
        assert(a =~= a.drop_last().push(a.last()));
        assert(b =~= b.drop_last().push(b.last()));
    }
}

/// The last of single lines is no shorter than that of another list with the same text.
proof fn lemma_last_line_len(a: Seq<Seq<char>>, b: Seq<Seq<char>>)
    requires
        single_lines(b),
        a.len() > 0,
        b.len() > 0,
        lines_text(a) == lines_text(b),
    ensures
        a.last().len() >= b.last().len(),
{
    let text = lines_text(a);
    let before_a = lines_text(a.drop_last());
    let before_b = lines_text(b.drop_last());
    assert(text.len() == before_a.len() + a.last().len() + 1);
    assert(text.len() == before_b.len() + b.last().len() + 1);
    if a.last().len() < b.last().len() {
        assert(a.drop_last().len() > 0);
        let k = before_a.len() - 1;
        assert(before_a[k] == '\n');
        assert(text[k] == before_a[k]);
        assert(text[k] == b.last()[k - before_b.len()]);
        assert(single_line(b[b.len() - 1]));
    }
}

/// After a change an index holds the document that was put in, and not the one that was taken out;
/// all other documents are as they were, and recording an entry changes none.
pub proof fn law_change_touches_one_document(
    index: Map<Seq<char>, Seq<char>>,
    event: EventView,
    id: Seq<char>,
)
    ensures
        ({
            let after = index_after(index, event);
            &&& event matches EventView::Upsert { document_id, document, .. } ==> {
                &&& after.contains_key(document_id)
                &&& after[document_id] == document
                &&& id != document_id ==> after.contains_key(id) == index.contains_key(id) && (
                index.contains_key(id) ==> after[id] == index[id])
            }
            &&& event matches EventView::Delete { document_id, .. } ==> {
                &&& !after.contains_key(document_id)
                &&& id != document_id ==> after.contains_key(id) == index.contains_key(id) && (
                index.contains_key(id) ==> after[id] == index[id])
            }
            &&& event is Progress ==> after == index
        }),
{
}

/// A batch remembers of each document the last change, and of each entry to record all of them, in
/// their order.
pub proof fn law_batch_remembers_the_last_change(batch: BatchView, event: EventView, id: Seq<char>)
    ensures
        ({
            let after = batch.with(event);
            &&& event matches EventView::Upsert { document_id, document, progress } ==> {
                &&& after.upserts.contains_key(document_id)
                &&& after.upserts[document_id] == document
                &&& !after.deleted.contains(document_id)
                &&& progress is Some ==> after.progress == batch.progress.push(progress->Some_0)
                &&& progress is None ==> after.progress == batch.progress
                &&& id != document_id ==> same_change(batch, after, id)
            }
            &&& event matches EventView::Delete { document_id, progress } ==> {
                &&& !after.upserts.contains_key(document_id)
                &&& after.deleted.contains(document_id)
                &&& progress is Some ==> after.progress == batch.progress.push(progress->Some_0)
                &&& progress is None ==> after.progress == batch.progress
                &&& id != document_id ==> same_change(batch, after, id)
            }
            &&& event matches EventView::Progress(update) ==> {
                &&& after.progress == batch.progress.push(update)
                &&& same_change(batch, after, id)
            }
        }),
{
}

/// Two batches change a document in the same way.
pub open spec fn same_change(a: BatchView, b: BatchView, id: Seq<char>) -> bool {
    &&& a.upserts.contains_key(id) == b.upserts.contains_key(id)
    &&& a.upserts.contains_key(id) ==> a.upserts[id] == b.upserts[id]
    &&& a.deleted.contains(id) == b.deleted.contains(id)
}

/// The batch puts the document in, or takes it out.
pub open spec fn speaks_of(batch: BatchView, id: Seq<char>) -> bool {
    batch.upserts.contains_key(id) || batch.deleted.contains(id)
}

/// A batch changes the index exactly where it puts a document in or takes one out.
pub proof fn law_batch_with_documents_changes_the_index(batch: BatchView)
    ensures
        batch.changes_index() <==> exists|id: Seq<char>| speaks_of(batch, id),
        !empty_batch().changes_index(),
        empty_batch().progress.len() == 0,
{
    if forall|id: Seq<char>| !speaks_of(batch, id) {
        assert forall|id: Seq<char>| !(#[trigger] batch.upserts.dom().contains(id)) by {
            assert(!speaks_of(batch, id));
        }
        assert forall|id: Seq<char>| !(#[trigger] batch.deleted.contains(id)) by {
            assert(!speaks_of(batch, id));
        }
        assert(batch.upserts =~= Map::empty());
        assert(batch.deleted =~= Set::empty());
    }
}

/// The bytes of documents are those of each of them, in UTF-8.
pub proof fn law_every_document_counts_with_its_bytes(
    documents: Map<Seq<char>, Seq<char>>,
    id: Seq<char>,
)
    requires
        documents.dom().finite(),
    ensures
        documents.contains_key(id) ==> total_bytes(documents) == total_bytes(documents.remove(id))
            + encode_utf8(documents[id]).len(),
        total_bytes(Map::<Seq<char>, Seq<char>>::empty()) == 0,
{
    if documents.contains_key(id) {
        lemma_total_remove(documents, id);
    }
    assert(Map::<Seq<char>, Seq<char>>::empty().dom() =~= Set::empty());
}

/// The text is that of one of the documents.
pub open spec fn is_one_of(text: Seq<char>, documents: Map<Seq<char>, Seq<char>>) -> bool {
    exists|id: Seq<char>| #[trigger] documents.contains_key(id) && text == documents[id]
}

/// Every document that is to be put in has its line, and no other line is there.
pub proof fn law_every_document_has_its_line(
    lines: Seq<Seq<char>>,
    upserts: Map<Seq<char>, Seq<char>>,
)
    requires
        lists_documents(lines, upserts),
    ensures
        forall|id: Seq<char>| #[trigger] upserts.contains_key(id) ==> lines.contains(upserts[id]),
        forall|k: int| 0 <= k < lines.len() ==> is_one_of(#[trigger] lines[k], upserts),
        upserts.dom().len() == lines.len(),
{
    let ids = choose|ids: Seq<Seq<char>>| #[trigger]
        ascending_keys(ids, upserts.dom()) && lines == ids.map_values(
            |id: Seq<char>| upserts[id],
        );
    assert forall|id: Seq<char>| #[trigger] upserts.contains_key(id) implies lines.contains(
        upserts[id],
    ) by {
        assert(upserts.dom().contains(id));
        assert(ids.to_set().contains(id));
        let k = ids.index_of(id);
        assert(lines[k] == upserts[id]);
    }
    assert forall|k: int| 0 <= k < lines.len() implies is_one_of(#[trigger] lines[k], upserts) by {
        assert(ids.to_set().contains(ids[k]));
        assert(upserts.contains_key(ids[k]));
    }
    assert forall|i: int, j: int| 0 <= i < j < ids.len() implies ids[i] != ids[j] by {
        lemma_text_less_irreflexive(ids[i]);
    }
    assert(ids.no_duplicates());
    ids.unique_seq_to_set();
}

/// A change that comes into a batch counts over all earlier ones of its document, and its entry is
/// recorded after theirs.
pub proof fn law_pushed_change_counts(batch: &mut PendingIndexBatch, event: IndexEvent)
    requires
        call_ensures(PendingIndexBatch::push, (batch, event), ()),
    ensures
        event matches IndexEvent::Upsert { document_id, document, progress } ==> {
            &&& final(batch)@.upserts == old(batch)@.upserts.insert(document_id@, document@)
            &&& final(batch)@.deleted == old(batch)@.deleted.remove(document_id@)
            &&& progress is None ==> final(batch)@.progress == old(batch)@.progress
            &&& progress is Some ==> final(batch)@.progress == old(batch)@.progress.push(
                progress->Some_0@,
            )
        },
        event matches IndexEvent::Delete { document_id, progress } ==> {
            &&& final(batch)@.upserts == old(batch)@.upserts.remove(document_id@)
            &&& final(batch)@.deleted == old(batch)@.deleted.insert(document_id@)
            &&& progress is None ==> final(batch)@.progress == old(batch)@.progress
            &&& progress is Some ==> final(batch)@.progress == old(batch)@.progress.push(
                progress->Some_0@,
            )
        },
        event matches IndexEvent::Progress(update) ==> {
            &&& final(batch)@.upserts == old(batch)@.upserts
            &&& final(batch)@.deleted == old(batch)@.deleted
            &&& final(batch)@.progress == old(batch)@.progress.push(update@)
        },
{
}

/// What the index is given for a batch holds every document to put in, on a line of its own, and
/// every id of a document to take out, and nothing else.
pub proof fn law_index_is_given_the_whole_batch(
    batch: PendingIndexBatch,
    change: Option<IndexChange>,
    id: Seq<char>,
)
    requires
        call_ensures(PendingIndexBatch::index_change, (&batch,), change),
    ensures
        batch@.upserts.contains_key(id) ==> (change matches Some(change)
            && (change.payload matches Some(payload) && holds_line(payload@, batch@.upserts[id]))),
        batch@.deleted.contains(id) ==> (change matches Some(change)
            && change.deleted_ids.deep_view().contains(id)),
        change matches Some(change) ==> (change.deleted_ids.deep_view().contains(id)
            ==> batch@.deleted.contains(id)),
        change is None ==> !batch@.upserts.contains_key(id) && !batch@.deleted.contains(id),
{
    if batch@.upserts.contains_key(id) {
        assert(batch@.upserts != Map::<Seq<char>, Seq<char>>::empty()) by {
            if batch@.upserts == Map::<Seq<char>, Seq<char>>::empty() {
                assert(!batch@.upserts.contains_key(id));
            }
        }
        let payload = change->Some_0.payload->Some_0;
        let lines = choose|lines: Seq<Seq<char>>| #[trigger]
            lists_documents(lines, batch@.upserts) && payload@ == lines_text(lines);
        law_every_document_has_its_line(lines, batch@.upserts);
        assert(lines.contains(batch@.upserts[id]));
        let k = lines.index_of(batch@.upserts[id]);
        law_each_line_stands_in_its_place(lines, k);
        let start = lines_text(lines.take(k)).len() as int;
        if k > 0 {
            law_each_line_stands_in_its_place(lines, k - 1);
        }
        assert(payload@.subrange(start, start + lines[k].len()) == batch@.upserts[id]);
    }
    if batch@.deleted.contains(id) {
        assert(batch@.deleted != Set::<Seq<char>>::empty()) by {
            if batch@.deleted == Set::<Seq<char>>::empty() {
                assert(!batch@.deleted.contains(id));
            }
        }
        let ids = change->Some_0.deleted_ids.deep_view();
        assert(ids.to_set().contains(id));
    }
    if let Some(change) = change {
        let ids = change.deleted_ids.deep_view();
        if ids.contains(id) {
            assert(ids.to_set().contains(id));
        }
    }
}

/// A line of the text is another one.
pub open spec fn holds_line(text: Seq<char>, line: Seq<char>) -> bool {
    exists|start: int|
        0 <= start && start + line.len() < text.len() && #[trigger] text.subrange(
            start,
            start + line.len(),
        ) == line && text[start + line.len() as int] == '\n' && (start == 0 || text[start - 1]
            == '\n')
}

/// A batch without changes is empty, and so is one that has been cleared.
pub proof fn law_cleared_batch_is_empty(
    batch: &mut PendingIndexBatch,
    fresh: PendingIndexBatch,
    empty: bool,
    id: Seq<char>,
)
    requires
        call_ensures(PendingIndexBatch::clear, (batch,), ()),
        call_ensures(PendingIndexBatch::new, (), fresh),
        call_ensures(PendingIndexBatch::is_empty, (&fresh,), empty),
    ensures
        empty,
        !speaks_of(final(batch)@, id) && !speaks_of(fresh@, id),
        final(batch)@.progress.len() == 0 && fresh@.progress.len() == 0,
{
}

/// The entries to record are all that came with the changes, in their order.
pub proof fn law_all_entries_are_to_be_recorded(
    batch: PendingIndexBatch,
    updates: &Vec<ProgressUpdate>,
    i: int,
)
    requires
        call_ensures(PendingIndexBatch::progress_updates, (&batch,), updates),
    ensures
        updates@.len() == batch@.progress.len(),
        0 <= i < updates@.len() ==> updates@[i]@ == batch@.progress[i],
{
    assert(updates.deep_view().len() == updates@.len());
    if 0 <= i < updates@.len() {
        assert(updates.deep_view()[i] == updates@[i]@);
    }
}

/// A batch is put into the index as soon as it reaches one of its limits.
pub proof fn law_batch_is_flushed_at_each_limit(batch: PendingIndexBatch, flush: bool)
    requires
        call_ensures(PendingIndexBatch::should_flush, (&batch,), flush),
    ensures
        flush <==> {
            ||| batch@.upserts.len() >= 128
            ||| batch@.deleted.len() >= 512
            ||| total_bytes(batch@.upserts) >= 8 * 1024 * 1024
            ||| batch@.progress.len() >= 512
        },
{
}

/// The operations on an index succeed together, or fail with the first of their errors.
pub proof fn law_first_error_is_reported(
    errors: Vec<Option<String>>,
    result: Result<(), SearchxError>,
    i: int,
)
    requires
        call_ensures(first_operation_error, (errors,), result),
        0 <= i < errors@.len(),
        errors@[i] is Some,
        forall|j: int| 0 <= j < i ==> (#[trigger] errors@[j]) is None,
    ensures
        result is Err,
        result->Err_0 matches SearchxError::Milli { message } && message@ == errors@[i]->Some_0@,
{
    if result is Err {
        let k = choose|k: int|
            0 <= k < errors@.len() && (#[trigger] errors@[k]) is Some && (forall|j: int|
                0 <= j < k ==> (#[trigger] errors@[j]) is None) && (
            result->Err_0 matches SearchxError::Milli { message } && message@
                == errors@[k]->Some_0@);
        assert(errors@[k] is Some);
        assert(k < i ==> errors@[k] is None);
        assert(i < k ==> errors@[i] is None);
    }
}

/// The index is given every document on a line of its own, and the ids to take out as they are;
/// nothing where there are neither.
pub proof fn law_index_is_given_documents_and_ids(
    upserts: Vec<String>,
    deleted_ids: Vec<String>,
    change: Option<IndexChange>,
    i: int,
)
    requires
        call_ensures(index_change, (&upserts, deleted_ids), change),
    ensures
        change is None <==> upserts@.len() == 0 && deleted_ids@.len() == 0,
        change matches Some(change) ==> change.deleted_ids == deleted_ids,
        change matches Some(change) ==> (change.payload is None <==> upserts@.len() == 0),
        0 <= i < upserts@.len() ==> (change matches Some(change)
            && (change.payload matches Some(payload) && holds_line(payload@, upserts@[i]@))),
{
    if 0 <= i < upserts@.len() {
        let lines = upserts.deep_view();
        let payload = change->Some_0.payload->Some_0;
        law_each_line_stands_in_its_place(lines, i);
        if i > 0 {
            law_each_line_stands_in_its_place(lines, i - 1);
        }
        let start = lines_text(lines.take(i)).len() as int;
        assert(lines[i] == upserts@[i]@);
        assert(payload@.subrange(start, start + lines[i].len()) == upserts@[i]@);
    }
}

} // verus!
