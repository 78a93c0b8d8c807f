//! What a run leaves in the index: the documents of the files that it found, and none of those that
//! are gone.

use crate::batch::{index_after, index_after_all};
use crate::document::{document_id, document_json_text, DocumentView};
use crate::embedding::embedded_event;
use crate::manifest::{FileState, ManifestEntry};
use crate::run::{
    came, delivered, distinct_paths, found_paths, Delivery, Pipeline, ScanSetup, ScannedFile,
};
use crate::scan::{
    delete_event, delete_events, gone, lemma_delete_events, EventView, JobView, MessageView,
    ProgressView,
};
use crate::scan_laws::{
    law_missing_file_loses_its_document, law_supported_extensions, named_as_image, named_as_pdf,
    or_nothing, takes_out,
};
use crate::search::{
    held_id, held_path, identified, law_repair_keeps_the_documents_of_recorded_files,
    law_repair_takes_out_documents_of_the_index, orphan_ids,
};
use crate::store::updated;
use crate::stream::{event_progress, made_up_to, progress_of, recorded_after_made, RunState};
use crate::text::{lemma_text_less_irreflexive, text_less};
use crate::text_map::{ascending, entries_map, holds_at, lemma_position};
use serde_json::Value;
use vstd::prelude::*;
use vstd::utf8::*;

verus! {

impl ScanSetup {
    /// The document of the file is handed on, to be put into the index.
    pub open spec fn hands_document_on(self, file: ScannedFile) -> bool {
        ||| self.outcome(file) is TooLarge
        ||| self.outcome(file) is Binary
        ||| self.outcome(file) is Indexed
    }

    /// The contents that the document of a file is indexed with: those of a text, and nothing for a
    /// file that is indexed by its name, an image or a PDF document.
    pub open spec fn indexed_contents(self, file: ScannedFile) -> Seq<char> {
        if self.outcome(file) is Indexed && !named_as_pdf(file.path) && !named_as_image(
            file.path,
        ) {
            decode_utf8(file.bytes->Ok_0)
        } else {
            Seq::empty()
        }
    }

    /// The document of a file, with a vector or without.
    pub open spec fn indexed_document(
        self,
        file: ScannedFile,
        vector: Option<Seq<char>>,
    ) -> DocumentView {
        DocumentView {
            id: document_id(file.path.relative),
            path: file.path.relative,
            file_name: or_nothing(file.path.file_name),
            extension: file.path.extension,
            contents: self.indexed_contents(file),
            vector,
        }
    }

    /// The path is that of a file that was indexed before and is not found any more.
    pub open spec fn goes(self, files: Seq<ScannedFile>, path: Seq<char>) -> bool {
        &&& self.previous.contains_key(path)
        &&& !(self.previous[path].state is Skipped)
        &&& !found_paths(files).contains(path)
    }
}

/// The path is found now or was known before.
pub open spec fn is_met(setup: ScanSetup, files: Seq<ScannedFile>, path: Seq<char>) -> bool {
    found_paths(files).contains(path) || setup.previous.contains_key(path)
}

/// No two paths found now or known before have one document id.
pub open spec fn ids_tell_paths(setup: ScanSetup, files: Seq<ScannedFile>) -> bool {
    forall|a: Seq<char>, b: Seq<char>|
        is_met(setup, files, a) && is_met(setup, files, b) && #[trigger] document_id(a)
            == #[trigger] document_id(b) ==> a == b
}

/// Two indexes hold the same under an id.
pub open spec fn same_at(
    a: Map<Seq<char>, Seq<char>>,
    b: Map<Seq<char>, Seq<char>>,
    id: Seq<char>,
) -> bool {
    &&& a.contains_key(id) == b.contains_key(id)
    &&& a.contains_key(id) ==> a[id] == b[id]
}

/// The index holds the document of a file, as the scan hands it on, with a vector only where
/// documents are embedded.
pub open spec fn holds_document(
    index: Map<Seq<char>, Seq<char>>,
    setup: ScanSetup,
    file: ScannedFile,
) -> bool {
    &&& index.contains_key(document_id(file.path.relative))
    &&& exists|vector: Option<Seq<char>>|
        (vector is Some ==> setup.embed) && index[document_id(file.path.relative)]
            == document_json_text(#[trigger] setup.indexed_document(file, vector))
}

/// The id of the document that a change is about.
pub open spec fn event_id(event: EventView) -> Option<Seq<char>> {
    match event {
        EventView::Upsert { document_id, .. } => Some(document_id),
        EventView::Delete { document_id, .. } => Some(document_id),
        EventView::Progress(_) => None,
    }
}

/// The id of the document that a message is about.
pub open spec fn message_id(message: MessageView) -> Option<Seq<char>> {
    match message {
        MessageView::Event(event) => event_id(event),
        MessageView::Embed(job) => Some(job.document.id),
    }
}

/// No two messages are about one document.
spec fn separate(messages: Seq<MessageView>) -> bool {
    forall|a: int, b: int|
        #![trigger messages[a], messages[b]]
        0 <= a < b < messages.len() && message_id(messages[a]) is Some ==> message_id(messages[a])
            != message_id(messages[b])
}

/// One of the first `n` messages is about the document.
spec fn touched(messages: Seq<MessageView>, n: int, id: Seq<char>) -> bool {
    exists|a: int| 0 <= a < n && message_id(#[trigger] messages[a]) == Some(id)
}

/// The index is as a change leaves it.
spec fn made(index: Map<Seq<char>, Seq<char>>, event: EventView) -> bool {
    match event {
        EventView::Upsert { document_id, document, .. } => index.contains_key(document_id)
            && index[document_id] == document,
        EventView::Delete { document_id, .. } => !index.contains_key(document_id),
        EventView::Progress(_) => true,
    }
}

/// The index holds the document of a job, with some vector or none.
spec fn job_made(index: Map<Seq<char>, Seq<char>>, job: JobView) -> bool {
    exists|vector: Option<Seq<char>>| made(index, #[trigger] embedded_event(job, vector))
}

/// What holds of the index at every moment of a run.
spec fn keeps_up(
    messages: Seq<MessageView>,
    index: Map<Seq<char>, Seq<char>>,
    pipe: Pipeline,
) -> bool {
    let now = index_after_all(index, pipe.events);
    &&& 0 <= pipe.sent <= messages.len()
    &&& 0 <= pipe.taken <= pipe.queued.len()
    &&& forall|k: int|
        0 <= k < pipe.queued.len() ==> came(messages, pipe.sent, #[trigger] pipe.queued[k])
    &&& forall|b: int|
        0 <= b < pipe.sent && (#[trigger] messages[b]) is Embed ==> pipe.queued.contains(
            messages[b]->Embed_0,
        )
    &&& forall|k: int, l: int|
        0 <= k < l < pipe.queued.len() ==> (#[trigger] pipe.queued[k]).document.id != (
        #[trigger] pipe.queued[l]).document.id
    &&& forall|a: int|
        0 <= a < pipe.sent && (#[trigger] messages[a]) is Event ==> made(
            now,
            messages[a]->Event_0,
        )
    &&& forall|k: int| 0 <= k < pipe.taken ==> job_made(now, #[trigger] pipe.queued[k])
    &&& forall|id: Seq<char>|
        !touched(messages, pipe.sent, id) ==> #[trigger] same_at(now, index, id)
}

proof fn lemma_made_kept(index: Map<Seq<char>, Seq<char>>, event: EventView, other: EventView)
    requires
        made(index, other),
        event_id(event) is None || event_id(event) != event_id(other),
    ensures
        made(index_after(index, event), other),
{
}

proof fn lemma_job_kept(index: Map<Seq<char>, Seq<char>>, event: EventView, job: JobView)
    requires
        job_made(index, job),
        event_id(event) is None || event_id(event) != Some(job.document.id),
    ensures
        job_made(index_after(index, event), job),
{
    let vector = choose|vector: Option<Seq<char>>|
        made(index, #[trigger] embedded_event(job, vector));
    lemma_made_kept(index, event, embedded_event(job, vector));
}

proof fn lemma_came_on(messages: Seq<MessageView>, n: int, job: JobView)
    requires
        came(messages, n, job),
    ensures
        came(messages, n + 1, job),
        touched(messages, n, job.document.id),
{
    let b = choose|b: int| 0 <= b < n && #[trigger] messages[b] == MessageView::Embed(job);
    assert(0 <= b < n + 1 && messages[b] == MessageView::Embed(job));
    assert(message_id(messages[b]) == Some(job.document.id));
}

proof fn lemma_touched_on(messages: Seq<MessageView>, n: int, id: Seq<char>)
    requires
        touched(messages, n, id),
    ensures
        touched(messages, n + 1, id),
{
    let a = choose|a: int| 0 <= a < n && message_id(#[trigger] messages[a]) == Some(id);
    assert(0 <= a < n + 1 && message_id(messages[a]) == Some(id));
}

/// A document that a message is about has not been spoken of before.
proof fn lemma_first_about(messages: Seq<MessageView>, n: int, id: Seq<char>)
    requires
        separate(messages),
        0 <= n < messages.len(),
        message_id(messages[n]) == Some(id),
    ensures
        !touched(messages, n, id),
{
    if touched(messages, n, id) {
        let a = choose|a: int| 0 <= a < n && message_id(#[trigger] messages[a]) == Some(id);
        assert(message_id(messages[a]) != message_id(messages[n]));
    }
}

proof fn lemma_scan_event_keeps_up(
    messages: Seq<MessageView>,
    index: Map<Seq<char>, Seq<char>>,
    pipe: Pipeline,
)
    requires
        separate(messages),
        keeps_up(messages, index, pipe),
        pipe.sent < messages.len(),
        messages[pipe.sent] is Event,
    ensures
        keeps_up(messages, index, pipe.after(messages, Delivery::Scan)),
{
    let event = messages[pipe.sent]->Event_0;
    let next = pipe.after(messages, Delivery::Scan);
    let before = index_after_all(index, pipe.events);
    let now = index_after_all(index, next.events);
    assert(pipe.events.push(event).drop_last() =~= pipe.events);
    assert(now == index_after(before, event));
    if let Some(id) = event_id(event) {
        lemma_first_about(messages, pipe.sent, id);
    }
    assert forall|k: int| 0 <= k < next.queued.len() implies came(
        messages,
        next.sent,
        #[trigger] next.queued[k],
    ) by {
        lemma_came_on(messages, pipe.sent, pipe.queued[k]);
    }
    assert forall|a: int| 0 <= a < next.sent && (#[trigger] messages[a]) is Event implies made(
        now,
        messages[a]->Event_0,
    ) by {
        if a < pipe.sent {
            let other = messages[a]->Event_0;
            if event_id(event) is Some && event_id(other) == event_id(event) {
                assert(message_id(messages[a]) == event_id(event));
                assert(touched(messages, pipe.sent, event_id(event)->Some_0));
            }
            lemma_made_kept(before, event, other);
        }
    }
    assert forall|k: int| 0 <= k < next.taken implies job_made(now, #[trigger] next.queued[k]) by {
        lemma_came_on(messages, pipe.sent, pipe.queued[k]);
        lemma_job_kept(before, event, pipe.queued[k]);
    }
    assert forall|id: Seq<char>| !touched(messages, next.sent, id) implies #[trigger] same_at(
        now,
        index,
        id,
    ) by {
        if touched(messages, pipe.sent, id) {
            lemma_touched_on(messages, pipe.sent, id);
        }
        assert(same_at(before, index, id));
        if event_id(event) == Some(id) {
            assert(message_id(messages[pipe.sent]) == Some(id));
            assert(touched(messages, next.sent, id));
        }
    }
}

proof fn lemma_scan_job_keeps_up(
    messages: Seq<MessageView>,
    index: Map<Seq<char>, Seq<char>>,
    pipe: Pipeline,
)
    requires
        separate(messages),
        keeps_up(messages, index, pipe),
        pipe.sent < messages.len(),
        messages[pipe.sent] is Embed,
    ensures
        keeps_up(messages, index, pipe.after(messages, Delivery::Scan)),
{
    let job = messages[pipe.sent]->Embed_0;
    let next = pipe.after(messages, Delivery::Scan);
    let now = index_after_all(index, pipe.events);
    let n = pipe.queued.len() as int;
    lemma_first_about(messages, pipe.sent, job.document.id);
    assert(next.queued[n] == job);
    assert forall|k: int| 0 <= k < n implies (#[trigger] next.queued[k]) == pipe.queued[k] by {}
    assert forall|k: int| 0 <= k < next.queued.len() implies came(
        messages,
        next.sent,
        #[trigger] next.queued[k],
    ) by {
        if k < n {
            lemma_came_on(messages, pipe.sent, pipe.queued[k]);
        } else {
            assert(messages[pipe.sent] == MessageView::Embed(job));
        }
    }
    assert forall|b: int|
        0 <= b < next.sent && (#[trigger] messages[b]) is Embed implies next.queued.contains(
        messages[b]->Embed_0,
    ) by {
        if b < pipe.sent {
            let k = pipe.queued.index_of(messages[b]->Embed_0);
            assert(next.queued[k] == messages[b]->Embed_0);
        }
    }
    assert forall|k: int, l: int| 0 <= k < l < next.queued.len() implies (
    #[trigger] next.queued[k]).document.id != (#[trigger] next.queued[l]).document.id by {
        assert(next.queued[k] == pipe.queued[k]);
        if l < n {
            assert(next.queued[l] == pipe.queued[l]);
        } else {
            lemma_came_on(messages, pipe.sent, pipe.queued[k]);
        }
    }
    assert forall|k: int| 0 <= k < next.taken implies job_made(now, #[trigger] next.queued[k]) by {
        assert(next.queued[k] == pipe.queued[k]);
    }
    assert forall|id: Seq<char>| !touched(messages, next.sent, id) implies #[trigger] same_at(
        now,
        index,
        id,
    ) by {
        if touched(messages, pipe.sent, id) {
            lemma_touched_on(messages, pipe.sent, id);
        }
    }
}

proof fn lemma_embedding_keeps_up(
    messages: Seq<MessageView>,
    index: Map<Seq<char>, Seq<char>>,
    pipe: Pipeline,
    vector: Option<Seq<char>>,
)
    requires
        separate(messages),
        keeps_up(messages, index, pipe),
        pipe.taken < pipe.queued.len(),
    ensures
        keeps_up(messages, index, pipe.after(messages, Delivery::Embedding(vector))),
{
    let next = pipe.after(messages, Delivery::Embedding(vector));
    let job = pipe.queued[pipe.taken];
    let event = embedded_event(job, vector);
    let before = index_after_all(index, pipe.events);
    let now = index_after_all(index, next.events);
    assert(pipe.events.push(event).drop_last() =~= pipe.events);
    assert(now == index_after(before, event));
    assert(came(messages, pipe.sent, job));
    let b = choose|b: int|
        0 <= b < pipe.sent && #[trigger] messages[b] == MessageView::Embed(job);
    assert(message_id(messages[b]) == Some(job.document.id));
    assert forall|a: int| 0 <= a < next.sent && (#[trigger] messages[a]) is Event implies made(
        now,
        messages[a]->Event_0,
    ) by {
        let other = messages[a]->Event_0;
        assert(event_id(other) != event_id(event)) by {
            if a < b {
                assert(message_id(messages[a]) is Some ==> message_id(messages[a]) != message_id(
                    messages[b],
                ));
            } else {
                assert(message_id(messages[b]) != message_id(messages[a]));
            }
        }
        lemma_made_kept(before, event, other);
    }
    assert(made(now, event));
    assert forall|k: int| 0 <= k < next.taken implies job_made(now, #[trigger] next.queued[k]) by {
        if k < pipe.taken {
            assert(pipe.queued[k].document.id != pipe.queued[pipe.taken].document.id);
            lemma_job_kept(before, event, pipe.queued[k]);
        } else {
            assert(made(now, embedded_event(next.queued[k], vector)));
        }
    }
    assert forall|id: Seq<char>| !touched(messages, next.sent, id) implies #[trigger] same_at(
        now,
        index,
        id,
    ) by {
        assert(same_at(before, index, id));
        if id == job.document.id {
            assert(touched(messages, next.sent, id));
        }
    }
}

proof fn lemma_keeps_up(
    messages: Seq<MessageView>,
    index: Map<Seq<char>, Seq<char>>,
    deliveries: Seq<Delivery>,
)
    requires
        separate(messages),
    ensures
        keeps_up(messages, index, delivered(messages, deliveries)),
    decreases deliveries.len(),
{
    if deliveries.len() > 0 {
        lemma_keeps_up(messages, index, deliveries.drop_last());
        let pipe = delivered(messages, deliveries.drop_last());
        match deliveries.last() {
            Delivery::Scan => if pipe.sent < messages.len() {
                if messages[pipe.sent] is Event {
                    lemma_scan_event_keeps_up(messages, index, pipe);
                } else {
                    lemma_scan_job_keeps_up(messages, index, pipe);
                }
            },
            Delivery::Embedding(vector) => if pipe.taken < pipe.queued.len() {
                lemma_embedding_keeps_up(messages, index, pipe, vector);
            },
        }
    }
}

/// The message hands the document of a file on, for the index or to be embedded first.
#[verifier::opaque]
spec fn carries(setup: ScanSetup, file: ScannedFile, message: MessageView) -> bool {
    let document = setup.indexed_document(file, None);
    match message {
        MessageView::Event(EventView::Upsert { document_id, document: text, .. }) => {
            &&& document_id == document.id
            &&& text == document_json_text(document)
        },
        MessageView::Event(_) => false,
        MessageView::Embed(job) => setup.embed && job.document == document,
    }
}

/// One of the messages hands the document of a file on.
spec fn handed_on(setup: ScanSetup, file: ScannedFile, messages: Seq<MessageView>) -> bool {
    exists|a: int| 0 <= a < messages.len() && carries(setup, file, #[trigger] messages[a])
}

/// The message hands the document of one of the files on.
spec fn of_file(setup: ScanSetup, files: Seq<ScannedFile>, message: MessageView) -> bool {
    exists|j: int|
        0 <= j < files.len() && setup.hands_document_on(#[trigger] files[j]) && carries(
            setup,
            files[j],
            message,
        )
}

/// The message takes the document of a file that is gone out of the index.
spec fn of_gone(setup: ScanSetup, files: Seq<ScannedFile>, message: MessageView) -> bool {
    exists|path: Seq<char>| #[trigger]
        setup.goes(files, path) && message == MessageView::Event(delete_event(path))
}

spec fn distinct_ids(files: Seq<ScannedFile>) -> bool {
    forall|i: int, j: int|
        0 <= i < j < files.len() ==> document_id((#[trigger] files[i]).path.relative)
            != document_id((#[trigger] files[j]).path.relative)
}

/// What is handed on for files one after the other, as far as documents go: each file that hands its
/// document on does so, and no two messages are about one document.
spec fn tells_files(
    setup: ScanSetup,
    files: Seq<ScannedFile>,
    messages: Seq<MessageView>,
) -> bool {
    &&& separate(messages)
    &&& forall|a: int|
        0 <= a < messages.len() && message_id(#[trigger] messages[a]) is Some ==> of_file(
            setup,
            files,
            messages[a],
        )
    &&& forall|j: int|
        0 <= j < files.len() && setup.hands_document_on(#[trigger] files[j]) ==> handed_on(
            setup,
            files[j],
            messages,
        )
}

/// What is handed on for one file, as far as documents go: its document comes last, if at all.
spec fn tells_file(setup: ScanSetup, file: ScannedFile, block: Seq<MessageView>) -> bool {
    &&& forall|a: int|
        0 <= a < block.len() && message_id(#[trigger] block[a]) is Some ==> a == block.len() - 1
            && setup.hands_document_on(file) && carries(setup, file, block[a])
    &&& setup.hands_document_on(file) ==> block.len() > 0 && carries(setup, file, block.last())
}

proof fn lemma_block_tells(setup: ScanSetup, file: ScannedFile)
    ensures
        tells_file(setup, file, setup.output(file).messages),
{
    reveal(carries);
    law_supported_extensions(file.path, file.bytes->Ok_0);
}

proof fn lemma_carried_id(setup: ScanSetup, file: ScannedFile, message: MessageView)
    requires
        carries(setup, file, message),
    ensures
        message_id(message) == Some(document_id(file.path.relative)),
{
    reveal(carries);
}

proof fn lemma_of_more_files(
    setup: ScanSetup,
    files: Seq<ScannedFile>,
    file: ScannedFile,
    message: MessageView,
)
    requires
        of_file(setup, files, message),
    ensures
        of_file(setup, files.push(file), message),
        exists|j: int|
            0 <= j < files.len() && message_id(message) == Some(
                document_id((#[trigger] files[j]).path.relative),
            ),
{
    let j = choose|j: int|
        0 <= j < files.len() && setup.hands_document_on(#[trigger] files[j]) && carries(
            setup,
            files[j],
            message,
        );
    assert(files.push(file)[j] == files[j]);
    lemma_carried_id(setup, files[j], message);
}

proof fn lemma_tells_one_more(
    setup: ScanSetup,
    files: Seq<ScannedFile>,
    first: Seq<MessageView>,
    file: ScannedFile,
    block: Seq<MessageView>,
)
    requires
        tells_files(setup, files, first),
        tells_file(setup, file, block),
        forall|j: int|
            0 <= j < files.len() ==> document_id((#[trigger] files[j]).path.relative)
                != document_id(file.path.relative),
    ensures
        tells_files(setup, files.push(file), first + block),
{
    let all = first + block;
    let more = files.push(file);
    let n = first.len() as int;
    assert(more[files.len() as int] == file);
    assert forall|a: int| 0 <= a < all.len() && message_id(#[trigger] all[a]) is Some implies
        of_file(setup, more, all[a]) by {
        if a < n {
            assert(all[a] == first[a]);
            lemma_of_more_files(setup, files, file, first[a]);
        } else {
            assert(all[a] == block[a - n]);
        }
    }
    assert forall|a: int, b: int|
        #![trigger all[a], all[b]]
        0 <= a < b < all.len() && message_id(all[a]) is Some implies message_id(all[a])
        != message_id(all[b]) by {
        if b < n {
            assert(all[a] == first[a] && all[b] == first[b]);
        } else if a < n {
            assert(all[a] == first[a]);
            assert(all[b] == block[b - n]);
            lemma_of_more_files(setup, files, file, first[a]);
            if message_id(block[b - n]) is Some {
                lemma_carried_id(setup, file, block[b - n]);
            }
        } else {
            assert(all[a] == block[a - n]);
        }
    }
    assert forall|j: int|
        0 <= j < more.len() && setup.hands_document_on(#[trigger] more[j]) implies handed_on(
        setup,
        more[j],
        all,
    ) by {
        if j < files.len() {
            assert(more[j] == files[j]);
            let a = choose|a: int|
                0 <= a < first.len() && carries(setup, files[j], #[trigger] first[a]);
            assert(all[a] == first[a]);
        } else {
            assert(all[all.len() - 1] == block.last());
        }
    }
}

proof fn lemma_file_messages_tell(setup: ScanSetup, files: Seq<ScannedFile>)
    requires
        distinct_ids(files),
    ensures
        tells_files(setup, files, setup.file_messages(files)),
    decreases files.len(),
{
    if files.len() > 0 {
        let rest = files.drop_last();
        let file = files.last();
        assert(files[files.len() - 1] == file);
        assert forall|i: int, j: int| 0 <= i < j < rest.len() implies document_id(
            (#[trigger] rest[i]).path.relative,
        ) != document_id((#[trigger] rest[j]).path.relative) by {
            assert(rest[i] == files[i] && rest[j] == files[j]);
        }
        assert forall|j: int| 0 <= j < rest.len() implies document_id(
            (#[trigger] rest[j]).path.relative,
        ) != document_id(file.path.relative) by {
            assert(rest[j] == files[j]);
        }
        lemma_file_messages_tell(setup, rest);
        lemma_block_tells(setup, file);
        lemma_tells_one_more(
            setup,
            rest,
            setup.file_messages(rest),
            file,
            setup.output(file).messages,
        );
        assert(rest.push(file) =~= files);
    }
}

proof fn lemma_delete_ids(entries: Seq<(Seq<char>, ManifestEntry)>, seen: Set<Seq<char>>)
    requires
        forall|i: int, j: int|
            0 <= i < j < entries.len() ==> document_id((#[trigger] entries[i]).0) != document_id(
                (#[trigger] entries[j]).0,
            ),
    ensures
        forall|a: int, b: int|
            0 <= a < b < delete_events(entries, seen).len() ==> event_id(
                #[trigger] delete_events(entries, seen)[a],
            ) != event_id(#[trigger] delete_events(entries, seen)[b]),
    decreases entries.len(),
{
    if entries.len() > 0 {
        let rest = entries.drop_last();
        let before = delete_events(rest, seen);
        let events = delete_events(entries, seen);
        assert forall|i: int, j: int| 0 <= i < j < rest.len() implies document_id(
            (#[trigger] rest[i]).0,
        ) != document_id((#[trigger] rest[j]).0) by {
            assert(rest[i] == entries[i] && rest[j] == entries[j]);
        }
        lemma_delete_ids(rest, seen);
        assert forall|a: int, b: int| 0 <= a < b < events.len() implies event_id(
            #[trigger] events[a],
        ) != event_id(#[trigger] events[b]) by {
            assert(events[a] == before[a]);
            if b < before.len() {
                assert(events[b] == before[b]);
            } else {
                lemma_delete_events(rest, seen, before[a]);
                assert(before.contains(before[a]));
                let i = choose|i: int|
                    0 <= i < rest.len() && gone(#[trigger] rest[i], seen) && before[a]
                        == delete_event(rest[i].0);
                assert(rest[i] == entries[i]);
                assert(entries[entries.len() - 1] == entries.last());
                assert(document_id(entries[i].0) != document_id(entries.last().0));
            }
        }
    }
}

proof fn lemma_found(files: Seq<ScannedFile>, i: int)
    requires
        0 <= i < files.len(),
    ensures
        found_paths(files).contains(files[i].path.relative),
{
    let paths = files.map_values(|file: ScannedFile| file.path.relative);
    assert(paths[i] == files[i].path.relative);
}

/// The events at the end of a scan are those of the paths that go.
proof fn lemma_deletes(
    setup: ScanSetup,
    entries: Seq<(Seq<char>, ManifestEntry)>,
    files: Seq<ScannedFile>,
    event: EventView,
)
    requires
        ascending(entries),
        entries_map(entries) == setup.previous,
    ensures
        delete_events(entries, found_paths(files)).contains(event) <==> exists|path: Seq<char>|
            #[trigger] setup.goes(files, path) && event == delete_event(path),
{
    let seen = found_paths(files);
    lemma_delete_events(entries, seen, event);
    if delete_events(entries, seen).contains(event) {
        let i = choose|i: int|
            0 <= i < entries.len() && gone(#[trigger] entries[i], seen) && event == delete_event(
                entries[i].0,
            );
        lemma_position(entries, i);
        assert(setup.goes(files, entries[i].0));
    }
    if exists|path: Seq<char>| #[trigger]
        setup.goes(files, path) && event == delete_event(path) {
        let path = choose|path: Seq<char>| #[trigger]
            setup.goes(files, path) && event == delete_event(path);
        assert(entries_map(entries).contains_key(path));
        let i = choose|i: int| holds_at(entries, path, i);
        lemma_position(entries, i);
        assert(gone(entries[i], seen));
    }
}

proof fn lemma_messages_ids(
    setup: ScanSetup,
    entries: Seq<(Seq<char>, ManifestEntry)>,
    files: Seq<ScannedFile>,
)
    requires
        distinct_paths(files),
        ascending(entries),
        entries_map(entries) == setup.previous,
        ids_tell_paths(setup, files),
    ensures
        ({
            let messages = setup.messages(entries, files);
            &&& separate(messages)
            &&& forall|a: int|
                0 <= a < messages.len() && message_id(#[trigger] messages[a]) is Some ==> of_file(
                    setup,
                    files,
                    messages[a],
                ) || of_gone(setup, files, messages[a])
            &&& forall|j: int|
                0 <= j < files.len() && setup.hands_document_on(#[trigger] files[j]) ==> handed_on(
                    setup,
                    files[j],
                    messages,
                )
            &&& forall|path: Seq<char>| #[trigger]
                setup.goes(files, path) ==> messages.contains(
                    MessageView::Event(delete_event(path)),
                )
        }),
{
    let seen = found_paths(files);
    let first = setup.file_messages(files);
    let deletes = delete_events(entries, seen);
    let more = deletes.map_values(|event: EventView| MessageView::Event(event));
    let all = setup.messages(entries, files);
    let n = first.len() as int;
    assert forall|i: int, j: int| 0 <= i < j < files.len() implies document_id(
        (#[trigger] files[i]).path.relative,
    ) != document_id((#[trigger] files[j]).path.relative) by {
        lemma_found(files, i);
        lemma_found(files, j);
        assert(is_met(setup, files, files[i].path.relative));
        assert(is_met(setup, files, files[j].path.relative));
    }
    lemma_file_messages_tell(setup, files);
    assert forall|i: int, j: int| 0 <= i < j < entries.len() implies document_id(
        (#[trigger] entries[i]).0,
    ) != document_id((#[trigger] entries[j]).0) by {
        lemma_position(entries, i);
        lemma_position(entries, j);
        assert(is_met(setup, files, entries[i].0));
        assert(is_met(setup, files, entries[j].0));
        assert(text_less(entries[i].0, entries[j].0));
        lemma_text_less_irreflexive(entries[i].0);
    }
    lemma_delete_ids(entries, seen);
    assert forall|a: int| 0 <= a < more.len() implies of_gone(setup, files, #[trigger] more[a]) by {
        lemma_deletes(setup, entries, files, deletes[a]);
        assert(deletes.contains(deletes[a]));
    }
    assert forall|a: int| 0 <= a < all.len() && message_id(#[trigger] all[a]) is Some implies
        of_file(setup, files, all[a]) || of_gone(setup, files, all[a]) by {
        if a < n {
            assert(all[a] == first[a]);
        } else {
            assert(all[a] == more[a - n]);
        }
    }
    assert forall|a: int, b: int|
        #![trigger all[a], all[b]]
        0 <= a < b < all.len() && message_id(all[a]) is Some implies message_id(all[a])
        != message_id(all[b]) by {
        if b < n {
            assert(all[a] == first[a] && all[b] == first[b]);
        } else if a < n {
            assert(all[a] == first[a]);
            assert(all[b] == more[b - n]);
            lemma_ids_apart(setup, files, all[a], all[b]);
        } else {
            assert(all[a] == more[a - n] && all[b] == more[b - n]);
            assert(event_id(deletes[a - n]) != event_id(deletes[b - n]));
        }
    }
    assert forall|j: int|
        0 <= j < files.len() && setup.hands_document_on(#[trigger] files[j]) implies handed_on(
        setup,
        files[j],
        all,
    ) by {
        let a = choose|a: int|
            0 <= a < first.len() && carries(setup, files[j], #[trigger] first[a]);
        assert(all[a] == first[a]);
    }
    assert forall|path: Seq<char>| #[trigger] setup.goes(files, path) implies all.contains(
        MessageView::Event(delete_event(path)),
    ) by {
        lemma_deletes(setup, entries, files, delete_event(path));
        let k = deletes.index_of(delete_event(path));
        assert(all[n + k] == more[k]);
    }
}

proof fn lemma_ids_apart(
    setup: ScanSetup,
    files: Seq<ScannedFile>,
    kept: MessageView,
    removed: MessageView,
)
    requires
        ids_tell_paths(setup, files),
        of_file(setup, files, kept),
        of_gone(setup, files, removed),
    ensures
        message_id(kept) != message_id(removed),
{
    let j = choose|j: int|
        0 <= j < files.len() && setup.hands_document_on(#[trigger] files[j]) && carries(
            setup,
            files[j],
            kept,
        );
    let path = choose|path: Seq<char>| #[trigger]
        setup.goes(files, path) && removed == MessageView::Event(delete_event(path));
    lemma_carried_id(setup, files[j], kept);
    lemma_found(files, j);
    assert(is_met(setup, files, files[j].path.relative));
    assert(is_met(setup, files, path));
}

/// However its threads take turns, a run leaves in the index the document of every file that it
/// hands on, none of a file that was indexed before and is not found any more, and everything else
/// as it was: also the documents of files that are unchanged, or that could not be read.
pub proof fn law_run_leaves_the_documents_of_its_files(
    setup: ScanSetup,
    entries: Seq<(Seq<char>, ManifestEntry)>,
    files: Seq<ScannedFile>,
    deliveries: Seq<Delivery>,
    index: Map<Seq<char>, Seq<char>>,
)
    requires
        distinct_paths(files),
        ascending(entries),
        entries_map(entries) == setup.previous,
        ids_tell_paths(setup, files),
        delivered(setup.messages(entries, files), deliveries).over(setup.messages(entries, files)),
    ensures
        ({
            let after = index_after_all(
                index,
                delivered(setup.messages(entries, files), deliveries).events,
            );
            &&& forall|i: int|
                0 <= i < files.len() && setup.hands_document_on(#[trigger] files[i])
                    ==> holds_document(after, setup, files[i])
            &&& forall|i: int|
                0 <= i < files.len() && !setup.hands_document_on(#[trigger] files[i]) ==> same_at(
                    after,
                    index,
                    document_id(files[i].path.relative),
                )
            &&& forall|path: Seq<char>| #[trigger]
                setup.goes(files, path) ==> !after.contains_key(document_id(path))
            &&& forall|id: Seq<char>|
                (forall|path: Seq<char>|
                    is_met(setup, files, path) ==> id != #[trigger] document_id(path))
                    ==> #[trigger] same_at(after, index, id)
        }),
{
    let messages = setup.messages(entries, files);
    let pipe = delivered(messages, deliveries);
    let after = index_after_all(index, pipe.events);
    lemma_messages_ids(setup, entries, files);
    lemma_keeps_up(messages, index, deliveries);
    assert forall|i: int|
        0 <= i < files.len() && setup.hands_document_on(#[trigger] files[i]) implies holds_document(
        after,
        setup,
        files[i],
    ) by {
        let a = choose|a: int|
            0 <= a < messages.len() && carries(setup, files[i], #[trigger] messages[a]);
        lemma_carried_is_held(setup, files[i], messages, index, pipe, a);
    }
    assert forall|i: int|
        0 <= i < files.len() && !setup.hands_document_on(#[trigger] files[i]) implies same_at(
        after,
        index,
        document_id(files[i].path.relative),
    ) by {
        let path = files[i].path.relative;
        lemma_found(files, i);
        assert(is_met(setup, files, path));
        if touched(messages, messages.len() as int, document_id(path)) {
            let a = choose|a: int|
                0 <= a < messages.len() && message_id(#[trigger] messages[a]) == Some(
                    document_id(path),
                );
            lemma_touched_path(setup, files, messages[a]);
        }
    }
    assert forall|path: Seq<char>| #[trigger] setup.goes(files, path) implies !after.contains_key(
        document_id(path),
    ) by {
        let a = messages.index_of(MessageView::Event(delete_event(path)));
        assert(messages[a] is Event);
    }
    assert forall|id: Seq<char>|
        (forall|path: Seq<char>|
            is_met(setup, files, path) ==> id != #[trigger] document_id(path)) implies
        #[trigger] same_at(after, index, id) by {
        if touched(messages, messages.len() as int, id) {
            let a = choose|a: int|
                0 <= a < messages.len() && message_id(#[trigger] messages[a]) == Some(id);
            lemma_touched_path(setup, files, messages[a]);
        }
    }
}

/// A message about a document is about that of a file found or of one that is gone.
proof fn lemma_touched_path(setup: ScanSetup, files: Seq<ScannedFile>, message: MessageView)
    requires
        of_file(setup, files, message) || of_gone(setup, files, message),
    ensures
        exists|path: Seq<char>| #[trigger]
            is_met(setup, files, path) && message_id(message) == Some(document_id(path)) && (
            setup.goes(files, path) || exists|j: int|
                0 <= j < files.len() && setup.hands_document_on(#[trigger] files[j])
                    && files[j].path.relative == path),
{
    if of_file(setup, files, message) {
        let j = choose|j: int|
            0 <= j < files.len() && setup.hands_document_on(#[trigger] files[j]) && carries(
                setup,
                files[j],
                message,
            );
        lemma_carried_id(setup, files[j], message);
        lemma_found(files, j);
        assert(is_met(setup, files, files[j].path.relative));
    } else {
        let path = choose|path: Seq<char>| #[trigger]
            setup.goes(files, path) && message == MessageView::Event(delete_event(path));
        assert(is_met(setup, files, path));
    }
}

proof fn lemma_carried_is_held(
    setup: ScanSetup,
    file: ScannedFile,
    messages: Seq<MessageView>,
    index: Map<Seq<char>, Seq<char>>,
    pipe: Pipeline,
    a: int,
)
    requires
        keeps_up(messages, index, pipe),
        pipe.over(messages),
        0 <= a < messages.len(),
        carries(setup, file, messages[a]),
    ensures
        holds_document(index_after_all(index, pipe.events), setup, file),
{
    reveal(carries);
    let after = index_after_all(index, pipe.events);
    match messages[a] {
        MessageView::Event(event) => {
            assert(made(after, event));
            assert(after[document_id(file.path.relative)] == document_json_text(
                setup.indexed_document(file, None),
            ));
        },
        MessageView::Embed(job) => {
            let k = pipe.queued.index_of(job);
            assert(pipe.queued[k] == job);
            let vector = choose|vector: Option<Seq<char>>|
                made(after, #[trigger] embedded_event(job, vector));
            assert(after[document_id(file.path.relative)] == document_json_text(
                setup.indexed_document(file, vector),
            ));
        },
    }
}

/// The document of a file in this state is in the index, and waits for nothing.
pub open spec fn settled(state: FileState) -> bool {
    state is Indexed || state is IndexedMetadata
}

/// Every file that the entries have as indexed, and not as waiting, has its document in the index.
pub open spec fn documented(
    index: Map<Seq<char>, Seq<char>>,
    entries: Map<Seq<char>, ManifestEntry>,
) -> bool {
    forall|path: Seq<char>| #[trigger]
        entries.contains_key(path) && settled(entries[path].state) ==> index.contains_key(
            document_id(path),
        )
}

impl ScanSetup {
    /// Every file that the entries have as indexed, and not as waiting, has its document in the
    /// index, but for files that are gone: these lose theirs.
    pub open spec fn documents_kept(
        self,
        files: Seq<ScannedFile>,
        index: Map<Seq<char>, Seq<char>>,
        entries: Map<Seq<char>, ManifestEntry>,
    ) -> bool {
        forall|path: Seq<char>| #[trigger]
            entries.contains_key(path) && settled(entries[path].state) && !self.goes(files, path)
                ==> index.contains_key(document_id(path))
    }
}

/// What a change that comes from a scan is like: it puts the document of a file found into the
/// index and records its entry, or records that the file waits or is as it was, or takes the
/// document of a file that is gone out and records nothing.
spec fn sound(setup: ScanSetup, files: Seq<ScannedFile>, event: EventView) -> bool {
    match event {
        EventView::Upsert { document_id: id, progress, .. } => match progress {
            Some(update) => found_paths(files).contains(update.path) && id == document_id(
                update.path,
            ),
            None => false,
        },
        EventView::Delete { document_id: id, progress } => progress is None
            && exists|path: Seq<char>| #[trigger]
            setup.goes(files, path) && id == document_id(path),
        EventView::Progress(update) => found_paths(files).contains(update.path) && (
        update.entry.state.pending() || (setup.previous.contains_key(update.path)
            && setup.previous[update.path] == update.entry)),
    }
}

spec fn sound_message(setup: ScanSetup, files: Seq<ScannedFile>, message: MessageView) -> bool {
    match message {
        MessageView::Event(event) => sound(setup, files, event),
        MessageView::Embed(job) => sound(setup, files, embedded_event(job, None)),
    }
}

proof fn lemma_block_sound(setup: ScanSetup, files: Seq<ScannedFile>, file: ScannedFile, a: int)
    requires
        found_paths(files).contains(file.path.relative),
        0 <= a < setup.output(file).messages.len(),
    ensures
        sound_message(setup, files, setup.output(file).messages[a]),
{
}

proof fn lemma_file_messages_sound(setup: ScanSetup, files: Seq<ScannedFile>, n: int, a: int)
    requires
        0 <= n <= files.len(),
        0 <= a < setup.file_messages(files.take(n)).len(),
    ensures
        sound_message(setup, files, setup.file_messages(files.take(n))[a]),
    decreases n,
{
    if n == 0 {
        assert(files.take(0) =~= Seq::empty());
    } else {
        assert(files.take(n).drop_last() =~= files.take(n - 1));
        let first = setup.file_messages(files.take(n - 1));
        if a < first.len() {
            lemma_file_messages_sound(setup, files, n - 1, a);
        } else {
            lemma_found(files, n - 1);
            lemma_block_sound(setup, files, files[n - 1], a - first.len());
        }
    }
}

proof fn lemma_messages_sound(
    setup: ScanSetup,
    entries: Seq<(Seq<char>, ManifestEntry)>,
    files: Seq<ScannedFile>,
    a: int,
)
    requires
        ascending(entries),
        entries_map(entries) == setup.previous,
        0 <= a < setup.messages(entries, files).len(),
    ensures
        sound_message(setup, files, setup.messages(entries, files)[a]),
{
    let first = setup.file_messages(files);
    let deletes = delete_events(entries, found_paths(files));
    assert(files.take(files.len() as int) =~= files);
    if a < first.len() {
        lemma_file_messages_sound(setup, files, files.len() as int, a);
    } else {
        let event = deletes[a - first.len()];
        lemma_deletes(setup, entries, files, event);
        assert(deletes.contains(event));
    }
}

/// All that comes to the index, and all that waits to be embedded, is sound.
spec fn sound_pipe(setup: ScanSetup, files: Seq<ScannedFile>, pipe: Pipeline) -> bool {
    &&& 0 <= pipe.sent
    &&& 0 <= pipe.taken
    &&& forall|k: int|
        0 <= k < pipe.queued.len() ==> sound_message(
            setup,
            files,
            MessageView::Embed(#[trigger] pipe.queued[k]),
        )
    &&& forall|m: int|
        0 <= m < pipe.events.len() ==> sound(setup, files, #[trigger] pipe.events[m])
}

proof fn lemma_delivered_sound(
    setup: ScanSetup,
    files: Seq<ScannedFile>,
    messages: Seq<MessageView>,
    deliveries: Seq<Delivery>,
)
    requires
        forall|a: int|
            0 <= a < messages.len() ==> sound_message(setup, files, #[trigger] messages[a]),
    ensures
        sound_pipe(setup, files, delivered(messages, deliveries)),
    decreases deliveries.len(),
{
    if deliveries.len() > 0 {
        lemma_delivered_sound(setup, files, messages, deliveries.drop_last());
        let pipe = delivered(messages, deliveries.drop_last());
        match deliveries.last() {
            Delivery::Scan => if pipe.sent < messages.len() {
                assert(sound_message(setup, files, messages[pipe.sent]));
            },
            Delivery::Embedding(_) => if pipe.taken < pipe.queued.len() {
                assert(sound_message(setup, files, MessageView::Embed(pipe.queued[pipe.taken])));
            },
        }
    }
}

/// A document that was there, or was put there, stays as long as nothing takes it out.
proof fn lemma_document_stays(
    start: Map<Seq<char>, Seq<char>>,
    events: Seq<EventView>,
    id: Seq<char>,
)
    requires
        start.contains_key(id) || exists|m: int|
            0 <= m < events.len() && (#[trigger] events[m]) is Upsert && event_id(events[m])
                == Some(id),
        forall|m: int|
            0 <= m < events.len() && (#[trigger] events[m]) is Delete ==> event_id(events[m])
                != Some(id),
    ensures
        index_after_all(start, events).contains_key(id),
    decreases events.len(),
{
    if events.len() > 0 {
        let rest = events.drop_last();
        let last = events[events.len() - 1];
        assert(last == events.last());
        if !(last is Upsert && event_id(last) == Some(id)) {
            if !start.contains_key(id) {
                let m = choose|m: int|
                    0 <= m < events.len() && (#[trigger] events[m]) is Upsert && event_id(
                        events[m],
                    ) == Some(id);
                assert(rest[m] == events[m]);
            }
            assert forall|m: int| 0 <= m < rest.len() && (#[trigger] rest[m]) is Delete implies
                event_id(rest[m]) != Some(id) by {
                assert(rest[m] == events[m]);
            }
            lemma_document_stays(start, rest, id);
        }
    }
}

/// An entry comes from an update, or was there before.
proof fn lemma_entry_source(
    entries: Map<Seq<char>, ManifestEntry>,
    updates: Seq<ProgressView>,
    path: Seq<char>,
)
    requires
        updated(entries, updates).contains_key(path),
    ensures
        updates.contains(ProgressView { path, entry: updated(entries, updates)[path] })
            || entries.contains_key(path) && entries[path] == updated(entries, updates)[path],
    decreases updates.len(),
{
    if updates.len() > 0 {
        let rest = updates.drop_last();
        let update = ProgressView { path, entry: updated(entries, updates)[path] };
        if updates.last().path == path {
            assert(updates[updates.len() - 1] == update);
        } else {
            lemma_entry_source(entries, rest, path);
            if rest.contains(update) {
                let k = rest.index_of(update);
                assert(updates[k] == update);
            }
        }
    }
}

/// An update that changes record is that of one of them.
proof fn lemma_update_source(events: Seq<EventView>, update: ProgressView)
    requires
        progress_of(events).contains(update),
    ensures
        exists|m: int|
            0 <= m < events.len() && event_progress(#[trigger] events[m]) == Some(update),
    decreases events.len(),
{
    if events.len() > 0 {
        let rest = events.drop_last();
        if event_progress(events.last()) == Some(update) {
            assert(event_progress(events[events.len() - 1]) == Some(update));
        } else {
            let k = progress_of(events).index_of(update);
            assert(progress_of(rest)[k] == update);
            assert(progress_of(rest).contains(update));
            lemma_update_source(rest, update);
            let m = choose|m: int|
                0 <= m < rest.len() && event_progress(#[trigger] rest[m]) == Some(update);
            assert(events[m] == rest[m]);
        }
    }
}

/// No change takes the document of a path out that does not go.
proof fn lemma_not_taken_out(
    setup: ScanSetup,
    files: Seq<ScannedFile>,
    events: Seq<EventView>,
    path: Seq<char>,
)
    requires
        ids_tell_paths(setup, files),
        is_met(setup, files, path),
        !setup.goes(files, path),
        forall|m: int| 0 <= m < events.len() ==> sound(setup, files, #[trigger] events[m]),
    ensures
        forall|m: int|
            0 <= m < events.len() && (#[trigger] events[m]) is Delete ==> event_id(events[m])
                != Some(document_id(path)),
{
    assert forall|m: int| 0 <= m < events.len() && (#[trigger] events[m]) is Delete implies
        event_id(events[m]) != Some(document_id(path)) by {
        assert(sound(setup, files, events[m]));
        let other = choose|other: Seq<char>| #[trigger]
            setup.goes(files, other) && event_id(events[m]) == Some(document_id(other));
        assert(is_met(setup, files, other));
    }
}

/// At every moment of a run, also of one that is broken off, a file that is recorded as indexed, and
/// not as waiting for its embedding, has its document in the index. `taken_up` are the entries of an
/// unfinished run that this one takes up, if any. Of these the ones whose files are gone since may
/// have lost their documents already; what this run records itself is never of such a file. The same
/// holds of what the next run starts from, should this one not be finished.
pub proof fn law_recorded_file_has_its_document(
    setup: ScanSetup,
    entries: Seq<(Seq<char>, ManifestEntry)>,
    files: Seq<ScannedFile>,
    deliveries: Seq<Delivery>,
    taken_up: Map<Seq<char>, ManifestEntry>,
    run: RunState,
)
    requires
        ascending(entries),
        entries_map(entries) == setup.previous,
        ids_tell_paths(setup, files),
        taken_up.dom().subset_of(setup.previous.dom()),
        setup.documents_kept(files, run.start, setup.previous),
        setup.documents_kept(files, run.start, taken_up),
        run.events == delivered(setup.messages(entries, files), deliveries).events,
        recorded_after_made(run),
    ensures
        documented(run.index, updated(Map::empty(), run.recorded)),
        setup.documents_kept(files, run.index, updated(taken_up, run.recorded)),
        setup.documents_kept(
            files,
            run.index,
            setup.previous.union_prefer_right(updated(taken_up, run.recorded)),
        ),
        forall|k: int|
            0 <= k < run.recorded.len() ==> !setup.goes(files, (#[trigger] run.recorded[k]).path),
{
    let messages = setup.messages(entries, files);
    assert forall|a: int| 0 <= a < messages.len() implies sound_message(
        setup,
        files,
        #[trigger] messages[a],
    ) by {
        lemma_messages_sound(setup, entries, files, a);
    }
    lemma_delivered_sound(setup, files, messages, deliveries);
    let n = choose|n: int| made_up_to(run, n);
    let events = run.events.take(n);
    assert forall|m: int| 0 <= m < events.len() implies sound(
        setup,
        files,
        #[trigger] events[m],
    ) by {
        assert(events[m] == run.events[m]);
    }
    assert forall|k: int| 0 <= k < run.recorded.len() implies found_paths(files).contains(
        (#[trigger] run.recorded[k]).path,
    ) && (settled(run.recorded[k].entry.state) ==> run.index.contains_key(
        document_id(run.recorded[k].path),
    )) by {
        lemma_recorded_file(setup, files, events, run, k);
    }
    let after = updated(taken_up, run.recorded);
    assert forall|path: Seq<char>| #[trigger]
        after.contains_key(path) && settled(after[path].state) && !setup.goes(files, path) implies
        run.index.contains_key(document_id(path)) by {
        lemma_entry_source(taken_up, run.recorded, path);
        let update = ProgressView { path, entry: after[path] };
        if run.recorded.contains(update) {
            let k = run.recorded.index_of(update);
            assert(run.recorded[k] == update);
        } else {
            assert(taken_up.dom().contains(path));
            assert(is_met(setup, files, path));
            lemma_not_taken_out(setup, files, events, path);
            lemma_document_stays(run.start, events, document_id(path));
        }
    }
    let next = setup.previous.union_prefer_right(after);
    assert forall|path: Seq<char>| #[trigger]
        next.contains_key(path) && settled(next[path].state) && !setup.goes(files, path) implies
        run.index.contains_key(document_id(path)) by {
        if !after.contains_key(path) {
            assert(setup.previous.contains_key(path));
            assert(is_met(setup, files, path));
            lemma_not_taken_out(setup, files, events, path);
            lemma_document_stays(run.start, events, document_id(path));
        }
    }
    let recorded = updated(Map::empty(), run.recorded);
    assert forall|path: Seq<char>| #[trigger]
        recorded.contains_key(path) && settled(recorded[path].state) implies run.index.contains_key(
        document_id(path),
    ) by {
        lemma_entry_source(Map::empty(), run.recorded, path);
        let update = ProgressView { path, entry: recorded[path] };
        let k = run.recorded.index_of(update);
        assert(run.recorded[k] == update);
    }
}

proof fn lemma_recorded_file(
    setup: ScanSetup,
    files: Seq<ScannedFile>,
    events: Seq<EventView>,
    run: RunState,
    k: int,
)
    requires
        ids_tell_paths(setup, files),
        setup.documents_kept(files, run.start, setup.previous),
        forall|m: int| 0 <= m < events.len() ==> sound(setup, files, #[trigger] events[m]),
        run.index == index_after_all(run.start, events),
        run.recorded.is_prefix_of(progress_of(events)),
        0 <= k < run.recorded.len(),
    ensures
        found_paths(files).contains(run.recorded[k].path),
        settled(run.recorded[k].entry.state) ==> run.index.contains_key(
            document_id(run.recorded[k].path),
        ),
{
    let update = run.recorded[k];
    assert(progress_of(events)[k] == update);
    assert(progress_of(events).contains(update));
    lemma_update_source(events, update);
    let m = choose|m: int|
        0 <= m < events.len() && event_progress(#[trigger] events[m]) == Some(update);
    assert(sound(setup, files, events[m]));
    if settled(update.entry.state) {
        assert(is_met(setup, files, update.path));
        lemma_not_taken_out(setup, files, events, update.path);
        if events[m] is Progress {
            assert(setup.previous.contains_key(update.path));
        }
        lemma_document_stays(run.start, events, document_id(update.path));
    }
}

/// A file whose document a run hands on is recorded so that its document goes once the file is not
/// found any more, however it was indexed.
pub proof fn law_indexed_file_goes_once_it_is_missing(
    setup: ScanSetup,
    file: ScannedFile,
    next: ScanSetup,
    entries: Seq<(Seq<char>, ManifestEntry)>,
    files: Seq<ScannedFile>,
) -> (event: EventView)
    requires
        setup.hands_document_on(file),
        ascending(entries),
        entries_map(entries) == next.previous,
        next.previous.contains_key(file.path.relative),
        next.previous[file.path.relative] == setup.final_entry(file),
        !found_paths(files).contains(file.path.relative),
    ensures
        takes_out(event, file.path.relative),
        next.messages(entries, files).contains(MessageView::Event(event)),
        next.goes(files, file.path.relative),
{
    let path = file.path.relative;
    let seen = found_paths(files);
    let deletes = delete_events(entries, seen);
    let i = choose|i: int| holds_at(entries, path, i);
    lemma_position(entries, i);
    law_missing_file_loses_its_document(entries, seen, i);
    let k = choose|k: int| 0 <= k < deletes.len() && takes_out(#[trigger] deletes[k], path);
    let all = next.messages(entries, files);
    assert(all[next.file_messages(files).len() as int + k] == MessageView::Event(deletes[k]));
    deletes[k]
}

/// The documents are listed from the index, so that the document under the id of a recorded path is
/// that of the path.
pub open spec fn listed_from(
    documents: Seq<serde_json::Map<String, Value>>,
    files: Map<Seq<char>, ManifestEntry>,
) -> bool {
    &&& identified(documents)
    &&& forall|i: int, path: Seq<char>|
        0 <= i < documents.len() && #[trigger] files.contains_key(path) && held_id(
            #[trigger] documents[i],
        ) == Some(document_id(path)) ==> held_path(documents[i]) == Some(path)
}

/// After a run that takes an unfinished one up, and the repair at its end, the index still holds the
/// document of every file that is recorded as indexed, with its contents or by its name, and that is
/// not gone.
pub proof fn law_repaired_index_holds_the_documents_of_recorded_files(
    setup: ScanSetup,
    entries: Seq<(Seq<char>, ManifestEntry)>,
    files: Seq<ScannedFile>,
    deliveries: Seq<Delivery>,
    taken_up: Map<Seq<char>, ManifestEntry>,
    run: RunState,
    documents: Seq<serde_json::Map<String, Value>>,
)
    requires
        ascending(entries),
        entries_map(entries) == setup.previous,
        ids_tell_paths(setup, files),
        taken_up.dom().subset_of(setup.previous.dom()),
        setup.documents_kept(files, run.start, setup.previous),
        setup.documents_kept(files, run.start, taken_up),
        run.events == delivered(setup.messages(entries, files), deliveries).events,
        recorded_after_made(run),
        listed_from(documents, updated(taken_up, run.recorded)),
    ensures
        setup.documents_kept(
            files,
            run.index.remove_keys(
                orphan_ids(updated(taken_up, run.recorded), documents).to_set(),
            ),
            updated(taken_up, run.recorded),
        ),
{
    law_recorded_file_has_its_document(setup, entries, files, deliveries, taken_up, run);
    let recorded = updated(taken_up, run.recorded);
    let ids = orphan_ids(recorded, documents);
    let repaired = run.index.remove_keys(ids.to_set());
    assert forall|path: Seq<char>| #[trigger]
        recorded.contains_key(path) && settled(recorded[path].state) && !setup.goes(
            files,
            path,
        ) implies repaired.contains_key(document_id(path)) by {
        let id = document_id(path);
        assert(run.index.contains_key(id));
        if ids.contains(id) {
            law_repair_takes_out_documents_of_the_index(recorded, documents, id);
            let i = choose|i: int|
                0 <= i < documents.len() && held_id(#[trigger] documents[i]) == Some(id);
            law_repair_keeps_the_documents_of_recorded_files(recorded, documents, i, id);
        }
    }
}

} // verus!
