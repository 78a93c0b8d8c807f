//! What the embedder is asked for, job by job, and where its answers go.

use crate::api::no_stats;
use crate::constants::EMBEDDING_BATCH_DOC_LIMIT;
use crate::document::{document_json_text, DocumentView};
use crate::embedding::{
    assigned, embedded_event, emit_embedded_document, flush_of, job_image, job_text, kind_indices,
    paired, queue_action, single_vector, EmbedRequest, EmbeddingFlush, EmbeddingQueue, FlushStep,
    FlushView, InputKind, QueueAction, QueueEvent, RequestView,
};
use crate::error::SearchxError;
use crate::manifest::{FileFingerprint, ManifestEntry};
use crate::paths::EntryPathView;
use crate::scan::{
    bytes_output, EmbeddingJob, EmbeddingJobInput, EventView, IndexEvent, InputView, JobView,
    MessageView,
};
use crate::scan_laws::{law_text_file_is_indexed_whole, named_as_image, named_as_pdf};
use vstd::prelude::*;
use vstd::utf8::*;

verus! {

/// The places, in ascending order, of the jobs that are embedded by an image, or of the others.
pub open spec fn places_of(at: Seq<int>, jobs: Seq<JobView>, images: bool) -> bool {
    &&& forall|a: int, b: int| 0 <= a < b < at.len() ==> #[trigger] at[a] < #[trigger] at[b]
    &&& forall|k: int|
        0 <= k < at.len() ==> 0 <= (#[trigger] at[k]) < jobs.len() && (jobs[at[k]].input is Image
            == images)
    &&& forall|i: int|
        0 <= i < jobs.len() && ((#[trigger] jobs[i]).input is Image == images) ==> at.contains(i)
}

/// The text is what a job is embedded by: its own text where it has one, and otherwise all contents
/// of its document.
pub open spec fn is_text_of(text: Seq<char>, job: JobView) -> bool {
    match job.input {
        InputView::Text(own) => text == own,
        InputView::DocumentContents => text == job.document.contents,
        InputView::Image(_) => false,
    }
}

/// The embedder is asked for the jobs at some places, in this order, and for nothing else.
pub open spec fn asks_for(
    request: Option<RequestView>,
    jobs: Seq<JobView>,
    at: Seq<int>,
    images: bool,
) -> bool {
    match request {
        Some(RequestView::Texts(texts)) => {
            &&& !images
            &&& texts.len() == at.len()
            &&& forall|k: int| 0 <= k < at.len() ==> is_text_of(#[trigger] texts[k], jobs[at[k]])
        },
        Some(RequestView::Images(given)) => {
            &&& images
            &&& given.len() == at.len()
            &&& forall|k: int|
                0 <= k < at.len() ==> jobs[at[k]].input == InputView::Image(#[trigger] given[k])
        },
        None => false,
    }
}

/// The vectors that were given have gone to the places, each to its own, as far as they go, and
/// nothing else has changed.
pub open spec fn given_to(
    before: Seq<Option<Seq<char>>>,
    after: Seq<Option<Seq<char>>>,
    at: Seq<int>,
    given: Seq<Seq<char>>,
) -> bool {
    &&& after.len() == before.len()
    &&& forall|k: int|
        0 <= k < at.len() && k < given.len() ==> after[#[trigger] at[k]] == Some(given[k])
    &&& forall|k: int|
        given.len() <= k < at.len() ==> after[#[trigger] at[k]] == before[at[k]]
    &&& forall|i: int|
        0 <= i < before.len() && !at.contains(i) ==> #[trigger] after[i] == before[i]
}

proof fn lemma_places(jobs: Seq<JobView>, kind: InputKind)
    ensures
        places_of(kind_indices(jobs, kind), jobs, kind == InputKind::Image),
    decreases jobs.len(),
{
    let at = kind_indices(jobs, kind);
    let images = kind == InputKind::Image;
    if jobs.len() > 0 {
        let rest = jobs.drop_last();
        let before = kind_indices(rest, kind);
        lemma_places(rest, kind);
        let last = jobs[jobs.len() - 1];
        assert(last == jobs.last());
        assert forall|k: int| 0 <= k < at.len() implies 0 <= (#[trigger] at[k]) < jobs.len() && (
        jobs[at[k]].input is Image == images) by {
            if k < before.len() {
                assert(at[k] == before[k]);
                assert(rest[before[k]] == jobs[before[k]]);
            }
        }
        assert forall|i: int| 0 <= i < jobs.len() && ((#[trigger] jobs[i]).input is Image
            == images) implies at.contains(i) by {
            if i < rest.len() {
                assert(rest[i] == jobs[i]);
                let k = before.index_of(i);
                assert(at[k] == i);
            } else {
                assert(at[before.len() as int] == i);
            }
        }
        assert forall|a: int, b: int| 0 <= a < b < at.len() implies #[trigger] at[a]
            < #[trigger] at[b] by {
            assert(at[a] == before[a]);
            if b < before.len() {
                assert(at[b] == before[b]);
            }
        }
    }
}

proof fn lemma_given(
    before: Seq<Option<Seq<char>>>,
    at: Seq<int>,
    given: Seq<Seq<char>>,
    n: int,
)
    requires
        0 <= n <= at.len(),
        n <= given.len(),
        forall|a: int, b: int| 0 <= a < b < at.len() ==> #[trigger] at[a] < #[trigger] at[b],
        forall|k: int| 0 <= k < at.len() ==> 0 <= (#[trigger] at[k]) < before.len(),
    ensures
        ({
            let after = assigned(before, at, given, n);
            &&& after.len() == before.len()
            &&& forall|k: int| 0 <= k < n ==> after[#[trigger] at[k]] == Some(given[k])
            &&& forall|k: int| n <= k < at.len() ==> after[#[trigger] at[k]] == before[at[k]]
            &&& forall|i: int|
                0 <= i < before.len() && !at.contains(i) ==> #[trigger] after[i] == before[i]
        }),
    decreases n,
{
    if n > 0 {
        lemma_given(before, at, given, n - 1);
        let earlier = assigned(before, at, given, n - 1);
        let after = assigned(before, at, given, n);
        assert(0 <= at[n - 1] < before.len());
        assert(at.contains(at[n - 1]));
        assert forall|k: int| 0 <= k < n implies after[#[trigger] at[k]] == Some(given[k]) by {
            if k < n - 1 {
                assert(at[k] < at[n - 1]);
            }
        }
        assert forall|k: int| n <= k < at.len() implies after[#[trigger] at[k]]
            == before[at[k]] by {
            assert(at[n - 1] < at[k]);
        }
    }
}

/// All jobs of a kind are asked for together, each by what it is embedded by, and the vectors that
/// come back go to these jobs, in the same order.
pub proof fn law_each_answer_goes_to_the_job_that_asked(
    flush: FlushView,
    kind: InputKind,
    given: Seq<Seq<char>>,
) -> (at: Seq<int>)
    requires
        flush.wf(),
        flush.step == (FlushStep::Batch { kind }),
    ensures
        places_of(at, flush.jobs, kind == InputKind::Image),
        at.len() > 0,
        asks_for(flush.request(), flush.jobs, at, kind == InputKind::Image),
        given_to(flush.vectors, flush.after_vectors(given).vectors, at, given),
        flush.after_vectors(given).jobs == flush.jobs,
{
    let at = kind_indices(flush.jobs, kind);
    let images = kind == InputKind::Image;
    lemma_places(flush.jobs, kind);
    lemma_given(flush.vectors, at, given, paired(at, given));
    assert forall|k: int| 0 <= k < at.len() implies (flush.jobs[#[trigger] at[k]].input is Image
        == images) by {}
    match flush.request() {
        Some(RequestView::Texts(texts)) => {
            assert forall|k: int| 0 <= k < at.len() implies is_text_of(
                #[trigger] texts[k],
                flush.jobs[at[k]],
            ) by {
                assert(flush.jobs[at[k]].input is Image == images);
            }
        },
        Some(RequestView::Images(bytes)) => {
            assert forall|k: int| 0 <= k < at.len() implies flush.jobs[at[k]].input
                == InputView::Image(#[trigger] bytes[k]) by {
                assert(flush.jobs[at[k]].input is Image == images);
            }
        },
        None => {},
    }
    at
}

/// Where the embedder has failed on all jobs of a kind, each of them is asked for by itself, by what
/// it is embedded by, and gets the first vector that comes back, if any does.
pub proof fn law_single_answer_goes_to_the_job_that_asked(
    flush: FlushView,
    kind: InputKind,
    next: usize,
    given: Seq<Seq<char>>,
) -> (at: Seq<int>)
    requires
        flush.wf(),
        flush.step == (FlushStep::Single { kind, next }),
    ensures
        places_of(at, flush.jobs, kind == InputKind::Image),
        next < at.len(),
        asks_for(
            flush.request(),
            flush.jobs,
            seq![at[next as int]],
            kind == InputKind::Image,
        ),
        given_to(
            flush.vectors,
            flush.after_vectors(given).vectors,
            seq![at[next as int]],
            given,
        ),
        flush.after_vectors(given).jobs == flush.jobs,
        flush.after_failure().jobs == flush.jobs,
        flush.after_failure().vectors == flush.vectors,
{
    let at = kind_indices(flush.jobs, kind);
    let images = kind == InputKind::Image;
    lemma_places(flush.jobs, kind);
    let i = at[next as int];
    let one = seq![i];
    assert(flush.jobs[i].input is Image == images);
    match flush.request() {
        Some(RequestView::Texts(texts)) => {
            assert(texts[0] == job_text(flush.jobs[one[0]]));
        },
        Some(RequestView::Images(bytes)) => {
            assert(bytes[0] == job_image(flush.jobs[one[0]]));
        },
        None => {},
    }
    let after = flush.after_vectors(given).vectors;
    assert forall|j: int| 0 <= j < flush.vectors.len() && !one.contains(j) implies
        #[trigger] after[j] == flush.vectors[j] by {
        if j == i {
            assert(one[0] == j);
        }
    }
    at
}

/// One of the jobs is embedded by an image, or one is not.
pub open spec fn has_job(jobs: Seq<JobView>, images: bool) -> bool {
    exists|i: int| 0 <= i < jobs.len() && ((#[trigger] jobs[i]).input is Image == images)
}

proof fn lemma_has_job(jobs: Seq<JobView>, kind: InputKind)
    ensures
        kind_indices(jobs, kind).len() > 0 <==> has_job(jobs, kind == InputKind::Image),
{
    let at = kind_indices(jobs, kind);
    lemma_places(jobs, kind);
    if at.len() > 0 {
        assert(jobs[at[0]].input is Image == (kind == InputKind::Image));
    }
    if has_job(jobs, kind == InputKind::Image) {
        let i = choose|i: int|
            0 <= i < jobs.len() && ((#[trigger] jobs[i]).input is Image == (kind
                == InputKind::Image));
        assert(at.contains(i));
    }
}

/// No kind of job is left out: first the texts are asked for, where there are any, then the images,
/// where there are any, and then nothing more. At the beginning no job has a vector.
pub proof fn law_every_kind_is_asked_for(jobs: Seq<JobView>)
    ensures
        ({
            let flush = flush_of(jobs);
            &&& flush.wf()
            &&& flush.jobs == jobs
            &&& flush.vectors.len() == jobs.len()
            &&& forall|i: int| 0 <= i < jobs.len() ==> #[trigger] flush.vectors[i] is None
            &&& has_job(jobs, false) ==> flush.step == (FlushStep::Batch {
                kind: InputKind::Text,
            })
            &&& !has_job(jobs, false) && has_job(jobs, true) ==> flush.step == (
            FlushStep::Batch { kind: InputKind::Image })
            &&& flush.step is Done <==> jobs.len() == 0
            &&& flush.request() is None <==> jobs.len() == 0
        }),
{
    lemma_has_job(jobs, InputKind::Text);
    lemma_has_job(jobs, InputKind::Image);
    if jobs.len() > 0 {
        assert(jobs[0].input is Image == true || jobs[0].input is Image == false);
        assert(has_job(jobs, jobs[0].input is Image));
    }
}

/// The step is what follows on the jobs of a kind: the images on the texts, where there are any.
pub open spec fn is_past(step: FlushStep, jobs: Seq<JobView>, kind: InputKind) -> bool {
    if kind == InputKind::Text && has_job(jobs, true) {
        step == (FlushStep::Batch { kind: InputKind::Image })
    } else {
        step is Done
    }
}

/// An answer to a batch settles its kind, a failure has its jobs tried one by one from the first,
/// and an answer or a failure of one of them leads to the next, until none of the kind is left.
pub proof fn law_every_job_of_a_kind_gets_its_turn(
    flush: FlushView,
    at: Seq<int>,
    given: Seq<Seq<char>>,
)
    requires
        flush.wf(),
    ensures
        flush.step matches FlushStep::Batch { kind } ==> {
            &&& is_past(flush.after_vectors(given).step, flush.jobs, kind)
            &&& flush.after_failure() == (FlushView {
                step: FlushStep::Single { kind, next: 0 },
                ..flush
            })
        },
        flush.step matches FlushStep::Single { kind, next } ==> {
            &&& flush.after_failure().step == flush.after_vectors(given).step
            &&& places_of(at, flush.jobs, kind == InputKind::Image) && next + 1 < at.len()
                ==> flush.after_failure().step == (FlushStep::Single {
                kind,
                next: (next + 1) as usize,
            })
            &&& places_of(at, flush.jobs, kind == InputKind::Image) && next + 1 >= at.len()
                ==> is_past(flush.after_failure().step, flush.jobs, kind)
        },
        flush.step is Done ==> flush.request() is None,
        !(flush.step is Done) ==> flush.request() is Some,
{
    lemma_has_job(flush.jobs, InputKind::Image);
    match flush.step {
        FlushStep::Single { kind, next } => {
            lemma_places(flush.jobs, kind);
            if places_of(at, flush.jobs, kind == InputKind::Image) {
                lemma_places_are_one(at, kind_indices(flush.jobs, kind), flush.jobs, kind
                    == InputKind::Image);
            }
        },
        _ => {},
    }
}

proof fn lemma_places_are_one(a: Seq<int>, b: Seq<int>, jobs: Seq<JobView>, images: bool)
    requires
        places_of(a, jobs, images),
        places_of(b, jobs, images),
    ensures
        a == b,
{
    assert forall|k: int| 0 <= k < a.len() && k < b.len() implies a[k] == b[k] by {
        lemma_place(a, b, jobs, images, k);
    }
    if a.len() < b.len() {
        let i = b[a.len() as int];
        assert(jobs[i].input is Image == images);
        let k = a.index_of(i);
        assert(a[k] == b[k]);
        assert(b[k] < b[a.len() as int]);
    }
    if b.len() < a.len() {
        let i = a[b.len() as int];
        assert(jobs[i].input is Image == images);
        let k = b.index_of(i);
        assert(a[k] == b[k]);
        assert(a[k] < a[b.len() as int]);
    }
    assert(a =~= b);
}

proof fn lemma_place(a: Seq<int>, b: Seq<int>, jobs: Seq<JobView>, images: bool, k: int)
    requires
        places_of(a, jobs, images),
        places_of(b, jobs, images),
        0 <= k < a.len(),
        k < b.len(),
    ensures
        a[k] == b[k],
    decreases k,
{
    assert forall|j: int| 0 <= j < k implies a[j] == b[j] by {
        lemma_place(a, b, jobs, images, j);
    }
    assert(jobs[a[k]].input is Image == images);
    assert(jobs[b[k]].input is Image == images);
    let m = b.index_of(a[k]);
    let n = a.index_of(b[k]);
    if m < k {
        assert(a[m] == b[m]);
        assert(a[m] < a[k]);
    }
    if n < k {
        assert(a[n] == b[n]);
        assert(b[n] < b[k]);
    }
    assert(m > k ==> b[k] < b[m]);
    assert(n > k ==> a[k] < a[n]);
}

/// The document of a job goes into the index under its own id, with all that it holds and the vector
/// that it was given; its own entry is recorded with it.
pub proof fn law_embedded_document_keeps_its_fields(
    job: JobView,
    vector: Option<Seq<char>>,
    document: DocumentView,
)
    requires
        document.id == job.document.id,
        document.path == job.document.path,
        document.file_name == job.document.file_name,
        document.extension == job.document.extension,
        document.contents == job.document.contents,
        vector is Some ==> document.vector == vector,
        vector is None ==> document.vector == job.document.vector,
    ensures
        embedded_event(job, vector) == (EventView::Upsert {
            document_id: job.document.id,
            document: document_json_text(document),
            progress: Some(job.progress),
        }),
{
}

/// A file of valid text is embedded by all of its text: among the texts that the embedder is asked
/// for is the whole file, and the vector that comes back for it goes to the document of the file.
pub proof fn law_text_file_is_embedded_by_its_text(
    previous: Option<ManifestEntry>,
    path: EntryPathView,
    fingerprint: FileFingerprint,
    bytes: Seq<u8>,
    flush: FlushView,
    i: int,
    given: Seq<Seq<char>>,
) -> (k: int)
    requires
        valid_utf8(bytes),
        forall|j: int| 0 <= j < bytes.len() ==> bytes[j] != 0,
        !named_as_pdf(path),
        !named_as_image(path),
        flush.wf(),
        flush.step == (FlushStep::Batch { kind: InputKind::Text }),
        0 <= i < flush.jobs.len(),
        bytes_output(previous, path, fingerprint, Ok(bytes), true).messages.contains(
            MessageView::Embed(flush.jobs[i]),
        ),
    ensures
        flush.request() matches Some(RequestView::Texts(texts)) && 0 <= k < texts.len() && texts[k]
            == decode_utf8(bytes),
        0 <= k < given.len() ==> flush.after_vectors(given).vectors[i] == Some(given[k]),
{
    let messages = bytes_output(previous, path, fingerprint, Ok(bytes), true).messages;
    law_text_file_is_indexed_whole(
        previous,
        path,
        fingerprint,
        bytes,
        true,
        no_stats(),
    );
    let m = messages.index_of(MessageView::Embed(flush.jobs[i]));
    assert(m == 1);
    let at = law_each_answer_goes_to_the_job_that_asked(flush, InputKind::Text, given);
    assert(flush.jobs[i].input is Image == false);
    let k = at.index_of(i);
    assert(at[k] == i);
    k
}

/// What is said of a request is said of the texts and the images in it.
pub proof fn law_request_is_told_by_its_texts(texts: Vec<&str>, images: Vec<&Vec<u8>>, k: int)
    ensures
        EmbedRequest::Texts(texts)@ is Texts,
        EmbedRequest::Images(images)@ is Images,
        EmbedRequest::Texts(texts)@->Texts_0.len() == texts@.len(),
        EmbedRequest::Images(images)@->Images_0.len() == images@.len(),
        0 <= k < texts@.len() ==> EmbedRequest::Texts(texts)@->Texts_0[k] == texts@[k]@,
        0 <= k < images@.len() ==> EmbedRequest::Images(images)@->Images_0[k] == images@[k]@,
{
}

/// The report of a failure ends with the error, and names the file where one file was asked for.
pub proof fn law_failure_is_reported_with_its_error(
    flush: FlushView,
    at: Seq<int>,
    error: Seq<char>,
)
    requires
        flush.wf(),
        !(flush.step is Done),
    ensures
        flush.failure_report(error) is Some,
        error.is_suffix_of(flush.failure_report(error)->Some_0),
        flush.step matches FlushStep::Single { kind, next } ==> (places_of(
            at,
            flush.jobs,
            kind == InputKind::Image,
        ) ==> names_before(
            flush.failure_report(error)->Some_0,
            flush.jobs[at[next as int]].progress.path,
            error,
        )),
{
    let report = flush.failure_report(error)->Some_0;
    assert(error =~= report.subrange(report.len() - error.len(), report.len() as int));
    if let FlushStep::Single { kind, next } = flush.step {
        lemma_places(flush.jobs, kind);
        if places_of(at, flush.jobs, kind == InputKind::Image) {
            lemma_places_are_one(
                at,
                kind_indices(flush.jobs, kind),
                flush.jobs,
                kind == InputKind::Image,
            );
            let path = flush.jobs[at[next as int]].progress.path;
            assert(report =~= "embedding error for "@ + path + ": "@ + error);
        }
    }
}

/// The text names a path, and then an error.
pub open spec fn names_before(text: Seq<char>, path: Seq<char>, error: Seq<char>) -> bool {
    exists|head: Seq<char>, between: Seq<char>| text == #[trigger] (head + path + between + error)
}

/// The text is what a job is embedded by: its own text where it has one, and otherwise all contents
/// of its document.
pub open spec fn is_asked_for(text: Seq<char>, job: EmbeddingJob) -> bool {
    match job.input {
        EmbeddingJobInput::Text(own) => text == own@,
        EmbeddingJobInput::DocumentContents => text == job.document.contents@,
        EmbeddingJobInput::Image(_) => false,
    }
}

/// The first thing that the embedder is asked for, for jobs of which some are texts: the text of each
/// of these, in their order.
pub proof fn law_new_flush_asks_for_every_text(
    jobs: Vec<EmbeddingJob>,
    flush: EmbeddingFlush,
    request: Option<EmbedRequest>,
    i: int,
) -> (at: Seq<int>)
    requires
        call_ensures(EmbeddingFlush::new, (jobs,), flush),
        call_ensures(EmbeddingFlush::request, (&flush,), request),
        0 <= i < jobs@.len(),
        !(jobs@[i].input is Image),
    ensures
        at.contains(i),
        forall|a: int, b: int| 0 <= a < b < at.len() ==> #[trigger] at[a] < #[trigger] at[b],
        request matches Some(EmbedRequest::Texts(texts)) && texts@.len() == at.len() && (forall|
            k: int,
        |
            0 <= k < at.len() ==> 0 <= (#[trigger] at[k]) < jobs@.len() && is_asked_for(
                texts@[k]@,
                jobs@[at[k]],
            )),
{
    let views = jobs.deep_view();
    assert(views[i] == jobs@[i]@);
    assert(views[i].input is Image == false);
    law_every_kind_is_asked_for(views);
    assert(has_job(views, false));
    let at = law_each_answer_goes_to_the_job_that_asked(flush@, InputKind::Text, Seq::empty());
    let asked = request->Some_0;
    match asked {
        EmbedRequest::Texts(texts) => {
            assert forall|k: int| 0 <= k < at.len() implies 0 <= (#[trigger] at[k]) < jobs@.len()
                && is_asked_for(texts@[k]@, jobs@[at[k]]) by {
                assert(asked@->Texts_0[k] == texts@[k]@);
                assert(views[at[k]] == jobs@[at[k]]@);
                assert(is_text_of(asked@->Texts_0[k], views[at[k]]));
            }
        },
        EmbedRequest::Images(_) => {},
    }
    at
}

/// The bytes are those of the image that a job is embedded by.
pub open spec fn is_image_of(bytes: Seq<u8>, job: EmbeddingJob) -> bool {
    match job.input {
        EmbeddingJobInput::Image(own) => bytes == own@,
        _ => false,
    }
}

/// For jobs that are all images, the embedder is asked for the bytes of each of them, in their order.
pub proof fn law_new_flush_of_images_asks_for_their_bytes(
    jobs: Vec<EmbeddingJob>,
    flush: EmbeddingFlush,
    request: Option<EmbedRequest>,
)
    requires
        call_ensures(EmbeddingFlush::new, (jobs,), flush),
        call_ensures(EmbeddingFlush::request, (&flush,), request),
        jobs@.len() > 0,
        forall|i: int| 0 <= i < jobs@.len() ==> (#[trigger] jobs@[i]).input is Image,
    ensures
        request matches Some(EmbedRequest::Images(images)) && images@.len() == jobs@.len() && (
        forall|i: int|
            0 <= i < jobs@.len() ==> is_image_of(images@[i]@, #[trigger] jobs@[i])),
{
    let views = jobs.deep_view();
    law_every_kind_is_asked_for(views);
    assert(views[0].input is Image == true) by {
        assert(views[0] == jobs@[0]@);
        assert(jobs@[0].input is Image);
    }
    assert(has_job(views, true));
    assert(!has_job(views, false)) by {
        if has_job(views, false) {
            let i = choose|i: int|
                0 <= i < views.len() && ((#[trigger] views[i]).input is Image == false);
            assert(views[i] == jobs@[i]@);
            assert(jobs@[i].input is Image);
        }
    }
    let at = law_each_answer_goes_to_the_job_that_asked(flush@, InputKind::Image, Seq::empty());
    let every = Seq::new(views.len(), |i: int| i);
    assert(places_of(every, views, true)) by {
        assert forall|k: int| 0 <= k < every.len() implies 0 <= (#[trigger] every[k])
            < views.len() && (views[every[k]].input is Image == true) by {
            assert(views[k] == jobs@[k]@);
            assert(jobs@[k].input is Image);
        }
        assert forall|i: int| 0 <= i < views.len() implies every.contains(i) by {
            assert(every[i] == i);
        }
    }
    lemma_places_are_one(at, every, views, true);
    let asked = request->Some_0;
    match asked {
        EmbedRequest::Images(images) => {
            assert forall|i: int| 0 <= i < jobs@.len() implies is_image_of(
                images@[i]@,
                #[trigger] jobs@[i],
            ) by {
                assert(asked@->Images_0[i] == images@[i]@);
                assert(every[i] == i);
                assert(views[i] == jobs@[i]@);
                assert(views[at[i]].input == InputView::Image(asked@->Images_0[i]));
            }
        },
        EmbedRequest::Texts(_) => {},
    }
}

/// The event puts the document of a job into the index, under its id, as JSON with its vector, and
/// records its entry.
pub open spec fn puts_in(event: IndexEvent, job: EmbeddingJob, vector: Option<Seq<char>>) -> bool {
    match event {
        IndexEvent::Upsert { document_id, document, progress } => {
            &&& document_id@ == job.document.id@
            &&& progress is Some
            &&& progress->Some_0.path@ == job.progress.path@
            &&& progress->Some_0.entry == job.progress.entry
            &&& forall|d: DocumentView|
                d.id == job.document.id@ && d.path == job.document.path@ && d.file_name
                    == job.document.file_name@ && d.contents == job.document.contents@
                    && d.extension == job.document@.extension && (vector is Some ==> d.vector
                    == vector) && (vector is None ==> d.vector == job.document@.vector)
                    ==> document@ == #[trigger] document_json_text(d)
        },
        _ => false,
    }
}

/// A document goes into the index with the vector that it was given, and otherwise as it is.
pub proof fn law_document_goes_in_with_its_vector(
    job: EmbeddingJob,
    vector: Option<String>,
    event: IndexEvent,
)
    requires
        call_ensures(emit_embedded_document, (job, vector), event),
    ensures
        puts_in(event, job, vector.deep_view()),
{
    assert forall|d: DocumentView|
        d.id == job.document.id@ && d.path == job.document.path@ && d.file_name
            == job.document.file_name@ && d.contents == job.document.contents@ && d.extension
            == job.document@.extension && (vector.deep_view() is Some ==> d.vector
            == vector.deep_view()) && (vector.deep_view() is None ==> d.vector
            == job.document@.vector) implies embedded_event(job@, vector.deep_view()) == (
    EventView::Upsert {
        document_id: job.document.id@,
        document: #[trigger] document_json_text(d),
        progress: Some(job.progress@),
    }) by {
        law_embedded_document_keeps_its_fields(job@, vector.deep_view(), d);
    }
}

/// At the end there is one change for each job, in the order of the jobs, with the vector that the
/// job was given, if any.
pub proof fn law_every_job_ends_in_one_change(flush: EmbeddingFlush, events: Vec<IndexEvent>)
    requires
        flush@.wf(),
        call_ensures(EmbeddingFlush::finish, (flush,), events),
    ensures
        events@.len() == flush@.jobs.len(),
        forall|i: int|
            0 <= i < events@.len() ==> (#[trigger] events@[i])@ == embedded_event(
                flush@.jobs[i],
                flush@.vectors[i],
            ),
{
    let all = events.deep_view();
    assert(all == flush@.events());
    assert(all.len() == events@.len());
    assert forall|i: int| 0 <= i < events@.len() implies (#[trigger] events@[i])@
        == embedded_event(flush@.jobs[i], flush@.vectors[i]) by {
        assert(all[i] == events@[i]@);
        assert(flush@.events()[i] == embedded_event(flush@.jobs[i], flush@.vectors[i]));
    }
}

/// The vectors that come back for all jobs of a kind go to these jobs, in their order; an error has
/// them tried one by one, and changes no vector.
pub proof fn law_answer_goes_to_the_jobs_that_asked(
    flush: &mut EmbeddingFlush,
    answer: Result<Vec<String>, SearchxError>,
    report: Option<String>,
    kind: InputKind,
) -> (at: Seq<int>)
    requires
        old(flush)@.wf(),
        old(flush)@.step == (FlushStep::Batch { kind }),
        call_ensures(EmbeddingFlush::answer, (flush, answer), report),
    ensures
        places_of(at, old(flush)@.jobs, kind == InputKind::Image),
        final(flush)@.jobs == old(flush)@.jobs,
        answer matches Ok(given) ==> report is None && given_to(
            old(flush)@.vectors,
            final(flush)@.vectors,
            at,
            given.deep_view(),
        ) && is_past(final(flush)@.step, old(flush)@.jobs, kind),
        answer is Err ==> report is Some && final(flush)@.vectors == old(flush)@.vectors
            && final(flush)@.step == (FlushStep::Single { kind, next: 0 }),
{
    let before = old(flush)@;
    let given = match answer {
        Ok(given) => given.deep_view(),
        Err(_) => Seq::empty(),
    };
    law_every_job_of_a_kind_gets_its_turn(before, Seq::empty(), given);
    let at = law_each_answer_goes_to_the_job_that_asked(before, kind, given);
    at
}

/// Where jobs are tried one by one, the first vector that comes back goes to the job that asked; an
/// error, or no vector, is reported, and changes none. Then the next job is asked for.
pub proof fn law_single_answer_goes_to_its_job(
    flush: &mut EmbeddingFlush,
    answer: Result<Vec<String>, SearchxError>,
    report: Option<String>,
    kind: InputKind,
    next: usize,
) -> (at: Seq<int>)
    requires
        old(flush)@.wf(),
        old(flush)@.step == (FlushStep::Single { kind, next }),
        call_ensures(EmbeddingFlush::answer, (flush, answer), report),
    ensures
        places_of(at, old(flush)@.jobs, kind == InputKind::Image),
        next < at.len(),
        final(flush)@.jobs == old(flush)@.jobs,
        answer matches Ok(given) ==> given_to(
            old(flush)@.vectors,
            final(flush)@.vectors,
            seq![at[next as int]],
            given.deep_view(),
        ) && (report is Some <==> given@.len() == 0),
        answer is Err ==> report is Some && final(flush)@.vectors == old(flush)@.vectors,
        next + 1 < at.len() ==> final(flush)@.step == (FlushStep::Single {
            kind,
            next: (next + 1) as usize,
        }),
        next + 1 >= at.len() ==> is_past(final(flush)@.step, old(flush)@.jobs, kind),
{
    let before = old(flush)@;
    let given = match answer {
        Ok(given) => given.deep_view(),
        Err(_) => Seq::empty(),
    };
    let at = law_single_answer_goes_to_the_job_that_asked(before, kind, next, given);
    law_every_job_of_a_kind_gets_its_turn(before, at, given);
    at
}

/// The only vector asked for is the first that comes back.
pub proof fn law_only_vector_is_the_first(
    kind: InputKind,
    vectors: Vec<String>,
    vector: Result<String, SearchxError>,
)
    requires
        call_ensures(single_vector::<String>, (kind, vectors), vector),
    ensures
        vector is Ok <==> vectors@.len() > 0,
        vector is Ok ==> vector->Ok_0 == vectors@[0],
        vector is Err ==> vector->Err_0 is Embedding,
{
}

/// A job that comes waits behind the others, and the queue is embedded as soon as it is full.
pub proof fn law_job_waits_behind_the_others(
    queue: &mut EmbeddingQueue,
    job: EmbeddingJob,
    action: QueueAction,
)
    requires
        call_ensures(EmbeddingQueue::received, (queue, job), action),
    ensures
        final(queue)@.len() == old(queue)@.len() + 1,
        final(queue)@.last() == job@,
        final(queue)@.drop_last() == old(queue)@,
        action is Poll <==> final(queue)@.len() < EMBEDDING_BATCH_DOC_LIMIT,
        action is FlushAndWait <==> final(queue)@.len() >= EMBEDDING_BATCH_DOC_LIMIT,
{
    assert(final(queue)@.drop_last() =~= old(queue)@);
}

/// All jobs that wait are taken out together, in their order, and none is left.
pub proof fn law_all_waiting_jobs_are_taken(
    queue: &mut EmbeddingQueue,
    flush: Option<EmbeddingFlush>,
)
    requires
        call_ensures(EmbeddingQueue::take, (queue,), flush),
    ensures
        final(queue)@.len() == 0,
        flush is Some <==> old(queue)@.len() > 0,
        flush matches Some(flush) ==> flush@.jobs == old(queue)@ && flush@.wf() && flush@.request()
            is Some,
{
    law_every_kind_is_asked_for(old(queue)@);
}

/// Whatever the embedding thread learns, it embeds what waits: it stops once no more jobs can come,
/// or where the run is canceled and none have come for a while.
pub proof fn law_embedding_thread_stops_at_the_end(
    event: QueueEvent,
    action: QueueAction,
    canceled: bool,
    stops: bool,
)
    requires
        call_ensures(queue_action, (event,), action),
        call_ensures(QueueAction::stops, (action, canceled), stops),
    ensures
        !(action is Poll),
        event is Closed ==> stops,
        event is TimedOut ==> (stops <==> canceled),
        event is NothingWaiting ==> !stops,
{
}

/// At every step the embedder is asked for the jobs of that step, each by what it is embedded by.
pub proof fn law_every_step_asks_for_its_jobs(
    flush: EmbeddingFlush,
    request: Option<EmbedRequest>,
    kind: InputKind,
    next: usize,
) -> (at: Seq<int>)
    requires
        flush@.wf(),
        call_ensures(EmbeddingFlush::request, (&flush,), request),
        flush@.step == (FlushStep::Batch { kind }) || flush@.step == (FlushStep::Single {
            kind,
            next,
        }) || flush@.step is Done,
    ensures
        flush@.step is Done <==> request is None,
        !(flush@.step is Done) ==> places_of(at, flush@.jobs, kind == InputKind::Image),
        flush@.step == (FlushStep::Batch { kind }) ==> asks_for(
            Some(request->Some_0@),
            flush@.jobs,
            at,
            kind == InputKind::Image,
        ),
        flush@.step == (FlushStep::Single { kind, next }) ==> next < at.len() && asks_for(
            Some(request->Some_0@),
            flush@.jobs,
            seq![at[next as int]],
            kind == InputKind::Image,
        ),
{
    if flush@.step == (FlushStep::Batch { kind }) {
        law_each_answer_goes_to_the_job_that_asked(flush@, kind, Seq::empty())
    } else if flush@.step == (FlushStep::Single { kind, next }) {
        law_single_answer_goes_to_the_job_that_asked(flush@, kind, next, Seq::empty())
    } else {
        Seq::empty()
    }
}

} // verus!
