//! Embedding: which texts and images the embedder is asked for, which vector belongs to which
//! document, and when a batch of documents goes on.

use crate::constants::EMBEDDING_BATCH_DOC_LIMIT;
use crate::document::{
    document_json, document_json_text, embedded_document_vectors, DocumentView, IndexedDocument,
};
use crate::error::SearchxError;
use crate::manifest::{FileFingerprint, FileState};
use crate::paths::EntryPathView;
use crate::scan::{
    upsert_messages, EmbeddingJob, EmbeddingJobInput, EventView, IndexEvent, InputView, JobView,
    MessageView,
};
use crate::text::{append_decimal, decimal};
use vstd::prelude::*;
use vstd::string::*;

verus! {

/// What an embedder takes.
#[derive(Debug, Clone, Copy, PartialEq, Eq, Structural)]
pub enum InputKind {
    Text,
    Image,
}

impl InputKind {
    /// How the kind is called in reports.
    pub open spec fn label(self) -> Seq<char> {
        match self {
            InputKind::Text => "text"@,
            InputKind::Image => "image"@,
        }
    }

    fn name(self) -> (name: &'static str)
        ensures
            name@ == self.label(),
    {
        match self {
            InputKind::Text => "text",
            InputKind::Image => "image",
        }
    }

    /// The message where the embedder gave no vector.
    pub open spec fn no_vectors_message(self) -> Seq<char> {
        self.label() + " embedder returned no vectors"@
    }
}

/// The only vector asked for; an error where the embedder gave none.
pub fn single_vector<V>(kind: InputKind, vectors: Vec<V>) -> (vector: Result<V, SearchxError>)
    ensures
        vectors@.len() > 0 ==> vector == Ok::<V, SearchxError>(vectors@[0]),
        vectors@.len() == 0 ==> vector is Err && (
        vector->Err_0 matches SearchxError::Embedding { message } && message@
            == kind.no_vectors_message()),
{
    let mut vectors = vectors;
    if vectors.len() == 0 {
        let mut message = kind.name().to_string();
        message.append(" embedder returned no vectors");
        Err(SearchxError::Embedding { message })
    } else {
        Ok(vectors.swap_remove(0))
    }
}

/// What the embedding of a job is made from.
pub open spec fn job_kind(job: JobView) -> InputKind {
    match job.input {
        InputView::Image(_) => InputKind::Image,
        _ => InputKind::Text,
    }
}

/// The text that a job is embedded by.
pub open spec fn job_text(job: JobView) -> Seq<char> {
    match job.input {
        InputView::Text(text) => text,
        _ => job.document.contents,
    }
}

/// The bytes of the image that a job is embedded by.
pub open spec fn job_image(job: JobView) -> Seq<u8> {
    match job.input {
        InputView::Image(bytes) => bytes,
        _ => Seq::empty(),
    }
}

/// The positions of the jobs of a kind, in ascending order.
pub open spec fn kind_indices(jobs: Seq<JobView>, kind: InputKind) -> Seq<int>
    decreases jobs.len(),
{
    if jobs.len() == 0 {
        Seq::empty()
    } else {
        let before = kind_indices(jobs.drop_last(), kind);
        if job_kind(jobs.last()) == kind {
            before.push(jobs.len() - 1)
        } else {
            before
        }
    }
}

proof fn lemma_kind_indices(jobs: Seq<JobView>, kind: InputKind)
    ensures
        kind_indices(jobs, kind).len() <= jobs.len(),
        forall|k: int|
            0 <= k < kind_indices(jobs, kind).len() ==> {
                &&& 0 <= (#[trigger] kind_indices(jobs, kind)[k]) < jobs.len()
                &&& job_kind(jobs[kind_indices(jobs, kind)[k]]) == kind
            },
        forall|a: int, b: int|
            0 <= a < b < kind_indices(jobs, kind).len() ==> (#[trigger] kind_indices(jobs, kind)[a])
                < (#[trigger] kind_indices(jobs, kind)[b]),
    decreases jobs.len(),
{
    if jobs.len() > 0 {
        lemma_kind_indices(jobs.drop_last(), kind);
    }
}

fn kind_of(job: &EmbeddingJob) -> (kind: InputKind)
    ensures
        kind == job_kind(job@),
{
    match &job.input {
        EmbeddingJobInput::Image(_) => InputKind::Image,
        _ => InputKind::Text,
    }
}

/// The positions of the jobs of a kind, in ascending order.
fn indices_of(jobs: &Vec<EmbeddingJob>, kind: InputKind) -> (indices: Vec<usize>)
    ensures
        indices@.map_values(|i: usize| i as int) == kind_indices(jobs.deep_view(), kind),
{
    let mut indices: Vec<usize> = Vec::new();
    let ghost all = jobs.deep_view();
    assert(indices@.map_values(|i: usize| i as int) =~= kind_indices(all.take(0), kind));
    for i in 0..jobs.len()
        invariant
            all == jobs.deep_view(),
            indices@.map_values(|i: usize| i as int) == kind_indices(all.take(i as int), kind),
    {
        let ghost before = indices@;
        assert(all.take(i + 1).drop_last() =~= all.take(i as int));
        if kind_of(&jobs[i]) == kind {
            indices.push(i);
            assert(indices@.map_values(|i: usize| i as int) =~= before.map_values(
                |i: usize| i as int,
            ).push(i as int));
        }
    }
    assert(all.take(jobs@.len() as int) =~= all);
    indices
}

/// What the embedder is asked for.
#[derive(Debug)]
pub enum EmbedRequest<'a> {
    Texts(Vec<&'a str>),
    Images(Vec<&'a Vec<u8>>),
}

/// An [`EmbedRequest`] as texts and bytes.
pub enum RequestView {
    Texts(Seq<Seq<char>>),
    Images(Seq<Seq<u8>>),
}

impl<'a> View for EmbedRequest<'a> {
    type V = RequestView;

    open spec fn view(&self) -> RequestView {
        match self {
            EmbedRequest::Texts(texts) => RequestView::Texts(
                texts@.map_values(|text: &str| text@),
            ),
            EmbedRequest::Images(images) => RequestView::Images(
                images@.map_values(|bytes: &Vec<u8>| bytes@),
            ),
        }
    }
}

/// The request for the jobs at some positions.
pub open spec fn request_for(jobs: Seq<JobView>, kind: InputKind, indices: Seq<int>) -> RequestView {
    match kind {
        InputKind::Text => RequestView::Texts(indices.map_values(|i: int| job_text(jobs[i]))),
        InputKind::Image => RequestView::Images(indices.map_values(|i: int| job_image(jobs[i]))),
    }
}

fn text_of(job: &EmbeddingJob) -> (text: &str)
    ensures
        text@ == job_text(job@),
{
    match &job.input {
        EmbeddingJobInput::Text(text) => text.as_str(),
        _ => job.document.contents.as_str(),
    }
}

/// The request for the jobs at `indices`, all of them of a kind.
fn request<'a>(jobs: &'a Vec<EmbeddingJob>, kind: InputKind, indices: &Vec<usize>) -> (request:
    EmbedRequest<'a>)
    requires
        forall|k: int|
            0 <= k < indices@.len() ==> {
                &&& (#[trigger] indices@[k]) < jobs@.len()
                &&& job_kind(jobs@[indices@[k] as int]@) == kind
            },
    ensures
        request@ == request_for(
            jobs.deep_view(),
            kind,
            indices@.map_values(|i: usize| i as int),
        ),
{
    let ghost positions = indices@.map_values(|i: usize| i as int);
    let ghost all = jobs.deep_view();
    match kind {
        InputKind::Text => {
            let mut texts: Vec<&'a str> = Vec::new();
            for k in 0..indices.len()
                invariant
                    all == jobs.deep_view(),
                    forall|k: int| 0 <= k < indices@.len() ==> (#[trigger] indices@[k])
                        < jobs@.len(),
                    texts@.len() == k,
                    forall|j: int|
                        0 <= j < k ==> (#[trigger] texts@[j])@ == job_text(
                            all[indices@[j] as int],
                        ),
            {
                texts.push(text_of(&jobs[indices[k]]));
            }
            assert(texts@.map_values(|text: &str| text@) =~= positions.map_values(
                |i: int| job_text(all[i]),
            ));
            EmbedRequest::Texts(texts)
        },
        InputKind::Image => {
            let mut images: Vec<&'a Vec<u8>> = Vec::new();
            for k in 0..indices.len()
                invariant
                    all == jobs.deep_view(),
                    forall|k: int|
                        0 <= k < indices@.len() ==> {
                            &&& (#[trigger] indices@[k]) < jobs@.len()
                            &&& job_kind(jobs@[indices@[k] as int]@) == InputKind::Image
                        },
                    images@.len() == k,
                    forall|j: int|
                        0 <= j < k ==> (#[trigger] images@[j])@ == job_image(
                            all[indices@[j] as int],
                        ),
            {
                let job = &jobs[indices[k]];
                if let EmbeddingJobInput::Image(bytes) = &job.input {
                    images.push(bytes);
                }
            }
            assert(images@.map_values(|bytes: &Vec<u8>| bytes@) =~= positions.map_values(
                |i: int| job_image(all[i]),
            ));
            EmbedRequest::Images(images)
        },
    }
}

/// Vectors with the first `n` of those that the embedder gave at their positions.
pub open spec fn assigned(
    vectors: Seq<Option<Seq<char>>>,
    indices: Seq<int>,
    given: Seq<Seq<char>>,
    n: int,
) -> Seq<Option<Seq<char>>>
    decreases n,
{
    if n <= 0 {
        vectors
    } else {
        assigned(vectors, indices, given, n - 1).update(indices[n - 1], Some(given[n - 1]))
    }
}

/// How many of the vectors that the embedder gave have a position.
pub open spec fn paired(indices: Seq<int>, given: Seq<Seq<char>>) -> int {
    if indices.len() <= given.len() {
        indices.len() as int
    } else {
        given.len() as int
    }
}

proof fn lemma_assigned_len(
    vectors: Seq<Option<Seq<char>>>,
    indices: Seq<int>,
    given: Seq<Seq<char>>,
    n: int,
)
    requires
        n <= indices.len(),
        forall|k: int| 0 <= k < n ==> 0 <= (#[trigger] indices[k]) < vectors.len(),
    ensures
        assigned(vectors, indices, given, n).len() == vectors.len(),
    decreases n,
{
    if n > 0 {
        lemma_assigned_len(vectors, indices, given, n - 1);
    }
}

/// Where the embedder gives a vector for each job of a kind, each of them gets its own, and the
/// other jobs keep what they have.
pub proof fn law_vectors_go_to_their_jobs(
    jobs: Seq<JobView>,
    kind: InputKind,
    vectors: Seq<Option<Seq<char>>>,
    given: Seq<Seq<char>>,
)
    requires
        vectors.len() == jobs.len(),
        given.len() == kind_indices(jobs, kind).len(),
    ensures
        ({
            let indices = kind_indices(jobs, kind);
            let after = assigned(vectors, indices, given, paired(indices, given));
            &&& forall|k: int|
                0 <= k < indices.len() ==> after[#[trigger] indices[k]] == Some(given[k])
            &&& forall|i: int|
                0 <= i < jobs.len() && job_kind(#[trigger] jobs[i]) != kind ==> after[i]
                    == vectors[i]
        }),
{
    let indices = kind_indices(jobs, kind);
    lemma_kind_indices(jobs, kind);
    lemma_assigned(jobs, kind, vectors, given, indices.len() as int);
}

proof fn lemma_assigned(
    jobs: Seq<JobView>,
    kind: InputKind,
    vectors: Seq<Option<Seq<char>>>,
    given: Seq<Seq<char>>,
    n: int,
)
    requires
        vectors.len() == jobs.len(),
        0 <= n <= kind_indices(jobs, kind).len(),
    ensures
        forall|k: int|
            0 <= k < n ==> assigned(vectors, kind_indices(jobs, kind), given, n)[#[trigger]
            kind_indices(jobs, kind)[k]] == Some(given[k]),
        forall|i: int|
            0 <= i < jobs.len() && job_kind(#[trigger] jobs[i]) != kind ==> assigned(
                vectors,
                kind_indices(jobs, kind),
                given,
                n,
            )[i] == vectors[i],
    decreases n,
{
    if n > 0 {
        let indices = kind_indices(jobs, kind);
        lemma_kind_indices(jobs, kind);
        lemma_assigned(jobs, kind, vectors, given, n - 1);
        lemma_assigned_len(vectors, indices, given, n - 1);
        assert(0 <= indices[n - 1] < jobs.len());
        assert forall|k: int| 0 <= k < n implies assigned(vectors, indices, given, n)[#[trigger]
        indices[k]] == Some(given[k]) by {
            if k < n - 1 {
                assert(indices[k] < indices[n - 1]);
            }
        }
    }
}

/// What is asked of the embedder next.
#[derive(Debug, Clone, Copy, PartialEq, Eq, Structural)]
pub enum FlushStep {
    /// All jobs of a kind together.
    Batch { kind: InputKind },
    /// The jobs of a kind one by one, the embedder having failed on all of them together.
    Single { kind: InputKind, next: usize },
    /// Nothing more.
    Done,
}

/// What follows on the jobs of a kind: after the texts the images.
pub open spec fn step_after(jobs: Seq<JobView>, kind: InputKind) -> FlushStep {
    if kind == InputKind::Text && kind_indices(jobs, InputKind::Image).len() > 0 {
        FlushStep::Batch { kind: InputKind::Image }
    } else {
        FlushStep::Done
    }
}

/// What is asked first.
pub open spec fn first_step(jobs: Seq<JobView>) -> FlushStep {
    if kind_indices(jobs, InputKind::Text).len() > 0 {
        FlushStep::Batch { kind: InputKind::Text }
    } else {
        step_after(jobs, InputKind::Text)
    }
}

/// What follows on the job at place `next` among those of a kind.
pub open spec fn step_after_single(jobs: Seq<JobView>, kind: InputKind, next: int) -> FlushStep {
    if next + 1 < kind_indices(jobs, kind).len() {
        FlushStep::Single { kind, next: (next + 1) as usize }
    } else {
        step_after(jobs, kind)
    }
}

/// Jobs on their way through the embedder, as text.
pub struct FlushView {
    pub jobs: Seq<JobView>,
    /// The vector of each job, as the JSON text of an array, where there is one yet.
    pub vectors: Seq<Option<Seq<char>>>,
    pub step: FlushStep,
}

impl FlushView {
    /// There is a vector or none for each job, and what is asked next exists.
    pub open spec fn wf(self) -> bool {
        &&& self.vectors.len() == self.jobs.len()
        &&& match self.step {
            FlushStep::Batch { kind } => kind_indices(self.jobs, kind).len() > 0,
            FlushStep::Single { kind, next } => next < kind_indices(self.jobs, kind).len(),
            FlushStep::Done => true,
        }
    }

    /// What the embedder is asked for.
    pub open spec fn request(self) -> Option<RequestView> {
        match self.step {
            FlushStep::Batch { kind } => Some(
                request_for(self.jobs, kind, kind_indices(self.jobs, kind)),
            ),
            FlushStep::Single { kind, next } => Some(
                request_for(self.jobs, kind, seq![kind_indices(self.jobs, kind)[next as int]]),
            ),
            FlushStep::Done => None,
        }
    }

    /// How many answers may still come.
    pub open spec fn rank(self) -> int {
        let texts = kind_indices(self.jobs, InputKind::Text).len() as int;
        let images = kind_indices(self.jobs, InputKind::Image).len() as int;
        match self.step {
            FlushStep::Batch { kind: InputKind::Text } => texts + images + 3,
            FlushStep::Single { kind: InputKind::Text, next } => texts + images + 2 - next,
            FlushStep::Batch { kind: InputKind::Image } => images + 1,
            FlushStep::Single { kind: InputKind::Image, next } => images - next,
            FlushStep::Done => 0,
        }
    }

    /// Once the embedder has given vectors.
    pub open spec fn after_vectors(self, given: Seq<Seq<char>>) -> FlushView {
        match self.step {
            FlushStep::Batch { kind } => {
                let indices = kind_indices(self.jobs, kind);
                FlushView {
                    vectors: assigned(self.vectors, indices, given, paired(indices, given)),
                    step: step_after(self.jobs, kind),
                    ..self
                }
            },
            FlushStep::Single { kind, next } => FlushView {
                vectors: if given.len() > 0 {
                    self.vectors.update(
                        kind_indices(self.jobs, kind)[next as int],
                        Some(given[0]),
                    )
                } else {
                    self.vectors
                },
                step: step_after_single(self.jobs, kind, next as int),
                ..self
            },
            FlushStep::Done => self,
        }
    }

    /// Once the embedder has failed: on all jobs of a kind, they are tried one by one; on one of
    /// them, it goes without a vector.
    pub open spec fn after_failure(self) -> FlushView {
        match self.step {
            FlushStep::Batch { kind } => FlushView {
                step: FlushStep::Single { kind, next: 0 },
                ..self
            },
            FlushStep::Single { kind, next } => FlushView {
                step: step_after_single(self.jobs, kind, next as int),
                ..self
            },
            FlushStep::Done => self,
        }
    }

    /// What is reported once the embedder has failed with an error.
    pub open spec fn failure_report(self, error: Seq<char>) -> Option<Seq<char>> {
        match self.step {
            FlushStep::Batch { kind } => Some(
                "embedding batch error for "@ + decimal(kind_indices(self.jobs, kind).len()) + " "@
                    + kind.label() + " documents: "@ + error,
            ),
            FlushStep::Single { kind, next } => Some(
                "embedding error for "@ + self.jobs[kind_indices(
                    self.jobs,
                    kind,
                )[next as int]].progress.path + ": "@ + error,
            ),
            FlushStep::Done => None,
        }
    }

    /// What is reported once the embedder has given vectors: that there is none, where one job
    /// asked for its own.
    pub open spec fn vectors_report(self, given: Seq<Seq<char>>) -> Option<Seq<char>> {
        match self.step {
            FlushStep::Single { kind, .. } if given.len() == 0 => self.failure_report(
                "embedding failed: "@ + kind.no_vectors_message(),
            ),
            _ => None,
        }
    }

    /// The changes that put the documents of the jobs into the index, in their order.
    pub open spec fn events(self) -> Seq<EventView> {
        Seq::new(self.jobs.len(), |i: int| embedded_event(self.jobs[i], self.vectors[i]))
    }
}

/// The beginning of embedding jobs.
pub open spec fn flush_of(jobs: Seq<JobView>) -> FlushView {
    FlushView {
        jobs,
        vectors: Seq::new(jobs.len(), |i: int| None::<Seq<char>>),
        step: first_step(jobs),
    }
}

/// The change that puts the document of a job into the index, with its vector where it has one.
pub open spec fn embedded_event(job: JobView, vector: Option<Seq<char>>) -> EventView {
    EventView::Upsert {
        document_id: job.document.id,
        document: document_json_text(
            match vector {
                Some(_) => DocumentView { vector, ..job.document },
                None => job.document,
            },
        ),
        progress: Some(job.progress),
    }
}

/// The change that puts the document of a job into the index, with its vector where it has one.
pub fn emit_embedded_document(job: EmbeddingJob, vector: Option<String>) -> (event: IndexEvent)
    ensures
        event@ == embedded_event(job@, vector.deep_view()),
{
    let EmbeddingJob { document, input: _, progress } = job;
    let IndexedDocument { id, path, file_name, extension, contents, vectors } = document;
    let vectors = match vector {
        Some(vector) => embedded_document_vectors(vector),
        None => vectors,
    };
    let document = IndexedDocument { id, path, file_name, extension, contents, vectors };
    let json = document_json(&document);
    IndexEvent::Upsert { document_id: document.id, document: json, progress: Some(progress) }
}

/// Jobs on their way through the embedder.
#[derive(Debug)]
pub struct EmbeddingFlush {
    jobs: Vec<EmbeddingJob>,
    vectors: Vec<Option<String>>,
    step: FlushStep,
}

impl View for EmbeddingFlush {
    type V = FlushView;

    closed spec fn view(&self) -> FlushView {
        FlushView {
            jobs: self.jobs.deep_view(),
            vectors: self.vectors.deep_view(),
            step: self.step,
        }
    }
}

impl EmbeddingFlush {
    /// Begins to embed jobs.
    pub fn new(jobs: Vec<EmbeddingJob>) -> (flush: Self)
        ensures
            flush@.wf(),
            flush@ == flush_of(jobs.deep_view()),
    {
        let mut vectors: Vec<Option<String>> = Vec::new();
        for i in 0..jobs.len()
            invariant
                vectors@.len() == i,
                forall|j: int| 0 <= j < i ==> (#[trigger] vectors@[j]) is None,
        {
            vectors.push(None);
        }
        assert(vectors.deep_view() =~= Seq::new(jobs@.len(), |i: int| None::<Seq<char>>));
        let step = if indices_of(&jobs, InputKind::Text).len() > 0 {
            FlushStep::Batch { kind: InputKind::Text }
        } else {
            next_kind(&jobs, InputKind::Text)
        };
        EmbeddingFlush { jobs, vectors, step }
    }

    /// What the embedder is to be asked for next, until nothing is.
    pub fn request(&self) -> (request: Option<EmbedRequest<'_>>)
        requires
            self@.wf(),
        ensures
            request is Some == self@.request() is Some,
            request is Some ==> request->Some_0@ == self@.request()->Some_0,
    {
        match self.step {
            FlushStep::Batch { kind } => {
                let indices = indices_of(&self.jobs, kind);
                proof {
                    lemma_positions(self.jobs.deep_view(), kind, indices@);
                }
                Some(request(&self.jobs, kind, &indices))
            },
            FlushStep::Single { kind, next } => {
                let indices = indices_of(&self.jobs, kind);
                proof {
                    lemma_positions(self.jobs.deep_view(), kind, indices@);
                }
                let single: Vec<usize> = vec![indices[next]];
                assert(single@.map_values(|i: usize| i as int) =~= seq![
                    kind_indices(self.jobs.deep_view(), kind)[next as int],
                ]);
                Some(request(&self.jobs, kind, &single))
            },
            FlushStep::Done => None,
        }
    }

    /// Takes the answer of the embedder, and says what is to be reported of it.
    pub fn answer(&mut self, answer: Result<Vec<String>, SearchxError>) -> (report: Option<String>)
        requires
            old(self)@.wf(),
            !(old(self)@.step is Done),
        ensures
            final(self)@.wf(),
            final(self)@.rank() < old(self)@.rank(),
            match answer {
                Ok(given) => {
                    &&& final(self)@ == old(self)@.after_vectors(given.deep_view())
                    &&& report.deep_view() == old(self)@.vectors_report(given.deep_view())
                },
                Err(error) => {
                    &&& final(self)@ == old(self)@.after_failure()
                    &&& report.deep_view() == old(self)@.failure_report(error.text())
                },
            },
    {
        let ghost jobs = self.jobs.deep_view();
        let ghost before = self.vectors.deep_view();
        match self.step {
            FlushStep::Batch { kind } => {
                let indices = indices_of(&self.jobs, kind);
                let ghost positions = kind_indices(jobs, kind);
                proof {
                    lemma_positions(jobs, kind, indices@);
                }
                match answer {
                    Ok(given) => {
                        assign(&mut self.vectors, &indices, &given);
                        proof {
                            lemma_kind_indices(jobs, kind);
                            lemma_assigned_len(
                                before,
                                positions,
                                given.deep_view(),
                                paired(positions, given.deep_view()),
                            );
                        }
                        self.step = next_kind(&self.jobs, kind);
                        None
                    },
                    Err(error) => {
                        self.step = FlushStep::Single { kind, next: 0 };
                        let mut report = "embedding batch error for ".to_string();
                        append_decimal(&mut report, indices.len() as u64);
                        report.append(" ");
                        report.append(kind.name());
                        report.append(" documents: ");
                        report.append(error.to_text().as_str());
                        Some(report)
                    },
                }
            },
            FlushStep::Single { kind, next } => {
                let indices = indices_of(&self.jobs, kind);
                proof {
                    lemma_positions(jobs, kind, indices@);
                }
                let count: usize = indices.len();
                let index: usize = indices[next];
                self.step = if next + 1 < count {
                    FlushStep::Single { kind, next: next + 1 }
                } else {
                    next_kind(&self.jobs, kind)
                };
                let error = match answer {
                    Ok(given) => match single_vector(kind, given) {
                        Ok(vector) => {
                            self.vectors.set(index, Some(vector));
                            assert(self.vectors.deep_view() =~= before.update(
                                index as int,
                                Some(vector@),
                            ));
                            return None;
                        },
                        Err(error) => error,
                    },
                    Err(error) => error,
                };
                let mut report = "embedding error for ".to_string();
                report.append(self.jobs[index].progress.path.as_str());
                report.append(": ");
                report.append(error.to_text().as_str());
                Some(report)
            },
            FlushStep::Done => None,
        }
    }

    /// The changes that put the documents into the index, once nothing more is asked.
    pub fn finish(self) -> (events: Vec<IndexEvent>)
        requires
            self@.wf(),
            self@.step is Done,
        ensures
            events.deep_view() == self@.events(),
    {
        let mut events: Vec<IndexEvent> = Vec::new();
        let ghost expected = self@.events();
        let EmbeddingFlush { jobs, vectors, step: _ } = self;
        let ghost all = jobs.deep_view();
        for job in it: jobs
            invariant
                it.seq() == jobs@,
                all == jobs.deep_view(),
                vectors@.len() == jobs@.len(),
                events@.len() == it.index(),
                expected.len() == jobs@.len(),
                forall|j: int|
                    0 <= j < jobs@.len() ==> #[trigger] expected[j] == embedded_event(
                        all[j],
                        vectors.deep_view()[j],
                    ),
                forall|j: int|
                    0 <= j < it.index() ==> (#[trigger] events@[j]).deep_view() == expected[j],
        {
            let i: usize = events.len();
            let vector: Option<String> = match &vectors[i] {
                Some(vector) => Some(vector.clone()),
                None => None,
            };
            assert(vector.deep_view() == vectors.deep_view()[i as int]);
            events.push(emit_embedded_document(job, vector));
        }
        assert(events.deep_view() =~= expected);
        events
    }
}

proof fn lemma_positions(jobs: Seq<JobView>, kind: InputKind, indices: Seq<usize>)
    requires
        indices.map_values(|i: usize| i as int) == kind_indices(jobs, kind),
    ensures
        indices.len() == kind_indices(jobs, kind).len(),
        indices.len() <= jobs.len(),
        forall|k: int|
            0 <= k < indices.len() ==> {
                &&& (#[trigger] indices[k]) < jobs.len()
                &&& indices[k] == kind_indices(jobs, kind)[k]
                &&& job_kind(jobs[indices[k] as int]) == kind
            },
{
    lemma_kind_indices(jobs, kind);
    assert forall|k: int| 0 <= k < indices.len() implies {
        &&& (#[trigger] indices[k]) < jobs.len()
        &&& indices[k] == kind_indices(jobs, kind)[k]
        &&& job_kind(jobs[indices[k] as int]) == kind
    } by {
        assert(indices.map_values(|i: usize| i as int)[k] == indices[k]);
        assert(0 <= kind_indices(jobs, kind)[k] < jobs.len());
    }
}

/// What follows on the jobs of a kind.
fn next_kind(jobs: &Vec<EmbeddingJob>, kind: InputKind) -> (step: FlushStep)
    ensures
        step == step_after(jobs.deep_view(), kind),
{
    if kind == InputKind::Text && indices_of(jobs, InputKind::Image).len() > 0 {
        FlushStep::Batch { kind: InputKind::Image }
    } else {
        FlushStep::Done
    }
}

/// Puts the vectors that the embedder gave at their positions.
fn assign(vectors: &mut Vec<Option<String>>, indices: &Vec<usize>, given: &Vec<String>)
    requires
        forall|k: int| 0 <= k < indices@.len() ==> (#[trigger] indices@[k]) < old(vectors)@.len(),
    ensures
        final(vectors).deep_view() == assigned(
            old(vectors).deep_view(),
            indices@.map_values(|i: usize| i as int),
            given.deep_view(),
            paired(indices@.map_values(|i: usize| i as int), given.deep_view()),
        ),
{
    let ghost positions = indices@.map_values(|i: usize| i as int);
    let ghost start = vectors.deep_view();
    let ghost texts = given.deep_view();
    let mut k: usize = 0;
    while k < indices.len() && k < given.len()
        invariant
            forall|k: int| 0 <= k < indices@.len() ==> (#[trigger] indices@[k]) < vectors@.len(),
            positions == indices@.map_values(|i: usize| i as int),
            texts == given.deep_view(),
            k <= indices@.len(),
            k <= given@.len(),
            vectors.deep_view() == assigned(start, positions, texts, k as int),
        decreases indices@.len() - k,
    {
        let ghost before = vectors.deep_view();
        vectors.set(indices[k], Some(given[k].clone()));
        assert(vectors.deep_view() =~= before.update(positions[k as int], Some(texts[k as int])));
        k += 1;
    }
}

/// What the embedding thread learns of its queue.
#[derive(Debug, Clone, Copy, PartialEq, Eq, Structural)]
pub enum QueueEvent {
    /// No job is waiting.
    NothingWaiting,
    /// No job has come for a while.
    TimedOut,
    /// No more jobs can come.
    Closed,
}

/// What the embedding thread does next.
#[derive(Debug, Clone, Copy, PartialEq, Eq, Structural)]
pub enum QueueAction {
    /// Takes another job, if one is waiting.
    Poll,
    /// Embeds the jobs it has, and then waits for more.
    FlushAndWait,
    /// Embeds the jobs it has, and then stops where the run has been canceled.
    FlushUnlessCanceled,
    /// Embeds the jobs it has, and then stops.
    FlushAndStop,
}

impl QueueAction {
    /// Whether the embedding thread stops after what it does, the run being canceled or not.
    pub fn stops(self, canceled: bool) -> (stops: bool)
        ensures
            stops == (self == QueueAction::FlushAndStop || (self
                == QueueAction::FlushUnlessCanceled && canceled)),
    {
        match self {
            QueueAction::FlushAndStop => true,
            QueueAction::FlushUnlessCanceled => canceled,
            QueueAction::FlushAndWait | QueueAction::Poll => false,
        }
    }
}

/// The jobs that wait to be embedded together.
#[derive(Debug)]
pub struct EmbeddingQueue {
    pending: Vec<EmbeddingJob>,
}

impl View for EmbeddingQueue {
    type V = Seq<JobView>;

    closed spec fn view(&self) -> Seq<JobView> {
        self.pending.deep_view()
    }
}

impl EmbeddingQueue {
    /// An empty queue.
    pub fn new() -> (queue: Self)
        ensures
            queue@ == Seq::<JobView>::empty(),
    {
        let queue = EmbeddingQueue { pending: Vec::new() };
        assert(queue@ =~= Seq::empty());
        queue
    }

    /// Takes a job: more are taken while they fit into a batch.
    pub fn received(&mut self, job: EmbeddingJob) -> (action: QueueAction)
        requires
            old(self)@.len() < EMBEDDING_BATCH_DOC_LIMIT,
        ensures
            final(self)@ == old(self)@.push(job@),
            action == (if final(self)@.len() < EMBEDDING_BATCH_DOC_LIMIT {
                QueueAction::Poll
            } else {
                QueueAction::FlushAndWait
            }),
    {
        self.pending.push(job);
        assert(self@ =~= old(self)@.push(job@));
        if self.pending.len() < EMBEDDING_BATCH_DOC_LIMIT {
            QueueAction::Poll
        } else {
            QueueAction::FlushAndWait
        }
    }

    /// Takes the jobs out to be embedded; nothing where there are none.
    pub fn take(&mut self) -> (flush: Option<EmbeddingFlush>)
        ensures
            final(self)@ == Seq::<JobView>::empty(),
            flush is None == (old(self)@.len() == 0),
            flush matches Some(flush) ==> {
                &&& flush@.wf()
                &&& flush@ == flush_of(old(self)@)
            },
    {
        let mut jobs: Vec<EmbeddingJob> = Vec::new();
        std::mem::swap(&mut self.pending, &mut jobs);
        assert(self@ =~= Seq::empty());
        if jobs.len() == 0 {
            None
        } else {
            Some(EmbeddingFlush::new(jobs))
        }
    }
}

/// What the embedding thread does on what it learns of its queue.
pub fn queue_action(event: QueueEvent) -> (action: QueueAction)
    ensures
        action == (match event {
            QueueEvent::NothingWaiting => QueueAction::FlushAndWait,
            QueueEvent::TimedOut => QueueAction::FlushUnlessCanceled,
            QueueEvent::Closed => QueueAction::FlushAndStop,
        }),
{
    match event {
        QueueEvent::NothingWaiting => QueueAction::FlushAndWait,
        QueueEvent::TimedOut => QueueAction::FlushUnlessCanceled,
        QueueEvent::Closed => QueueAction::FlushAndStop,
    }
}

/// Whatever the embedder answers, every job ends in the index, in its order, with its own id and
/// its own progress.
pub proof fn law_every_job_is_indexed(flush: FlushView, i: int)
    requires
        flush.wf(),
        0 <= i < flush.jobs.len(),
    ensures
        flush.events().len() == flush.jobs.len(),
        flush.events()[i] matches EventView::Upsert { document_id, progress, .. } && document_id
            == flush.jobs[i].document.id && progress == Some(flush.jobs[i].progress),
{
}

/// The embedder's answers change neither the jobs nor their order.
pub proof fn law_answers_keep_the_jobs(flush: FlushView, given: Seq<Seq<char>>)
    ensures
        flush.after_vectors(given).jobs == flush.jobs,
        flush.after_failure().jobs == flush.jobs,
        flush.after_failure().vectors == flush.vectors,
{
}

/// What the embedder answers: vectors, or that it failed.
pub enum AnswerView {
    Vectors(Seq<Seq<char>>),
    Failure,
}

impl FlushView {
    /// Once the embedder has answered.
    pub open spec fn after_answer(self, answer: AnswerView) -> FlushView {
        match answer {
            AnswerView::Vectors(given) => self.after_vectors(given),
            AnswerView::Failure => self.after_failure(),
        }
    }

    /// Once the embedder has answered some times.
    pub open spec fn after_answers(self, answers: Seq<AnswerView>) -> FlushView
        decreases answers.len(),
    {
        if answers.len() == 0 {
            self
        } else {
            self.after_answers(answers.drop_last()).after_answer(answers.last())
        }
    }
}

proof fn lemma_answer_keeps_wf(flush: FlushView, answer: AnswerView)
    requires
        flush.wf(),
    ensures
        flush.after_answer(answer).wf(),
        flush.after_answer(answer).jobs == flush.jobs,
{
    lemma_kind_indices(flush.jobs, InputKind::Text);
    lemma_kind_indices(flush.jobs, InputKind::Image);
    if let AnswerView::Vectors(given) = answer {
        if let FlushStep::Batch { kind } = flush.step {
            let indices = kind_indices(flush.jobs, kind);
            lemma_assigned_len(flush.vectors, indices, given, paired(indices, given));
        }
    }
}

proof fn lemma_answers_keep_wf(flush: FlushView, answers: Seq<AnswerView>)
    requires
        flush.wf(),
    ensures
        flush.after_answers(answers).wf(),
        flush.after_answers(answers).jobs == flush.jobs,
    decreases answers.len(),
{
    if answers.len() > 0 {
        lemma_answers_keep_wf(flush, answers.drop_last());
        lemma_answer_keeps_wf(flush.after_answers(answers.drop_last()), answers.last());
    }
}

/// What happens at the queue of the embedding thread.
pub enum QueueMove {
    /// A job comes.
    Receive(JobView),
    /// The jobs that wait are embedded, the embedder answering as it does.
    Flush(Seq<AnswerView>),
}

/// What has happened at the queue of the embedding thread.
#[verifier::ext_equal]
pub struct QueueRun {
    /// The jobs that have come.
    pub received: Seq<JobView>,
    /// The jobs that wait.
    pub waiting: Seq<JobView>,
    /// The vectors of the others, where they have one.
    pub vectors: Seq<Option<Seq<char>>>,
    /// The changes that have been handed on.
    pub emitted: Seq<EventView>,
}

/// An empty queue, at which nothing has happened.
pub open spec fn queue_start() -> QueueRun {
    QueueRun {
        received: Seq::empty(),
        waiting: Seq::empty(),
        vectors: Seq::empty(),
        emitted: Seq::empty(),
    }
}

impl QueueRun {
    pub open spec fn after(self, queue_move: QueueMove) -> QueueRun {
        match queue_move {
            QueueMove::Receive(job) => QueueRun {
                received: self.received.push(job),
                waiting: self.waiting.push(job),
                ..self
            },
            QueueMove::Flush(answers) => {
                let flush = flush_of(self.waiting).after_answers(answers);
                QueueRun {
                    waiting: Seq::empty(),
                    vectors: self.vectors + flush.vectors,
                    emitted: self.emitted + flush.events(),
                    ..self
                }
            },
        }
    }

    pub open spec fn after_all(self, moves: Seq<QueueMove>) -> QueueRun
        decreases moves.len(),
    {
        if moves.len() == 0 {
            self
        } else {
            self.after_all(moves.drop_last()).after(moves.last())
        }
    }
}

/// The change puts the document of the job into the index, under its id, and records its progress.
pub open spec fn indexes(event: EventView, job: JobView) -> bool {
    event matches EventView::Upsert { document_id, progress, .. } && document_id == job.document.id
        && progress == Some(job.progress)
}

/// However jobs come and are gathered, and whatever the embedder answers: every job that no longer
/// waits has been handed on as one change, in the order in which the jobs came, with its own id and
/// its own progress; those that wait are the last ones. Once the jobs that wait have been embedded,
/// none is left.
pub proof fn law_queue_hands_every_job_on(moves: Seq<QueueMove>)
    ensures
        ({
            let run = queue_start().after_all(moves);
            let n = run.emitted.len() as int;
            &&& n + run.waiting.len() == run.received.len()
            &&& run.waiting == run.received.skip(n)
            &&& run.vectors.len() == n
            &&& forall|i: int|
                0 <= i < n ==> {
                    &&& (#[trigger] run.emitted[i]) == embedded_event(
                        run.received[i],
                        run.vectors[i],
                    )
                    &&& indexes(run.emitted[i], run.received[i])
                }
            &&& moves.len() > 0 && moves.last() is Flush ==> n == run.received.len()
        }),
    decreases moves.len(),
{
    let run = queue_start().after_all(moves);
    if moves.len() == 0 {
        assert(run.waiting =~= run.received.skip(0));
    } else {
        let before = queue_start().after_all(moves.drop_last());
        law_queue_hands_every_job_on(moves.drop_last());
        match moves.last() {
            QueueMove::Receive(job) => {
                assert(run.waiting =~= run.received.skip(run.emitted.len() as int));
                assert forall|i: int| 0 <= i < run.emitted.len() implies (#[trigger] run.emitted[i])
                    == embedded_event(run.received[i], run.vectors[i]) by {
                    assert(run.received[i] == before.received[i]);
                    assert(before.emitted[i] == run.emitted[i]);
                }
            },
            QueueMove::Flush(answers) => {
                let flush = flush_of(before.waiting).after_answers(answers);
                assert(flush_of(before.waiting).wf());
                lemma_answers_keep_wf(flush_of(before.waiting), answers);
                let n = before.emitted.len() as int;
                assert(run.waiting =~= run.received.skip(run.emitted.len() as int));
                assert forall|i: int| 0 <= i < run.emitted.len() implies (#[trigger] run.emitted[i])
                    == embedded_event(run.received[i], run.vectors[i]) by {
                    if i < n {
                        assert(before.emitted[i] == run.emitted[i]);
                    } else {
                        assert(run.emitted[i] == flush.events()[i - n]);
                        assert(before.waiting[i - n] == before.received[i]);
                    }
                }
            },
        }
    }
}

/// A file whose document gets no vector is indexed and recorded just as it is where documents are
/// not embedded at all.
pub proof fn law_document_without_vector_is_indexed_all_the_same(
    path: EntryPathView,
    fingerprint: FileFingerprint,
    state: FileState,
    contents: Seq<char>,
    input: InputView,
)
    ensures
        ({
            let embedded = upsert_messages(path, fingerprint, state, contents, input, true);
            let plain = upsert_messages(path, fingerprint, state, contents, input, false);
            &&& embedded.last() matches MessageView::Embed(job)
            &&& plain == seq![MessageView::Event(embedded_event(job, None))]
        }),
{
}

} // verus!
