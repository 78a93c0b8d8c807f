//! Search: the settings of the index, the results of a search, and the documents that no file
//! stands for.

use crate::constants::{PRIMARY_KEY, VECTOR_DIMENSIONS, VECTOR_EMBEDDER_NAME};
use crate::document::{
    blake3_hex, document_id, document_id_for_path, document_json_text, document_members,
    json_object, json_string, law_document_is_written_under_its_names, DocumentView,
};
use crate::error::SearchxError;
use crate::json::{
    into_object, member_text, new_object, object_members, object_value, set_member, take_member,
    text_member, value_members, value_text,
};
use crate::manifest::{Manifest, ManifestEntry};
use crate::paths::{display_text, displayed, path_bytes};
use crate::text::{is_white_space, law_trimming_leaves_the_middle, text_eq, trim, trimmed, trims_to};
use serde_json::Value;
use std::path::Path;
use vstd::prelude::*;
use vstd::string::*;
use vstd::utf8::*;

verus! {

/// The fields in which words are searched, the most important one first.
pub open spec fn searched_fields() -> Seq<Seq<char>> {
    seq!["file_name"@, "path"@, "contents"@, "extension"@]
}

/// How an index is set up.
#[derive(Debug, Clone)]
pub struct IndexSettings {
    pub primary_key: String,
    pub searchable_fields: Vec<String>,
    /// The name of the embedder whose vectors come with the documents.
    pub embedder: String,
    pub dimensions: usize,
}

/// How an index is set up.
pub fn index_settings() -> (settings: IndexSettings)
    ensures
        settings.primary_key@ == PRIMARY_KEY@,
        settings.searchable_fields.deep_view() == searched_fields(),
        settings.embedder@ == VECTOR_EMBEDDER_NAME@,
        settings.dimensions == VECTOR_DIMENSIONS,
{
    let searchable_fields: Vec<String> = vec![
        "file_name".to_string(),
        "path".to_string(),
        "contents".to_string(),
        "extension".to_string(),
    ];
    assert(searchable_fields.deep_view() =~= searched_fields());
    IndexSettings {
        primary_key: PRIMARY_KEY.to_string(),
        searchable_fields,
        embedder: VECTOR_EMBEDDER_NAME.to_string(),
        dimensions: VECTOR_DIMENSIONS,
    }
}

/// The place of the embedder among the names of those configured, the first where there are more;
/// an error where it is not there.
pub fn vector_search_embedder(names: &Vec<String>) -> (place: Result<usize, SearchxError>)
    ensures
        match place {
            Ok(i) => {
                &&& i < names@.len()
                &&& names@[i as int]@ == VECTOR_EMBEDDER_NAME@
                &&& forall|j: int| 0 <= j < i ==> (#[trigger] names@[j])@ != VECTOR_EMBEDDER_NAME@
            },
            Err(error) => {
                &&& forall|j: int|
                    0 <= j < names@.len() ==> (#[trigger] names@[j])@ != VECTOR_EMBEDDER_NAME@
                &&& error matches SearchxError::Embedding { message } && message@
                    == "vector embedder `"@ + VECTOR_EMBEDDER_NAME@ + "` is not configured"@
            },
        },
        place is Ok <==> names.deep_view().contains(VECTOR_EMBEDDER_NAME@),
{
    for i in 0..names.len()
        invariant
            forall|j: int| 0 <= j < i ==> (#[trigger] names@[j])@ != VECTOR_EMBEDDER_NAME@,
    {
        if text_eq(names[i].as_str(), VECTOR_EMBEDDER_NAME) {
            assert(names.deep_view()[i as int] == VECTOR_EMBEDDER_NAME@);
            return Ok(i);
        }
    }
    proof {
        if names.deep_view().contains(VECTOR_EMBEDDER_NAME@) {
            let j = names.deep_view().index_of(VECTOR_EMBEDDER_NAME@);
            assert(names@[j]@ == VECTOR_EMBEDDER_NAME@);
        }
    }
    let mut message = "vector embedder `".to_string();
    message.append(VECTOR_EMBEDDER_NAME);
    message.append("` is not configured");
    Err(SearchxError::Embedding { message })
}

/// One document found, with its place among them.
#[derive(Debug)]
pub struct SearchHit {
    pub rank: usize,
    pub path: String,
    pub document: Value,
}

impl Clone for SearchHit {
    fn clone(&self) -> (hit: Self)
        ensures
            hit == *self,
    {
        SearchHit { rank: self.rank, path: self.path.clone(), document: self.document.clone() }
    }
}

/// What a search has found.
#[derive(Debug)]
pub struct SearchResults {
    pub query: String,
    /// How long the parts of the search took, by their names.
    pub timings: Vec<(String, String)>,
    /// How many documents match, found or not.
    pub candidate_count: u64,
    pub hits: Vec<SearchHit>,
}

impl Clone for SearchResults {
    fn clone(&self) -> (results: Self)
        ensures
            results.query == self.query,
            results.timings@ == self.timings@,
            results.candidate_count == self.candidate_count,
            results.hits@ == self.hits@,
    {
        let mut timings: Vec<(String, String)> = Vec::new();
        for i in 0..self.timings.len()
            invariant
                timings@ == self.timings@.take(i as int),
        {
            let (name, value) = &self.timings[i];
            timings.push((name.clone(), value.clone()));
            assert(timings@ =~= self.timings@.take(i + 1));
        }
        let mut hits: Vec<SearchHit> = Vec::new();
        for i in 0..self.hits.len()
            invariant
                hits@ == self.hits@.take(i as int),
        {
            hits.push(self.hits[i].clone());
            assert(hits@ =~= self.hits@.take(i + 1));
        }
        assert(timings@ =~= self.timings@);
        assert(hits@ =~= self.hits@);
        SearchResults {
            query: self.query.clone(),
            timings,
            candidate_count: self.candidate_count,
            hits,
        }
    }
}

/// A document as the index gives it, with its vectors by the names of their embedders.
#[derive(Debug)]
pub struct FoundDocument {
    pub document: serde_json::Map<String, Value>,
    pub vectors: Vec<(String, Value)>,
}

/// Members with more of them set, one after the other.
pub open spec fn with_members(
    members: Map<Seq<char>, Value>,
    more: Seq<(String, Value)>,
) -> Map<Seq<char>, Value>
    decreases more.len(),
{
    if more.len() == 0 {
        members
    } else {
        with_members(members, more.drop_last()).insert(more.last().0@, more.last().1)
    }
}

/// The vectors that a document holds itself.
pub open spec fn own_vectors(members: Map<Seq<char>, Value>) -> Map<Seq<char>, Value> {
    if members.contains_key("_vectors"@) {
        match value_members(&members["_vectors"@]) {
            Some(own) => own,
            None => Map::empty(),
        }
    } else {
        Map::empty()
    }
}

/// The vectors of a found document: those that it holds itself, and over them those of the index.
pub open spec fn merged_vectors(found: FoundDocument) -> Map<Seq<char>, Value> {
    with_members(own_vectors(object_members(&found.document)), found.vectors@)
}

/// The path that a found document is shown with.
pub open spec fn found_path(found: FoundDocument) -> Seq<char> {
    match member_text(object_members(&found.document), "path"@) {
        Some(path) => path,
        None => "<unknown>"@,
    }
}

/// A hit shows a found document: all of it, with the merged vectors.
pub open spec fn shows(hit: SearchHit, found: FoundDocument) -> bool {
    let members = object_members(&found.document);
    &&& hit.path@ == found_path(found)
    &&& value_members(&hit.document) matches Some(shown)
    &&& shown.dom() == members.dom().insert("_vectors"@)
    &&& shown.remove("_vectors"@) == members.remove("_vectors"@)
    &&& value_members(&shown["_vectors"@]) == Some(merged_vectors(found))
}

/// The hit of a found document.
fn search_hit(rank: usize, found: FoundDocument) -> (hit: SearchHit)
    ensures
        hit.rank == rank,
        shows(hit, found),
{
    let ghost members = object_members(&found.document);
    let FoundDocument { document, vectors } = found;
    let mut document = document;
    let mut merged = match take_member(&mut document, "_vectors") {
        Some(value) => match into_object(value) {
            Some(object) => object,
            None => new_object(),
        },
        None => new_object(),
    };
    let ghost own = object_members(&merged);
    assert(own =~= own_vectors(members));
    for pair in it: vectors
        invariant
            it.seq() == vectors@,
            object_members(&merged) == with_members(own, it.seq().take(it.index() as int)),
    {
        let ghost more = it.seq().take(it.index() + 1);
        assert(more.drop_last() =~= it.seq().take(it.index() as int));
        assert(more.last() == pair);
        let (name, value) = pair;
        set_member(&mut merged, name, value);
    }
    assert(vectors@.take(vectors@.len() as int) =~= vectors@);
    set_member(&mut document, "_vectors".to_string(), object_value(merged));
    proof {
        reveal_strlit("_vectors");
        reveal_strlit("path");
        assert("_vectors"@.len() != "path"@.len());
        assert(object_members(&document).dom() =~= members.dom().insert("_vectors"@));
        assert(object_members(&document).remove("_vectors"@) =~= members.remove("_vectors"@));
    }
    let path = match text_member(&document, "path") {
        Some(path) => path.to_string(),
        None => "<unknown>".to_string(),
    };
    SearchHit { rank, path, document: object_value(document) }
}

/// The results of a search, from the documents found in their order.
pub fn build_search_results(
    query: String,
    timings: Vec<(String, String)>,
    candidate_count: u64,
    documents: Vec<FoundDocument>,
) -> (results: SearchResults)
    ensures
        results.query == query,
        results.timings == timings,
        results.candidate_count == candidate_count,
        results.hits@.len() == documents@.len(),
        forall|i: int|
            0 <= i < documents@.len() ==> {
                &&& (#[trigger] results.hits@[i]).rank == i + 1
                &&& shows(results.hits@[i], documents@[i])
            },
        forall|i: int|
            0 <= i < documents@.len() ==> {
                let path = member_text(object_members(&documents@[i].document), "path"@);
                path is Some ==> (#[trigger] results.hits@[i]).path@ == path->Some_0
            },
{
    let total: usize = documents.len();
    let mut hits: Vec<SearchHit> = Vec::new();
    for found in it: documents
        invariant
            it.seq() == documents@,
            total == documents@.len(),
            hits@.len() == it.index(),
            forall|i: int|
                0 <= i < it.index() ==> {
                    &&& (#[trigger] hits@[i]).rank == i + 1
                    &&& shows(hits@[i], documents@[i])
                },
    {
        let rank: usize = hits.len() + 1;
        hits.push(search_hit(rank, found));
    }
    SearchResults { query, timings, candidate_count, hits }
}

/// The path is that of a file with a document in the index.
pub open spec fn is_indexed_path(files: Map<Seq<char>, ManifestEntry>, path: Seq<char>) -> bool {
    files.contains_key(path) && files[path].state.indexed()
}

/// The id by which a document is to go, where no file stands for it: that of its path, or its own
/// where it has no path.
pub open spec fn orphan_id(
    files: Map<Seq<char>, ManifestEntry>,
    members: Map<Seq<char>, Value>,
) -> Option<Seq<char>> {
    match member_text(members, "path"@) {
        Some(path) => if is_indexed_path(files, path) {
            None
        } else {
            Some(document_id(path))
        },
        None => member_text(members, "id"@),
    }
}

/// The ids by which documents are to go, in the order of the documents.
pub open spec fn orphan_ids(
    files: Map<Seq<char>, ManifestEntry>,
    documents: Seq<serde_json::Map<String, Value>>,
) -> Seq<Seq<char>>
    decreases documents.len(),
{
    if documents.len() == 0 {
        Seq::empty()
    } else {
        let before = orphan_ids(files, documents.drop_last());
        match orphan_id(files, object_members(&documents.last())) {
            Some(id) => before.push(id),
            None => before,
        }
    }
}

fn orphaned_id(working: &Manifest, document: &serde_json::Map<String, Value>) -> (id: Option<String>)
    ensures
        id.deep_view() == orphan_id(working@.files, object_members(document)),
{
    match text_member(document, "path") {
        Some(path) => {
            let indexed = match working.files.get(path) {
                Some(entry) => entry.is_indexed(),
                None => false,
            };
            if indexed {
                None
            } else {
                Some(document_id_for_path(path))
            }
        },
        None => match text_member(document, "id") {
            Some(id) => Some(id.to_string()),
            None => None,
        },
    }
}

/// The ids by which those documents of the index are to go that no file of the working manifest
/// stands for.
pub fn orphaned_ids(working: &Manifest, documents: &Vec<serde_json::Map<String, Value>>) -> (ids: Vec<
    String,
>)
    ensures
        ids.deep_view() == orphan_ids(working@.files, documents@),
{
    let mut ids: Vec<String> = Vec::new();
    let ghost files = working@.files;
    assert(ids.deep_view() =~= orphan_ids(files, documents@.take(0)));
    for i in 0..documents.len()
        invariant
            files == working@.files,
            ids.deep_view() == orphan_ids(files, documents@.take(i as int)),
    {
        let ghost before = ids.deep_view();
        assert(documents@.take(i + 1).drop_last() =~= documents@.take(i as int));
        if let Some(id) = orphaned_id(working, &documents[i]) {
            ids.push(id);
            assert(ids.deep_view() =~= before.push(id@));
        }
    }
    assert(documents@.take(documents@.len() as int) =~= documents@);
    ids
}

/// A repair takes out exactly the ids of documents that no file stands for.
pub proof fn law_repair_takes_out_exactly_orphans(
    files: Map<Seq<char>, ManifestEntry>,
    documents: Seq<serde_json::Map<String, Value>>,
    id: Seq<char>,
)
    ensures
        orphan_ids(files, documents).contains(id) <==> exists|i: int|
            0 <= i < documents.len() && orphan_id(files, object_members(&#[trigger] documents[i]))
                == Some(id),
    decreases documents.len(),
{
    if documents.len() > 0 {
        let rest = documents.drop_last();
        let before = orphan_ids(files, rest);
        let all = orphan_ids(files, documents);
        law_repair_takes_out_exactly_orphans(files, rest, id);
        if all.contains(id) {
            let k = all.index_of(id);
            if k < before.len() {
                assert(before[k] == id);
                assert(before.contains(id));
                let i = choose|i: int|
                    0 <= i < rest.len() && orphan_id(files, object_members(&#[trigger] rest[i]))
                        == Some(id);
                assert(documents[i] == rest[i]);
            } else {
                assert(orphan_id(files, object_members(&documents[documents.len() - 1])) == Some(
                    id,
                ));
            }
        }
        if exists|i: int|
            0 <= i < documents.len() && orphan_id(files, object_members(&#[trigger] documents[i]))
                == Some(id) {
            let i = choose|i: int|
                0 <= i < documents.len() && orphan_id(
                    files,
                    object_members(&#[trigger] documents[i]),
                ) == Some(id);
            if i < rest.len() {
                assert(rest[i] == documents[i]);
                let k = before.index_of(id);
                assert(all[k] == id);
            } else {
                assert(all[before.len() as int] == id);
            }
        }
    }
}

/// The id that a document holds, where it is a text.
pub open spec fn held_id(document: serde_json::Map<String, Value>) -> Option<Seq<char>> {
    member_text(object_members(&document), "id"@)
}

/// The path that a document holds, where it is a text.
pub open spec fn held_path(document: serde_json::Map<String, Value>) -> Option<Seq<char>> {
    member_text(object_members(&document), "path"@)
}

/// What an index holds: every document has a text for its id, no two the same one, and that of a
/// document with a path is the id of the path.
pub open spec fn identified(documents: Seq<serde_json::Map<String, Value>>) -> bool {
    &&& forall|i: int| 0 <= i < documents.len() ==> held_id(#[trigger] documents[i]) is Some
    &&& forall|i: int, j: int|
        0 <= i < j < documents.len() ==> held_id(#[trigger] documents[i]) != held_id(
            #[trigger] documents[j],
        )
    &&& forall|i: int|
        0 <= i < documents.len() && held_path(#[trigger] documents[i]) is Some ==> held_id(
            documents[i],
        ) == Some(document_id(held_path(documents[i])->Some_0))
}

/// After a repair exactly those documents are left in the index whose path is that of an indexed
/// file of the working manifest.
pub proof fn law_repair_leaves_exactly_indexed_documents(
    files: Map<Seq<char>, ManifestEntry>,
    documents: Seq<serde_json::Map<String, Value>>,
    i: int,
)
    requires
        identified(documents),
        0 <= i < documents.len(),
    ensures
        !orphan_ids(files, documents).contains(held_id(documents[i])->Some_0) <==> (
        held_path(documents[i]) matches Some(path) && is_indexed_path(files, path)),
{
    let id = held_id(documents[i])->Some_0;
    law_repair_takes_out_exactly_orphans(files, documents, id);
    if orphan_ids(files, documents).contains(id) {
        let j = choose|j: int|
            0 <= j < documents.len() && orphan_id(files, object_members(&#[trigger] documents[j]))
                == Some(id);
        assert(held_id(documents[j]) == Some(id));
        assert(j == i);
    } else {
        assert(orphan_id(files, object_members(&documents[i])) != Some(id));
    }
}

/// The query without white space at its ends; an error where nothing is left.
pub fn query_text(query: &str) -> (text: Result<String, SearchxError>)
    ensures
        match text {
            Ok(text) => text@ == trimmed(query@) && trimmed(query@).len() > 0,
            Err(error) => trimmed(query@).len() == 0 && (
            error matches SearchxError::Io { message } && message@ == "query must not be empty"@),
        },
{
    let text = trim(query);
    if text.as_str().is_empty() {
        Err(SearchxError::Io { message: "query must not be empty".to_string() })
    } else {
        Ok(text)
    }
}

/// The error where there is no index to search.
pub fn index_not_found(data_file: &Path) -> (error: SearchxError)
    ensures
        error matches SearchxError::Io { message } && message@ == "index not found at "@
            + displayed(path_bytes(data_file)),
{
    let mut message = "index not found at ".to_string();
    message.append(display_text(data_file).as_str());
    SearchxError::Io { message }
}

/// The first `n` members of a list are all strings or `null`.
pub open spec fn simple_up_to(list: Seq<(Seq<char>, Seq<char>)>, n: int) -> bool {
    forall|k: int|
        0 <= k < n ==> (#[trigger] list[k]).1 == "null"@ || exists|text: Seq<char>|
            list[k].1 == #[trigger] json_string(text)
}

/// The members are those of a JSON object that reads back from a text: a member that the text writes
/// as a string is there under its name, and holds this string.
pub open spec fn reads_back(members: Map<Seq<char>, Value>, json: Seq<char>) -> bool {
    forall|list: Seq<(Seq<char>, Seq<char>)>, n: int, text: Seq<char>|
        json == #[trigger] json_object(list) && 0 <= n < list.len() && #[trigger] simple_up_to(
            list,
            n,
        ) && list[n].1 == #[trigger] json_string(text) ==> member_text(members, list[n].0) == Some(
            text,
        )
}

/// What the index holds of a document, read back, has the document's own id, path, name, extension
/// and contents as members of these names.
pub proof fn law_stored_document_holds_its_fields(members: Map<Seq<char>, Value>, d: DocumentView)
    requires
        reads_back(members, document_json_text(d)),
    ensures
        member_text(members, "id"@) == Some(d.id),
        member_text(members, "path"@) == Some(d.path),
        member_text(members, "file_name"@) == Some(d.file_name),
        d.extension is Some ==> member_text(members, "extension"@) == d.extension,
        member_text(members, "contents"@) == Some(d.contents),
{
    law_document_is_written_under_its_names(d);
    let list = document_members(d);
    assert(list[0].1 == json_string(d.id));
    assert(list[1].1 == json_string(d.path));
    assert(list[2].1 == json_string(d.file_name));
    if let Some(extension) = d.extension {
        assert(list[3].1 == json_string(extension));
    }
    assert(list[4].1 == json_string(d.contents));
    assert(simple_up_to(list, 0));
    assert(simple_up_to(list, 1));
    assert(simple_up_to(list, 2));
    assert(simple_up_to(list, 3));
    assert(simple_up_to(list, 4));
}

/// A hit has the path that the document found has, whatever other members that has.
pub proof fn law_hit_has_the_path_of_its_document(
    hit: SearchHit,
    found: FoundDocument,
    path: Seq<char>,
)
    requires
        shows(hit, found),
        object_members(&found.document).contains_key("path"@),
        value_text(&object_members(&found.document)["path"@]) == Some(path),
    ensures
        hit.path@ == path,
{
}

/// A document that is found again gives a hit with the path of the file that it was made from.
pub proof fn law_found_file_is_shown_with_its_path(
    hit: SearchHit,
    found: FoundDocument,
    d: DocumentView,
)
    requires
        shows(hit, found),
        reads_back(object_members(&found.document), document_json_text(d)),
    ensures
        hit.path@ == d.path,
{
    law_stored_document_holds_its_fields(object_members(&found.document), d);
}

/// A hit shows every member of the document found as it is, but for the vectors; a document whose
/// path is no text is shown as one of unknown path.
pub proof fn law_hit_shows_the_whole_document(hit: SearchHit, found: FoundDocument, name: Seq<char>)
    requires
        shows(hit, found),
    ensures
        value_members(&hit.document) is Some,
        ({
            let shown = value_members(&hit.document)->Some_0;
            let members = object_members(&found.document);
            &&& name != "_vectors"@ ==> (shown.contains_key(name) <==> members.contains_key(name))
            &&& name != "_vectors"@ && members.contains_key(name) ==> shown[name] == members[name]
            &&& shown.contains_key("_vectors"@)
        }),
        !object_members(&found.document).contains_key("path"@) || value_text(
            &object_members(&found.document)["path"@],
        ) is None ==> hit.path@ == "<unknown>"@,
{
    let shown = value_members(&hit.document)->Some_0;
    let members = object_members(&found.document);
    if name != "_vectors"@ {
        assert(shown.dom().contains(name) == members.dom().insert("_vectors"@).contains(name));
        if members.contains_key(name) {
            assert(shown.remove("_vectors"@)[name] == members.remove("_vectors"@)[name]);
        }
    }
    assert(shown.dom().contains("_vectors"@));
}

/// Among the vectors that a hit shows, each of the index is there under its name, the last one of a
/// name counting; under every other name stands what the document holds itself.
pub proof fn law_hit_shows_the_vectors_of_the_index(
    hit: SearchHit,
    found: FoundDocument,
    name: Seq<char>,
    own: Map<Seq<char>, Value>,
)
    requires
        shows(hit, found),
        own == (if object_members(&found.document).contains_key("_vectors"@) && value_members(
            &object_members(&found.document)["_vectors"@],
        ) is Some {
            value_members(&object_members(&found.document)["_vectors"@])->Some_0
        } else {
            Map::empty()
        }),
    ensures
        ({
            let shown = value_members(
                &value_members(&hit.document)->Some_0["_vectors"@],
            );
            &&& shown is Some
            &&& forall|i: int|
                0 <= i < found.vectors@.len() && (#[trigger] found.vectors@[i]).0@ == name && (
                forall|j: int|
                    i < j < found.vectors@.len() ==> (#[trigger] found.vectors@[j]).0@ != name)
                    ==> shown->Some_0.contains_key(name) && shown->Some_0[name]
                    == found.vectors@[i].1
            &&& (forall|i: int|
                0 <= i < found.vectors@.len() ==> (#[trigger] found.vectors@[i]).0@ != name) ==> (
            shown->Some_0.contains_key(name) == own.contains_key(name) && (own.contains_key(name)
                ==> shown->Some_0[name] == own[name]))
        }),
{
    lemma_last_member_counts(own, found.vectors@, name);
}

proof fn lemma_last_member_counts(
    members: Map<Seq<char>, Value>,
    more: Seq<(String, Value)>,
    name: Seq<char>,
)
    ensures
        forall|i: int|
            0 <= i < more.len() && (#[trigger] more[i]).0@ == name && (forall|j: int|
                i < j < more.len() ==> (#[trigger] more[j]).0@ != name) ==> with_members(
                members,
                more,
            ).contains_key(name) && with_members(members, more)[name] == more[i].1,
        (forall|i: int| 0 <= i < more.len() ==> (#[trigger] more[i]).0@ != name) ==> with_members(
            members,
            more,
        ).contains_key(name) == members.contains_key(name) && (members.contains_key(name)
            ==> with_members(members, more)[name] == members[name]),
    decreases more.len(),
{
    if more.len() > 0 {
        let rest = more.drop_last();
        lemma_last_member_counts(members, rest, name);
        assert(more[more.len() - 1] == more.last());
        assert forall|i: int|
            0 <= i < more.len() && (#[trigger] more[i]).0@ == name && (forall|j: int|
                i < j < more.len() ==> (#[trigger] more[j]).0@ != name) implies with_members(
            members,
            more,
        ).contains_key(name) && with_members(members, more)[name] == more[i].1 by {
            if i < rest.len() {
                assert(rest[i] == more[i]);
                assert(more[more.len() - 1].0@ != name);
                assert forall|j: int| i < j < rest.len() implies (#[trigger] rest[j]).0@
                    != name by {
                    assert(rest[j] == more[j]);
                }
            }
        }
        if forall|i: int| 0 <= i < more.len() ==> (#[trigger] more[i]).0@ != name {
            assert forall|i: int| 0 <= i < rest.len() implies (#[trigger] rest[i]).0@ != name by {
                assert(rest[i] == more[i]);
            }
            assert(more[more.len() - 1].0@ != name);
        }
    }
}

/// Words are searched in the name, the path, the contents and the extension of a file, and nowhere
/// else; a word in the name counts most.
pub proof fn law_words_are_searched_in_every_field(field: Seq<char>)
    ensures
        searched_fields().contains(field) <==> field == "path"@ || field == "file_name"@ || field
            == "extension"@ || field == "contents"@,
        searched_fields()[0] == "file_name"@,
        searched_fields().len() == 4,
{
    let fields = searched_fields();
    assert(fields[1] == "path"@ && fields[2] == "contents"@ && fields[3] == "extension"@);
}

/// A document of an index goes in a repair exactly where its path is not that of a file in the
/// working manifest, or of one that was skipped: a file that is recorded in any other way, with its
/// contents or by its name, waiting or not, keeps its document. One without a path goes.
pub proof fn law_repair_keeps_the_documents_of_recorded_files(
    files: Map<Seq<char>, ManifestEntry>,
    documents: Seq<serde_json::Map<String, Value>>,
    i: int,
    id: Seq<char>,
)
    requires
        identified(documents),
        0 <= i < documents.len(),
        held_id(documents[i]) == Some(id),
    ensures
        held_path(documents[i]) matches Some(path) ==> ({
            let kept = files.contains_key(path) && ({
                let state = files[path].state;
                ||| state is Indexed
                ||| state is IndexedPendingEmbedding
                ||| state is IndexedMetadata
                ||| state is IndexedMetadataPendingEmbedding
            });
            orphan_ids(files, documents).contains(id) <==> !kept
        }),
        held_path(documents[i]) is None ==> orphan_ids(files, documents).contains(id),
{
    law_repair_leaves_exactly_indexed_documents(files, documents, i);
}

/// A repair takes out nothing but documents of the index, each under its own id.
pub proof fn law_repair_takes_out_documents_of_the_index(
    files: Map<Seq<char>, ManifestEntry>,
    documents: Seq<serde_json::Map<String, Value>>,
    id: Seq<char>,
)
    requires
        identified(documents),
        orphan_ids(files, documents).contains(id),
    ensures
        exists|i: int| 0 <= i < documents.len() && held_id(#[trigger] documents[i]) == Some(id),
{
    law_repair_takes_out_exactly_orphans(files, documents, id);
    let i = choose|i: int|
        0 <= i < documents.len() && orphan_id(files, object_members(&#[trigger] documents[i]))
            == Some(id);
    assert(held_id(documents[i]) == Some(id));
}

/// The id and the path by which a repair judges a document are the members of these names.
pub proof fn law_repair_judges_by_id_and_path(
    document: serde_json::Map<String, Value>,
    d: DocumentView,
)
    requires
        reads_back(object_members(&document), document_json_text(d)),
    ensures
        held_id(document) == Some(d.id),
        held_path(document) == Some(d.path),
{
    law_stored_document_holds_its_fields(object_members(&document), d);
}

/// A document that goes by its path goes under the hash of all bytes of the path.
pub proof fn law_orphan_goes_under_the_id_of_its_path(
    files: Map<Seq<char>, ManifestEntry>,
    document: serde_json::Map<String, Value>,
    path: Seq<char>,
)
    requires
        held_path(document) == Some(path),
        !files.contains_key(path) || files[path].state is Skipped,
    ensures
        orphan_id(files, object_members(&document)) == Some(blake3_hex(encode_utf8(path))),
{
}

/// The hits of a search are the documents found, in their order and ranked from one, each with its
/// own path; query, timings and count are those of the search.
pub proof fn law_results_list_the_documents_found(
    query: String,
    timings: Vec<(String, String)>,
    candidate_count: u64,
    documents: Vec<FoundDocument>,
    results: SearchResults,
    i: int,
    path: Seq<char>,
)
    requires
        call_ensures(
            build_search_results,
            (query, timings, candidate_count, documents),
            results,
        ),
        0 <= i < documents@.len(),
    ensures
        results.hits@.len() == documents@.len(),
        results.hits@[i].rank == i + 1,
        results.query@ == query@,
        results.timings@ == timings@,
        results.candidate_count == candidate_count,
        object_members(&documents@[i].document).contains_key("path"@) && value_text(
            &object_members(&documents@[i].document)["path"@],
        ) == Some(path) ==> results.hits@[i].path@ == path,
        shows(results.hits@[i], documents@[i]),
{
    assert(shows(results.hits@[i], documents@[i]));
}

/// A file that was indexed, and is found again, is listed with its path.
pub proof fn law_indexed_file_is_listed_with_its_path(
    query: String,
    timings: Vec<(String, String)>,
    candidate_count: u64,
    documents: Vec<FoundDocument>,
    results: SearchResults,
    i: int,
    d: DocumentView,
)
    requires
        call_ensures(
            build_search_results,
            (query, timings, candidate_count, documents),
            results,
        ),
        0 <= i < documents@.len(),
        reads_back(object_members(&documents@[i].document), document_json_text(d)),
    ensures
        results.hits@[i].path@ == d.path,
{
    assert(shows(results.hits@[i], documents@[i]));
    law_found_file_is_shown_with_its_path(results.hits@[i], documents@[i], d);
}

/// A repair names a document exactly where its path is not that of a file of the working manifest,
/// or of one that was skipped.
pub proof fn law_repair_names_exactly_the_orphans(
    working: Manifest,
    documents: Vec<serde_json::Map<String, Value>>,
    ids: Vec<String>,
    i: int,
    id: Seq<char>,
    path: Seq<char>,
)
    requires
        call_ensures(orphaned_ids, (&working, &documents), ids),
        identified(documents@),
        0 <= i < documents@.len(),
        member_text(object_members(&documents@[i]), "id"@) == Some(id),
        member_text(object_members(&documents@[i]), "path"@) == Some(path),
    ensures
        ids.deep_view().contains(id) <==> !(working.files@.contains_key(path) && !(
        working.files@[path].state is Skipped)),
{
    law_repair_keeps_the_documents_of_recorded_files(working@.files, documents@, i, id);
}

/// A query is searched without the white space at its ends, and as it is otherwise; one of white
/// space alone is refused.
pub proof fn law_query_is_searched_as_it_is(query: &str, text: Result<String, SearchxError>)
    requires
        call_ensures(query_text, (query,), text),
    ensures
        text is Err <==> forall|k: int|
            0 <= k < query@.len() ==> is_white_space(#[trigger] query@[k]),
        text matches Ok(text) ==> exists|i: int, j: int|
            trims_to(query@, i, j) && i < j && text@ == #[trigger] query@.subrange(i, j),
{
    law_trimming_leaves_the_middle(query@);
    let (i, j) = choose|i: int, j: int| trims_to(query@, i, j);
    assert(trimmed(query@) == query@.subrange(i, j));
    if i < j {
        assert(!is_white_space(query@[i]));
    } else {
        assert forall|k: int| 0 <= k < query@.len() implies is_white_space(
            #[trigger] query@[k],
        ) by {}
    }
}

/// The embedder that is used is the first of the name under which documents hold their vectors.
pub proof fn law_embedder_is_found_by_its_name(
    names: Vec<String>,
    place: Result<usize, SearchxError>,
    k: int,
)
    requires
        call_ensures(vector_search_embedder, (&names,), place),
        0 <= k < names@.len(),
        names@[k]@ == VECTOR_EMBEDDER_NAME@,
    ensures
        place matches Ok(i) && i <= k && names@[i as int]@ == VECTOR_EMBEDDER_NAME@,
{
    assert(names.deep_view()[k] == names@[k]@);
    let i = place->Ok_0;
    assert(k < i ==> names@[k]@ != VECTOR_EMBEDDER_NAME@);
}

/// An index is set up for the documents that it is given: by their ids, with the vectors that they
/// hold, and searched in all their fields.
pub proof fn law_index_is_set_up_for_its_documents(settings: IndexSettings, field: Seq<char>)
    requires
        call_ensures(index_settings, (), settings),
    ensures
        settings.primary_key@ == "id"@,
        settings.embedder@ == "default"@,
        settings.dimensions == VECTOR_DIMENSIONS,
        settings.searchable_fields.deep_view().contains(field) <==> field == "path"@ || field
            == "file_name"@ || field == "extension"@ || field == "contents"@,
{
    law_words_are_searched_in_every_field(field);
}

/// Where there is no index, the error names its file.
pub proof fn law_missing_index_is_named(data_file: &Path, error: SearchxError)
    requires
        call_ensures(index_not_found, (data_file,), error),
    ensures
        error matches SearchxError::Io { message } && displayed(
            path_bytes(data_file),
        ).is_suffix_of(message@),
{
    let shown = displayed(path_bytes(data_file));
    let text = "index not found at "@ + shown;
    assert(shown =~= text.subrange(text.len() - shown.len(), text.len() as int));
}

} // verus!
