//! Documents as the index takes them: their ids, and their JSON text.

use crate::constants::VECTOR_EMBEDDER_NAME;
use vstd::prelude::*;
use vstd::string::*;
use vstd::utf8::*;

verus! {

/// A lowercase hexadecimal digit.
pub open spec fn is_hex_digit(c: char) -> bool {
    ('0' <= c && c <= '9') || ('a' <= c && c <= 'f')
}

/// The BLAKE3 hash of bytes, in hexadecimal.
pub uninterp spec fn blake3_hex(bytes: Seq<u8>) -> Seq<char>;

/// `blake3::hash`, with the hash written by `Hash::to_hex`: a function of the bytes alone, and
/// always sixty-four lowercase hexadecimal digits.
#[verifier::external_body]
fn hash_hex(bytes: &[u8]) -> (hex: String)
    ensures
        hex@ == blake3_hex(bytes@),
        hex@.len() == 64,
        forall|i: int| 0 <= i < 64 ==> is_hex_digit(#[trigger] hex@[i]),
{
    blake3::hash(bytes).to_hex().to_string()
}

/// The id of the document of a path: the hash of the path's UTF-8 bytes.
pub open spec fn document_id(path: Seq<char>) -> Seq<char> {
    blake3_hex(encode_utf8(path))
}

/// The id of the document of a path.
pub fn document_id_for_path(relative_path: &str) -> (id: String)
    ensures
        id@ == document_id(relative_path@),
        id@ == blake3_hex(encode_utf8(relative_path@)),
        id@.len() == 64,
        forall|i: int| 0 <= i < 64 ==> is_hex_digit(#[trigger] id@[i]),
{
    hash_hex(relative_path.as_bytes())
}

/// The lowercase hexadecimal digit of a number below sixteen.
pub open spec fn hex_digit(n: int) -> char {
    if n < 10 {
        (48 + n) as char
    } else {
        (87 + n) as char
    }
}

/// A character inside a JSON string.
pub open spec fn json_char(c: char) -> Seq<char> {
    if c == '"' || c == '\\' {
        seq!['\\', c]
    } else if c as int == 8 {
        seq!['\\', 'b']
    } else if c as int == 9 {
        seq!['\\', 't']
    } else if c as int == 10 {
        seq!['\\', 'n']
    } else if c as int == 12 {
        seq!['\\', 'f']
    } else if c as int == 13 {
        seq!['\\', 'r']
    } else if (c as int) < 32 {
        seq!['\\', 'u', '0', '0', hex_digit(c as int / 16), hex_digit(c as int % 16)]
    } else {
        seq![c]
    }
}

/// The characters of a text inside a JSON string.
pub open spec fn json_chars(text: Seq<char>) -> Seq<char>
    decreases text.len(),
{
    if text.len() == 0 {
        Seq::empty()
    } else {
        json_chars(text.drop_last()) + json_char(text.last())
    }
}

/// A text as a JSON string.
pub open spec fn json_string(text: Seq<char>) -> Seq<char> {
    seq!['"'] + json_chars(text) + seq!['"']
}

/// `serde_json::to_string` of a `str`: the text in double quotes, with a backslash before each
/// double quote and backslash, and the control characters below U+0020 escaped. It fails only
/// where a `Serialize` implementation does or a map has other keys than strings; that of `str`
/// does neither.
#[verifier::external_body]
fn json_text(text: &str) -> (json: Result<String, String>)
    ensures
        json is Ok,
        json->Ok_0@ == json_string(text@),
{
    serde_json::to_string(text).map_err(|error| error.to_string())
}

/// The vectors of a document: the one for the only embedder there is, as the JSON text of an
/// array of numbers.
#[derive(Debug, Clone, PartialEq, Eq)]
pub struct IndexedVectors {
    pub vector: Option<String>,
}

/// What the index is given of a file.
#[derive(Debug, Clone, PartialEq, Eq)]
pub struct IndexedDocument {
    pub id: String,
    pub path: String,
    pub file_name: String,
    pub extension: Option<String>,
    pub contents: String,
    pub vectors: IndexedVectors,
}

/// An [`IndexedDocument`] as text.
pub struct DocumentView {
    pub id: Seq<char>,
    pub path: Seq<char>,
    pub file_name: Seq<char>,
    pub extension: Option<Seq<char>>,
    pub contents: Seq<char>,
    pub vector: Option<Seq<char>>,
}

impl View for IndexedDocument {
    type V = DocumentView;

    open spec fn view(&self) -> DocumentView {
        DocumentView {
            id: self.id@,
            path: self.path@,
            file_name: self.file_name@,
            extension: self.extension.deep_view(),
            contents: self.contents@,
            vector: self.vectors.vector.deep_view(),
        }
    }
}

/// Vectors with or without the one of the embedder.
pub fn indexed_vectors(vector: Option<String>) -> (vectors: IndexedVectors)
    ensures
        vectors.vector == vector,
{
    IndexedVectors { vector }
}

/// The vectors of a document that has not been embedded.
#[must_use]
pub fn empty_document_vectors() -> (vectors: IndexedVectors)
    ensures
        vectors.vector is None,
{
    indexed_vectors(None)
}

/// The vectors of an embedded document.
#[must_use]
pub fn embedded_document_vectors(vector: String) -> (vectors: IndexedVectors)
    ensures
        vectors.vector == Some(vector),
{
    indexed_vectors(Some(vector))
}

/// An optional text as a JSON string or `null`.
pub open spec fn json_optional(text: Option<Seq<char>>) -> Seq<char> {
    match text {
        Some(text) => json_string(text),
        None => "null"@,
    }
}

/// The JSON text of the vector of a document.
pub open spec fn vector_json(document: DocumentView) -> Seq<char> {
    match document.vector {
        Some(vector) => vector,
        None => "null"@,
    }
}

/// The JSON text of a document.
pub open spec fn document_json_text(document: DocumentView) -> Seq<char> {
    "{\"id\":"@ + json_string(document.id) + ",\"path\":"@ + json_string(document.path)
        + ",\"file_name\":"@ + json_string(document.file_name) + ",\"extension\":"@
        + json_optional(document.extension) + ",\"contents\":"@ + json_string(document.contents)
        + ",\"_vectors\":{"@ + json_string(VECTOR_EMBEDDER_NAME@) + ":"@ + vector_json(document)
        + "}}"@
}

fn append_json(text: &mut String, value: &str)
    ensures
        final(text)@ == old(text)@ + json_string(value@),
{
    match json_text(value) {
        Ok(json) => text.append(json.as_str()),
        Err(_) => {},
    }
}

/// Writes a document as JSON.
pub fn document_json(document: &IndexedDocument) -> (json: String)
    ensures
        json@ == document_json_text(document@),
{
    let mut json = "{\"id\":".to_string();
    append_json(&mut json, document.id.as_str());
    json.append(",\"path\":");
    append_json(&mut json, document.path.as_str());
    json.append(",\"file_name\":");
    append_json(&mut json, document.file_name.as_str());
    json.append(",\"extension\":");
    match &document.extension {
        Some(extension) => append_json(&mut json, extension.as_str()),
        None => json.append("null"),
    }
    json.append(",\"contents\":");
    append_json(&mut json, document.contents.as_str());
    json.append(",\"_vectors\":{");
    append_json(&mut json, VECTOR_EMBEDDER_NAME);
    json.append(":");
    match &document.vectors.vector {
        Some(vector) => json.append(vector.as_str()),
        None => json.append("null"),
    }
    json.append("}}");
    json
}

/// The text is one line.
pub open spec fn single_line(text: Seq<char>) -> bool {
    forall|i: int| 0 <= i < text.len() ==> text[i] != '\n'
}

proof fn lemma_json_char_single_line(c: char)
    ensures
        single_line(json_char(c)),
{
    assert((c as int) < 32 ==> hex_digit(c as int / 16) != '\n');
    assert((c as int) < 32 ==> hex_digit(c as int % 16) != '\n');
}

proof fn lemma_json_chars_single_line(text: Seq<char>)
    ensures
        single_line(json_chars(text)),
    decreases text.len(),
{
    if text.len() > 0 {
        lemma_json_chars_single_line(text.drop_last());
        lemma_json_char_single_line(text.last());
    }
}

/// A JSON string is one line, whatever the text.
pub proof fn law_json_string_is_one_line(text: Seq<char>)
    ensures
        single_line(json_string(text)),
{
    lemma_json_chars_single_line(text);
}

/// The JSON text of a document is one line, whatever its path and contents hold, where the text
/// of its vector is.
pub proof fn law_document_is_one_line(document: DocumentView)
    requires
        document.vector is Some ==> single_line(document.vector->Some_0),
    ensures
        single_line(document_json_text(document)),
{
    reveal_strlit("{\"id\":");
    reveal_strlit(",\"path\":");
    reveal_strlit(",\"file_name\":");
    reveal_strlit(",\"extension\":");
    reveal_strlit(",\"contents\":");
    reveal_strlit(",\"_vectors\":{");
    reveal_strlit(":");
    reveal_strlit("}}");
    reveal_strlit("null");
    law_json_string_is_one_line(document.id);
    law_json_string_is_one_line(document.path);
    law_json_string_is_one_line(document.file_name);
    if document.extension is Some {
        law_json_string_is_one_line(document.extension->Some_0);
    }
    law_json_string_is_one_line(document.contents);
    law_json_string_is_one_line(VECTOR_EMBEDDER_NAME@);
}

proof fn lemma_json_chars_front(text: Seq<char>)
    requires
        text.len() > 0,
    ensures
        json_chars(text) == json_char(text[0]) + json_chars(text.drop_first()),
    decreases text.len(),
{
    if text.len() == 1 {
        assert(text.drop_last() =~= Seq::empty());
        assert(text.drop_first() =~= Seq::empty());
        assert(json_chars(text) =~= json_char(text[0]) + json_chars(text.drop_first()));
    } else {
        lemma_json_chars_front(text.drop_last());
        assert(text.drop_last().drop_first() =~= text.drop_first().drop_last());
        assert(text.drop_last()[0] == text[0]);
        assert(json_chars(text) =~= json_char(text[0]) + json_chars(text.drop_first()));
    }
}

/// Where two characters are written alike at the beginning of a text, they are one.
proof fn lemma_json_char_prefix(a: char, b: char, x: Seq<char>, y: Seq<char>)
    requires
        json_char(a) + x == json_char(b) + y,
    ensures
        a == b,
        x == y,
{
    let p = json_char(a);
    let q = json_char(b);
    let whole = p + x;
    assert(whole == q + y);
    assert(p.len() > 0 && q.len() > 0);
    assert(whole[0] == p[0]);
    assert(whole[0] == q[0]);
    if p.len() >= 2 {
        assert(whole[1] == p[1]);
    }
    if q.len() >= 2 {
        assert(whole[1] == q[1]);
    }
    if p.len() == 6 && q.len() == 6 {
        assert(whole[4] == p[4]);
        assert(whole[4] == q[4]);
        assert(whole[5] == p[5]);
        assert(whole[5] == q[5]);
        lemma_hex_digit(a as int / 16, b as int / 16);
        lemma_hex_digit(a as int % 16, b as int % 16);
    }
    assert(a == b);
    assert(x =~= whole.skip(p.len() as int));
    assert(y =~= whole.skip(q.len() as int));
}

proof fn lemma_hex_digit(m: int, n: int)
    requires
        0 <= m < 16,
        0 <= n < 16,
        hex_digit(m) == hex_digit(n),
    ensures
        m == n,
{
}

proof fn lemma_json_chars_prefix(a: Seq<char>, b: Seq<char>, x: Seq<char>, y: Seq<char>)
    requires
        json_chars(a) + seq!['"'] + x == json_chars(b) + seq!['"'] + y,
    ensures
        a == b,
        x == y,
    decreases a.len(),
{
    let whole = json_chars(a) + seq!['"'] + x;
    if a.len() == 0 && b.len() == 0 {
        assert(a =~= b);
        assert(x =~= whole.skip(1));
        assert(y =~= whole.skip(1));
    } else if a.len() == 0 {
        lemma_json_chars_front(b);
        assert(whole[0] == '"');
        assert(whole[0] == json_char(b[0])[0]);
    } else if b.len() == 0 {
        lemma_json_chars_front(a);
        assert(whole[0] == '"');
        assert(whole[0] == json_char(a[0])[0]);
    } else {
        lemma_json_chars_front(a);
        lemma_json_chars_front(b);
        let after_a = json_chars(a.drop_first()) + seq!['"'] + x;
        let after_b = json_chars(b.drop_first()) + seq!['"'] + y;
        assert(json_char(a[0]) + after_a =~= whole);
        assert(json_char(b[0]) + after_b =~= whole);
        lemma_json_char_prefix(a[0], b[0], after_a, after_b);
        lemma_json_chars_prefix(a.drop_first(), b.drop_first(), x, y);
        assert(a =~= seq![a[0]] + a.drop_first());
        assert(b =~= seq![b[0]] + b.drop_first());
    }
}

/// A JSON string at the beginning of a text stands for one text only, whatever follows it.
pub proof fn law_json_string_reads_back(a: Seq<char>, b: Seq<char>, x: Seq<char>, y: Seq<char>)
    requires
        json_string(a) + x == json_string(b) + y,
    ensures
        a == b,
        x == y,
{
    let whole = json_string(a) + x;
    assert(json_chars(a) + seq!['"'] + x =~= whole.skip(1));
    assert(json_chars(b) + seq!['"'] + y =~= whole.skip(1));
    lemma_json_chars_prefix(a, b, x, y);
}

/// What follows a text that two texts begin with.
proof fn lemma_strip(prefix: Seq<char>, x: Seq<char>, y: Seq<char>)
    requires
        prefix + x == prefix + y,
    ensures
        x == y,
{
    assert(x =~= (prefix + x).skip(prefix.len() as int));
    assert(y =~= (prefix + y).skip(prefix.len() as int));
}

proof fn lemma_optional_prefix(
    a: Option<Seq<char>>,
    b: Option<Seq<char>>,
    x: Seq<char>,
    y: Seq<char>,
)
    requires
        json_optional(a) + x == json_optional(b) + y,
    ensures
        a == b,
        x == y,
{
    reveal_strlit("null");
    let whole = json_optional(a) + x;
    assert("null"@.len() == 4 && "null"@[0] == 'n');
    assert(whole[0] == json_optional(a)[0]);
    assert(whole[0] == json_optional(b)[0]);
    match (a, b) {
        (Some(a), Some(b)) => law_json_string_reads_back(a, b, x, y),
        _ => lemma_strip("null"@, x, y),
    }
}

proof fn lemma_regroup(a: Seq<char>, b: Seq<char>, c: Seq<char>)
    ensures
        a + b + c == a + (b + c),
{
    assert(a + b + c =~= a + (b + c));
}

/// The JSON text of a document after its contents.
spec fn after_contents(d: DocumentView) -> Seq<char> {
    ",\"_vectors\":{"@ + json_string(VECTOR_EMBEDDER_NAME@) + ":"@ + vector_json(d) + "}}"@
}

spec fn after_extension(d: DocumentView) -> Seq<char> {
    ",\"contents\":"@ + (json_string(d.contents) + after_contents(d))
}

spec fn after_name(d: DocumentView) -> Seq<char> {
    ",\"extension\":"@ + (json_optional(d.extension) + after_extension(d))
}

spec fn after_path(d: DocumentView) -> Seq<char> {
    ",\"file_name\":"@ + (json_string(d.file_name) + after_name(d))
}

spec fn after_id(d: DocumentView) -> Seq<char> {
    ",\"path\":"@ + (json_string(d.path) + after_path(d))
}

/// The JSON text of a document, field after field.
proof fn lemma_document_fields(d: DocumentView)
    ensures
        document_json_text(d) == "{\"id\":"@ + (json_string(d.id) + after_id(d)),
{
    let id = "{\"id\":"@ + json_string(d.id);
    let path = id + ",\"path\":"@ + json_string(d.path);
    let name = path + ",\"file_name\":"@ + json_string(d.file_name);
    let extension = name + ",\"extension\":"@ + json_optional(d.extension);
    let contents = extension + ",\"contents\":"@ + json_string(d.contents);
    let vectors = ",\"_vectors\":{"@;
    let key = json_string(VECTOR_EMBEDDER_NAME@);
    lemma_regroup(contents, vectors, key);
    lemma_regroup(contents, vectors + key, ":"@);
    lemma_regroup(contents, vectors + key + ":"@, vector_json(d));
    lemma_regroup(contents, vectors + key + ":"@ + vector_json(d), "}}"@);
    assert(document_json_text(d) == contents + after_contents(d));
    lemma_regroup(extension + ",\"contents\":"@, json_string(d.contents), after_contents(d));
    lemma_regroup(extension, ",\"contents\":"@, json_string(d.contents) + after_contents(d));
    assert(document_json_text(d) == extension + after_extension(d));
    lemma_regroup(name + ",\"extension\":"@, json_optional(d.extension), after_extension(d));
    lemma_regroup(name, ",\"extension\":"@, json_optional(d.extension) + after_extension(d));
    assert(document_json_text(d) == name + after_name(d));
    lemma_regroup(path + ",\"file_name\":"@, json_string(d.file_name), after_name(d));
    lemma_regroup(path, ",\"file_name\":"@, json_string(d.file_name) + after_name(d));
    assert(document_json_text(d) == path + after_path(d));
    lemma_regroup(id + ",\"path\":"@, json_string(d.path), after_path(d));
    lemma_regroup(id, ",\"path\":"@, json_string(d.path) + after_path(d));
    lemma_regroup("{\"id\":"@, json_string(d.id), after_id(d));
}

/// The JSON text of a document stands for one document only: from what the index is given, every
/// field of the document can be told.
pub proof fn law_document_reads_back(a: DocumentView, b: DocumentView)
    requires
        document_json_text(a) == document_json_text(b),
    ensures
        a.id == b.id,
        a.path == b.path,
        a.file_name == b.file_name,
        a.extension == b.extension,
        a.contents == b.contents,
        vector_json(a) == vector_json(b),
{
    lemma_document_fields(a);
    lemma_document_fields(b);
    lemma_strip("{\"id\":"@, json_string(a.id) + after_id(a), json_string(b.id) + after_id(b));
    law_json_string_reads_back(a.id, b.id, after_id(a), after_id(b));
    lemma_strip(
        ",\"path\":"@,
        json_string(a.path) + after_path(a),
        json_string(b.path) + after_path(b),
    );
    law_json_string_reads_back(a.path, b.path, after_path(a), after_path(b));
    lemma_strip(
        ",\"file_name\":"@,
        json_string(a.file_name) + after_name(a),
        json_string(b.file_name) + after_name(b),
    );
    law_json_string_reads_back(a.file_name, b.file_name, after_name(a), after_name(b));
    lemma_strip(
        ",\"extension\":"@,
        json_optional(a.extension) + after_extension(a),
        json_optional(b.extension) + after_extension(b),
    );
    lemma_optional_prefix(a.extension, b.extension, after_extension(a), after_extension(b));
    lemma_strip(
        ",\"contents\":"@,
        json_string(a.contents) + after_contents(a),
        json_string(b.contents) + after_contents(b),
    );
    law_json_string_reads_back(a.contents, b.contents, after_contents(a), after_contents(b));
    let head = ",\"_vectors\":{"@ + json_string(VECTOR_EMBEDDER_NAME@) + ":"@;
    lemma_regroup(head, vector_json(a), "}}"@);
    lemma_regroup(head, vector_json(b), "}}"@);
    lemma_strip(head, vector_json(a) + "}}"@, vector_json(b) + "}}"@);
    assert(vector_json(a) =~= (vector_json(a) + "}}"@).drop_last().drop_last()) by {
        reveal_strlit("}}");
    }
    assert(vector_json(b) =~= (vector_json(b) + "}}"@).drop_last().drop_last()) by {
        reveal_strlit("}}");
    }
}

/// The id of a document is the hash of all bytes of its path: two paths have one id only where the
/// hashes of their bytes collide.
pub proof fn law_ids_tell_paths_that_do_not_collide(a: Seq<char>, b: Seq<char>)
    requires
        encode_utf8(a) != encode_utf8(b) ==> blake3_hex(encode_utf8(a)) != blake3_hex(
            encode_utf8(b),
        ),
    ensures
        document_id(a) == document_id(b) <==> a == b,
        document_id(a) == blake3_hex(encode_utf8(a)),
{
    encode_utf8_decode_utf8(a);
    encode_utf8_decode_utf8(b);
}

/// The members of a JSON object, each given by its name and the JSON text of its value.
pub open spec fn json_members(members: Seq<(Seq<char>, Seq<char>)>) -> Seq<char>
    decreases members.len(),
{
    if members.len() == 0 {
        Seq::empty()
    } else {
        let member = json_string(members.last().0) + seq![':'] + members.last().1;
        if members.len() == 1 {
            member
        } else {
            json_members(members.drop_last()) + seq![','] + member
        }
    }
}

/// A JSON object with members.
pub open spec fn json_object(members: Seq<(Seq<char>, Seq<char>)>) -> Seq<char> {
    seq!['{'] + json_members(members) + seq!['}']
}

/// The members in which the index finds what a document holds.
pub open spec fn document_members(document: DocumentView) -> Seq<(Seq<char>, Seq<char>)> {
    seq![
        ("id"@, json_string(document.id)),
        ("path"@, json_string(document.path)),
        ("file_name"@, json_string(document.file_name)),
        (
            "extension"@,
            if document.extension is Some {
                json_string(document.extension->Some_0)
            } else {
                "null"@
            },
        ),
        ("contents"@, json_string(document.contents)),
        (
            "_vectors"@,
            json_object(
                seq![
                    (
                        "default"@,
                        if document.vector is Some {
                            document.vector->Some_0
                        } else {
                            "null"@
                        },
                    ),
                ],
            ),
        ),
    ]
}

proof fn lemma_plain_text(text: Seq<char>)
    requires
        forall|i: int|
            0 <= i < text.len() ==> (#[trigger] text[i]) as int >= 32 && text[i] != '"' && text[i]
                != '\\',
    ensures
        json_chars(text) == text,
    decreases text.len(),
{
    if text.len() > 0 {
        lemma_plain_text(text.drop_last());
        assert(json_char(text.last()) =~= seq![text.last()]);
        assert(json_chars(text) =~= text);
    } else {
        assert(json_chars(text) =~= text);
    }
}

proof fn lemma_member_names()
    ensures
        "{\"id\":"@ == seq!['{'] + json_string("id"@) + seq![':'],
        ",\"path\":"@ == seq![','] + json_string("path"@) + seq![':'],
        ",\"file_name\":"@ == seq![','] + json_string("file_name"@) + seq![':'],
        ",\"extension\":"@ == seq![','] + json_string("extension"@) + seq![':'],
        ",\"contents\":"@ == seq![','] + json_string("contents"@) + seq![':'],
        ",\"_vectors\":{"@ == seq![','] + json_string("_vectors"@) + seq![':'] + seq!['{'],
        ":"@ == seq![':'],
        "}}"@ == seq!['}'] + seq!['}'],
{
    reveal_strlit("{\"id\":");
    reveal_strlit(",\"path\":");
    reveal_strlit(",\"file_name\":");
    reveal_strlit(",\"extension\":");
    reveal_strlit(",\"contents\":");
    reveal_strlit(",\"_vectors\":{");
    reveal_strlit(":");
    reveal_strlit("}}");
    reveal_strlit("id");
    reveal_strlit("path");
    reveal_strlit("file_name");
    reveal_strlit("extension");
    reveal_strlit("contents");
    reveal_strlit("_vectors");
    lemma_plain_text("id"@);
    lemma_plain_text("path"@);
    lemma_plain_text("file_name"@);
    lemma_plain_text("extension"@);
    lemma_plain_text("contents"@);
    lemma_plain_text("_vectors"@);
    assert("{\"id\":"@ =~= seq!['{'] + json_string("id"@) + seq![':']);
    assert(",\"path\":"@ =~= seq![','] + json_string("path"@) + seq![':']);
    assert(",\"file_name\":"@ =~= seq![','] + json_string("file_name"@) + seq![':']);
    assert(",\"extension\":"@ =~= seq![','] + json_string("extension"@) + seq![':']);
    assert(",\"contents\":"@ =~= seq![','] + json_string("contents"@) + seq![':']);
    assert(",\"_vectors\":{"@ =~= seq![','] + json_string("_vectors"@) + seq![':'] + seq!['{']);
    assert(":"@ =~= seq![':']);
    assert("}}"@ =~= seq!['}'] + seq!['}']);
}

/// One more member comes after the others.
proof fn lemma_open_object_push(
    text: Seq<char>,
    members: Seq<(Seq<char>, Seq<char>)>,
    key: Seq<char>,
    name: Seq<char>,
    value: Seq<char>,
)
    requires
        members.len() > 0,
        text == seq!['{'] + json_members(members),
        key == seq![','] + json_string(name) + seq![':'],
    ensures
        text + key + value == seq!['{'] + json_members(members.push((name, value))),
{
    assert(members.push((name, value)).drop_last() =~= members);
    assert(text + key + value =~= seq!['{'] + json_members(members.push((name, value))));
}

proof fn lemma_single_member(open: Seq<char>, name: Seq<char>, value: Seq<char>)
    requires
        open == seq!['{'] + json_string(name) + seq![':'],
    ensures
        open + value == seq!['{'] + json_members(seq![(name, value)]),
{
    assert(open + value =~= seq!['{'] + json_members(seq![(name, value)]));
}

/// An object inside the last member closes before the object around it.
proof fn lemma_closing(
    text: Seq<char>,
    key: Seq<char>,
    inner_name: Seq<char>,
    value: Seq<char>,
)
    ensures
        text + (key + seq!['{']) + inner_name + seq![':'] + value + (seq!['}'] + seq!['}'])
            == text + key + (seq!['{'] + (inner_name + seq![':'] + value) + seq!['}']) + seq!['}'],
{
    assert(text + (key + seq!['{']) + inner_name + seq![':'] + value + (seq!['}'] + seq!['}'])
        =~= text + key + (seq!['{'] + (inner_name + seq![':'] + value) + seq!['}']) + seq!['}']);
}

/// The JSON text of a document is an object that holds, under their names, its id, its path, its
/// file name, its extension or `null`, its contents, and its vector or `null` under the name of the
/// embedder.
pub proof fn law_document_is_written_under_its_names(d: DocumentView)
    ensures
        document_json_text(d) == json_object(document_members(d)),
{
    lemma_member_names();
    let all = document_members(d);
    let a = seq![all[0]];
    let b = a.push(all[1]);
    let c = b.push(all[2]);
    let e = c.push(all[3]);
    let f = e.push(all[4]);
    assert(f.push(all[5]) =~= all);
    let id = "{\"id\":"@ + json_string(d.id);
    let path = id + ",\"path\":"@ + json_string(d.path);
    let name = path + ",\"file_name\":"@ + json_string(d.file_name);
    let extension = name + ",\"extension\":"@ + json_optional(d.extension);
    let contents = extension + ",\"contents\":"@ + json_string(d.contents);
    lemma_single_member("{\"id\":"@, "id"@, json_string(d.id));
    lemma_open_object_push(id, a, ",\"path\":"@, "path"@, json_string(d.path));
    lemma_open_object_push(path, b, ",\"file_name\":"@, "file_name"@, json_string(d.file_name));
    lemma_open_object_push(
        name,
        c,
        ",\"extension\":"@,
        "extension"@,
        json_optional(d.extension),
    );
    lemma_open_object_push(
        extension,
        e,
        ",\"contents\":"@,
        "contents"@,
        json_string(d.contents),
    );
    let key = seq![','] + json_string("_vectors"@) + seq![':'];
    let inner = seq![("default"@, vector_json(d))];
    lemma_open_object_push(contents, f, key, "_vectors"@, json_object(inner));
    lemma_closing(contents, key, json_string("default"@), vector_json(d));
    assert(json_members(inner) == json_string("default"@) + seq![':'] + vector_json(d));
}

/// A document is written as a JSON object with its own fields under their names.
pub proof fn law_written_document_holds_its_fields(document: IndexedDocument, json: String)
    requires
        call_ensures(document_json, (&document,), json),
    ensures
        json@ == json_object(
            seq![
                ("id"@, json_string(document.id@)),
                ("path"@, json_string(document.path@)),
                ("file_name"@, json_string(document.file_name@)),
                (
                    "extension"@,
                    if document.extension is Some {
                        json_string(document.extension->Some_0@)
                    } else {
                        "null"@
                    },
                ),
                ("contents"@, json_string(document.contents@)),
                (
                    "_vectors"@,
                    json_object(
                        seq![
                            (
                                "default"@,
                                if document.vectors.vector is Some {
                                    document.vectors.vector->Some_0@
                                } else {
                                    "null"@
                                },
                            ),
                        ],
                    ),
                ),
            ],
        ),
{
    law_document_is_written_under_its_names(document@);
}

/// The same path always has the same id, and two paths whose bytes do not collide have two.
pub proof fn law_id_is_that_of_the_whole_path(a: &str, b: &str, first: String, second: String)
    requires
        call_ensures(document_id_for_path, (a,), first),
        call_ensures(document_id_for_path, (b,), second),
    ensures
        a@ == b@ ==> first@ == second@,
        first@ == blake3_hex(encode_utf8(a@)),
        blake3_hex(encode_utf8(a@)) != blake3_hex(encode_utf8(b@)) ==> first@ != second@,
{
}

/// The vectors of a document are the one given, or none.
pub proof fn law_vectors_hold_the_vector_given(
    vector: String,
    given: Option<String>,
    embedded: IndexedVectors,
    empty: IndexedVectors,
    made: IndexedVectors,
)
    requires
        call_ensures(embedded_document_vectors, (vector,), embedded),
        call_ensures(empty_document_vectors, (), empty),
        call_ensures(indexed_vectors, (given,), made),
    ensures
        embedded.vector == Some(vector),
        empty.vector is None,
        made.vector == given,
{
}

} // verus!
