use searchx::api::{OptionalCell, ScanHook, ScanOptions, SyncRequest, SyncStats};
use searchx::constants::{DEFAULT_MAP_SIZE_BYTES, INCOMPLETE_MARKER_TEXT, PROGRESS_POLL_MILLIS};
use searchx::document::{
    document_id_for_path, document_json, empty_document_vectors, indexed_vectors, IndexedDocument,
};
use searchx::json::text_member;
use searchx::report::{results_lines, summary_lines, SummaryWording};
use searchx::search::{
    build_search_results, index_not_found, index_settings, query_text, vector_search_embedder,
    FoundDocument,
};
use searchx::text::{
    append_decimal, append_signed_decimal, chars_of, eq_ignore_ascii_case, join_lines,
    replace_char, text_eq, text_order, trim, TextOrder,
};
use searchx::text_map::TextMap;
use searchx::{
    default_ignore_rules, SearchResults, SearchxError, DEFAULT_DATA_DIR_NAME,
    DEFAULT_MAX_FILE_BYTES, VECTOR_DIMENSIONS,
};
use serde_json::Value;
use std::path::{Path, PathBuf};

#[test]
fn the_default_rules() {
    let rules = default_ignore_rules();
    assert_eq!(rules.len(), 15);
    assert_eq!(rules[0], ".git/");
    assert_eq!(rules[14], ".ruff_cache/");
}

#[test]
fn requests_are_built_up() {
    let request = SyncRequest::new(PathBuf::from("/data/root"));
    assert_eq!(request.root, PathBuf::from("/data/root"));
    assert_eq!(request.data_dir, PathBuf::from(DEFAULT_DATA_DIR_NAME));
    assert!(!request.options.rebuild);
    assert_eq!(request.options.max_file_bytes, DEFAULT_MAX_FILE_BYTES);
    assert_eq!(request.options.ignore_rules, default_ignore_rules());

    let options = ScanOptions { rebuild: true, max_file_bytes: 8, ignore_rules: Vec::new() };
    let request = request.with_data_dir(PathBuf::from("/elsewhere")).with_options(options.clone());
    assert_eq!(request.data_dir, PathBuf::from("/elsewhere"));
    assert!(request.options.rebuild);
    assert_eq!(request.options.max_file_bytes, 8);
    assert!(request.options.ignore_rules.is_empty());
    assert_eq!(request.clone().root, PathBuf::from("/data/root"));
    assert_eq!(ScanOptions::default().max_file_bytes, 50 * 1024 * 1024);
}

#[test]
fn cells_and_hooks_hold_what_was_set_last() {
    let mut cell: OptionalCell<u32> = OptionalCell::new();
    assert_eq!(cell.get(), None);
    cell.set(3);
    cell.set(4);
    assert_eq!(cell.get(), Some(4));
    cell.clear();
    assert_eq!(cell.get(), None);

    let mut hook = ScanHook::new();
    assert_eq!(hook.current_file(), None);
    hook.set_current_file("a.txt".to_string());
    assert_eq!(hook.current_file(), Some("a.txt".to_string()));
    hook.clear_current_file();
    assert_eq!(hook.current_file(), None);
}

#[test]
fn constants() {
    assert_eq!(DEFAULT_MAP_SIZE_BYTES, 10 * 1024 * 1024 * 1024);
    assert_eq!(INCOMPLETE_MARKER_TEXT, "incomplete\n");
    assert_eq!(PROGRESS_POLL_MILLIS, 250);
}

#[test]
fn errors_are_written_out() {
    let io = SearchxError::Io { message: "denied".to_string() };
    assert_eq!(io.to_text(), "denied");
    let reason = SearchxError::IndexedEntryWithSkipReason { reason: "binary".to_string() };
    assert_eq!(reason.to_text(), "indexed entry cannot have skip reason binary");
    assert_eq!(SearchxError::StripPrefix.to_text(), "prefix not found");
    assert_eq!(SearchxError::ScanCanceled.to_text(), "scan canceled");
    assert_eq!(SearchxError::IndexingCanceled.to_text(), "indexing canceled");
}

#[test]
fn outside_errors_are_written_as_std_writes_them() {
    let conversion = u32::try_from(-1i64).unwrap_err();
    assert_eq!(SearchxError::IntegerConversion.to_text(), conversion.to_string());
    let prefix = Path::new("/a").strip_prefix("/b").unwrap_err();
    assert_eq!(SearchxError::StripPrefix.to_text(), prefix.to_string());
}

#[test]
fn numbers_are_written_in_decimal() {
    let mut text = "n=".to_string();
    append_decimal(&mut text, 0);
    append_decimal(&mut text, u64::MAX);
    assert_eq!(text, "n=018446744073709551615");
    let mut text = String::new();
    append_signed_decimal(&mut text, i64::MIN);
    append_signed_decimal(&mut text, 10);
    assert_eq!(text, "-922337203685477580810");
}

#[test]
fn texts_are_compared_by_their_bytes() {
    assert_eq!(text_order("a", "b"), TextOrder::Less);
    assert_eq!(text_order("b", "a"), TextOrder::Greater);
    assert_eq!(text_order("a", "ab"), TextOrder::Less);
    assert_eq!(text_order("ab", "a"), TextOrder::Greater);
    assert_eq!(text_order("\u{fc}", "\u{fc}"), TextOrder::Same);
    assert_eq!(text_order("Z", "a"), TextOrder::Less);
    assert!(text_eq("", ""));
    assert!(!text_eq("a", "A"));
    assert!(eq_ignore_ascii_case("PdF", "pdf"));
    assert!(!eq_ignore_ascii_case("\u{dc}", "\u{fc}"));
    assert!(!eq_ignore_ascii_case("pdf", "pdfs"));
    assert_eq!(chars_of("a\u{fc}"), vec!['a', '\u{fc}']);
    assert_eq!(replace_char("a\\b\\c", '\\', '/'), "a/b/c");
    assert_eq!(join_lines(&vec!["a".to_string(), String::new()]), "a\n\n");
}

#[test]
fn a_text_map_keeps_its_keys_in_order() {
    let mut map: TextMap<u32> = TextMap::new();
    assert!(map.is_empty());
    assert_eq!(map.insert("b".to_string(), 1), None);
    assert_eq!(map.insert("a".to_string(), 2), None);
    assert_eq!(map.insert("b".to_string(), 3), Some(1));
    assert_eq!(map.keys(), vec!["a".to_string(), "b".to_string()]);
    assert_eq!(map.get("b"), Some(&3));
    assert_eq!(*map.value_at(0), 2);
    let mut other: TextMap<u32> = TextMap::new();
    other.insert("c".to_string(), 5);
    other.insert("a".to_string(), 6);
    map.extend(other);
    assert_eq!(map.len(), 3);
    assert_eq!(map.get("a"), Some(&6));
    assert_eq!(map.remove("a"), Some(6));
    assert_eq!(map.remove("a"), None);
    assert!(!map.contains_key("a"));
    map.clear();
    assert_eq!(map.len(), 0);
}

#[test]
fn ids_are_hashes_of_paths() {
    assert_eq!(
        document_id_for_path(""),
        "af1349b9f5f9a1a6a0404dea36dcc9499bcb25c9adc112b7cc9a93cae41f3262"
    );
    let id = document_id_for_path("a/b.txt");
    assert_eq!(id, blake3::hash(b"a/b.txt").to_hex().to_string());
    assert_eq!(id.len(), 64);
    assert_ne!(id, document_id_for_path("a/c.txt"));
}

fn document(contents: &str) -> IndexedDocument {
    IndexedDocument {
        id: "1".to_string(),
        path: "a\"b\\c".to_string(),
        file_name: "n\u{fc}".to_string(),
        extension: None,
        contents: contents.to_string(),
        vectors: empty_document_vectors(),
    }
}

#[test]
fn documents_are_written_as_json() {
    assert_eq!(
        document_json(&document("x\ny")),
        "{\"id\":\"1\",\"path\":\"a\\\"b\\\\c\",\"file_name\":\"n\u{fc}\",\"extension\":null,\
         \"contents\":\"x\\ny\",\"_vectors\":{\"default\":null}}"
    );
    let mut embedded = document("");
    embedded.extension = Some("txt".to_string());
    embedded.vectors = indexed_vectors(Some("[0.5,1]".to_string()));
    let value: Value = serde_json::from_str(&document_json(&embedded)).unwrap();
    assert_eq!(value["extension"], "txt");
    assert_eq!(value["_vectors"]["default"][1], 1);
}

#[test]
fn json_of_a_document_is_one_line_and_reads_back() {
    let mut contents = String::new();
    for code in 0u32..0x300 {
        contents.push(char::from_u32(code).unwrap());
    }
    let json = document_json(&document(&contents));
    assert!(!json.contains('\n'));
    let value: Value = serde_json::from_str(&json).unwrap();
    assert_eq!(value["contents"], contents);
    assert_eq!(value["path"], "a\"b\\c");
}

#[test]
fn the_settings_of_an_index() {
    let settings = index_settings();
    assert_eq!(settings.primary_key, "id");
    assert_eq!(settings.searchable_fields, vec!["file_name", "path", "contents", "extension"]);
    assert_eq!(settings.embedder, "default");
    assert_eq!(settings.dimensions, VECTOR_DIMENSIONS);
}

#[test]
fn the_embedder_is_found_by_its_name() {
    let names = vec!["other".to_string(), "default".to_string(), "default".to_string()];
    assert_eq!(vector_search_embedder(&names).unwrap(), 1);
    assert_eq!(
        vector_search_embedder(&vec!["other".to_string()]).unwrap_err().to_text(),
        "embedding failed: vector embedder `default` is not configured"
    );
}

fn object(json: &str) -> serde_json::Map<String, Value> {
    match serde_json::from_str(json).unwrap() {
        Value::Object(object) => object,
        other => panic!("{other:?}"),
    }
}

fn results() -> SearchResults {
    build_search_results(
        "query".to_string(),
        vec![("search".to_string(), "1ms".to_string())],
        7,
        vec![
            FoundDocument {
                document: object("{\"path\":\"a.txt\",\"_vectors\":{\"own\":1,\"default\":2}}"),
                vectors: vec![("default".to_string(), Value::from(3))],
            },
            FoundDocument {
                document: object("{\"path\":4,\"_vectors\":5}"),
                vectors: Vec::new(),
            },
        ],
    )
}

#[test]
fn results_show_documents_with_their_vectors() {
    let results = results();
    assert_eq!(results.query, "query");
    assert_eq!(results.candidate_count, 7);
    assert_eq!(results.hits.len(), 2);
    assert_eq!(results.hits[0].rank, 1);
    assert_eq!(results.hits[0].path, "a.txt");
    assert_eq!(results.hits[0].document["path"], "a.txt");
    assert_eq!(results.hits[0].document["_vectors"]["own"], 1);
    assert_eq!(results.hits[0].document["_vectors"]["default"], 3);
    assert_eq!(results.hits[1].rank, 2);
    assert_eq!(results.hits[1].path, "<unknown>");
    assert_eq!(results.hits[1].document["_vectors"], Value::Object(serde_json::Map::new()));
    assert_eq!(results.hits[1].document["path"], 4);
}

#[test]
fn copied_results_are_the_same() {
    let copy = results().clone();
    assert_eq!(copy.query, "query");
    assert_eq!(copy.timings, results().timings);
    assert_eq!(copy.candidate_count, 7);
    assert_eq!(copy.hits.len(), 2);
    for (hit, other) in copy.hits.iter().zip(results().hits) {
        assert_eq!(hit.rank, other.rank);
        assert_eq!(hit.path, other.path);
        assert_eq!(hit.document, other.document);
    }
}

#[test]
fn members_that_are_texts() {
    let members = object("{\"a\":\"x\",\"b\":1}");
    assert_eq!(text_member(&members, "a"), Some("x"));
    assert_eq!(text_member(&members, "b"), None);
    assert_eq!(text_member(&members, "c"), None);
}

#[test]
fn results_are_printed() {
    assert_eq!(
        results_lines(&results(), true),
        vec![
            "Query: query",
            "Found 7 matching documents.",
            "search: 1ms",
            "1. a.txt",
            "2. <unknown>",
        ]
    );
    assert_eq!(results_lines(&results(), false).len(), 4);
}

#[test]
fn a_summary_is_printed() {
    let stats = SyncStats {
        scanned_files: 1,
        unchanged_indexed: 2,
        unchanged_skipped: 3,
        indexed_or_updated: 4,
        deleted_missing: 5,
        deleted_became_unsupported: 6,
        skipped_too_large: 7,
        skipped_binary: 8,
        read_errors: 9,
        walk_errors: 10,
    };
    let skipped = summary_lines(
        Path::new("/root"),
        Path::new("/data/index"),
        &stats,
        100,
        SummaryWording::Skipped,
    );
    assert_eq!(
        skipped,
        vec![
            "Indexed root: /root",
            "Index data: /data/index",
            "Scanned files: 1",
            "Indexed/updated documents: 4",
            "Deleted documents: 11",
            "Skipped unchanged indexed files: 2",
            "Skipped unchanged unsupported files: 3",
            "Skipped oversized files (> 100 bytes): 7",
            "Skipped binary/non-UTF8 files: 8",
            "Read errors: 9",
            "Walk errors: 10",
        ]
    );
    let named = summary_lines(
        Path::new("/root"),
        Path::new("/data/index"),
        &stats,
        100,
        SummaryWording::MetadataOnly,
    );
    assert_eq!(named[7], "Metadata-only files due to size limit (> 100 bytes): 7");
    assert_eq!(named[8], "Metadata-only binary/non-UTF8 files: 8");
}

#[test]
fn white_space_is_what_std_takes_for_it() {
    for code in 0u32..=0x10ffff {
        if let Some(c) = char::from_u32(code) {
            let text = format!("{c}x{c}");
            assert_eq!(trim(&text), text.trim());
        }
    }
}

#[test]
fn queries_are_trimmed() {
    assert_eq!(query_text("  two words\n").unwrap(), "two words");
    assert_eq!(query_text("a").unwrap(), "a");
    assert_eq!(query_text("\u{a0}a b\u{3000}").unwrap(), "a b");
    assert_eq!(query_text(" \t").unwrap_err().to_text(), "query must not be empty");
    assert_eq!(query_text("").unwrap_err().to_text(), "query must not be empty");
    assert_eq!(
        index_not_found(Path::new("/data/index/data.mdb")).to_text(),
        "index not found at /data/index/data.mdb"
    );
}
