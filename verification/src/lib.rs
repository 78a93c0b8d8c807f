//! Verified core of a desktop search index: what to scan, what to index, what to keep.
//!
//! The library decides and computes; the file system, the database, the index and the embedder
//! are driven by a program around it, which hands plain values in and carries the decisions out.

pub mod api;
pub mod batch;
pub mod constants;
pub mod document;
pub mod embedding;
pub mod embedding_laws;
pub mod error;
pub mod json;
pub mod load;
pub mod manifest;
pub mod paths;
pub mod report;
pub mod run;
pub mod run_index;
pub mod scan;
pub mod scan_laws;
pub mod search;
pub mod store;
pub mod stream;
pub mod sync;
pub mod text;
pub mod text_map;

pub use api::{
    default_ignore_rules, DataPaths, ManifestLoad, OptionalCell, ScanError, ScanErrorKind,
    ScanHook, ScanOptions, SyncIndexResult, SyncProgress, SyncRequest, SyncStats,
};
pub use constants::{
    DEFAULT_DATA_DIR_NAME, DEFAULT_MAX_FILE_BYTES, VECTOR_DIMENSIONS, VECTOR_EMBEDDER_NAME,
};
pub use error::{SearchxError, SearchxResult};
pub use manifest::Manifest;
pub use search::{SearchHit, SearchResults};
pub use store::{commit_working_manifest, data_paths, discard_working_manifest};
