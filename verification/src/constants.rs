//! Names and limits.

use vstd::prelude::*;

verus! {

/// Version of the stored manifest layout.
pub const MANIFEST_VERSION: u32 = 2;

pub const MANIFEST_FILE_NAME: &'static str = "manifest.sqlite3";

pub const INCOMPLETE_FILE_NAME: &'static str = "indexing-incomplete";

/// Directory of the index below the data directory.
pub const INDEX_DIR_NAME: &'static str = "index";

/// File whose presence shows that the index directory holds an index.
pub const INDEX_DATA_FILE_NAME: &'static str = "data.mdb";

/// What the marker of an unfinished run holds.
pub const INCOMPLETE_MARKER_TEXT: &'static str = "incomplete\n";

/// Address space reserved for the index, in bytes.
pub const DEFAULT_MAP_SIZE_BYTES: u64 = 10_737_418_240;

pub const PRIMARY_KEY: &'static str = "id";

pub const DEFAULT_DATA_DIR_NAME: &'static str = ".searchx-data";

pub const DEFAULT_MAX_FILE_BYTES: u64 = 52_428_800;

pub const VECTOR_EMBEDDER_NAME: &'static str = "default";

pub const VECTOR_DIMENSIONS: usize = 1536;

/// How long a receiver waits before it looks at the other channels, in milliseconds.
pub const PROGRESS_POLL_MILLIS: u64 = 250;

pub const INDEX_EVENT_CHANNEL_CAPACITY: usize = 32;

pub const EMBEDDING_JOB_CHANNEL_CAPACITY: usize = 32;

pub const INDEX_BATCH_DOC_LIMIT: usize = 128;

pub const INDEX_BATCH_DELETE_LIMIT: usize = 512;

pub const INDEX_BATCH_BYTE_LIMIT: usize = 8_388_608;

pub const MANIFEST_BATCH_ENTRY_LIMIT: usize = 512;

pub const EMBEDDING_BATCH_DOC_LIMIT: usize = 32;

} // verus!
