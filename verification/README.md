# searchx

A desktop search index: it scans the files below a root, indexes their names and contents, embeds
them, and keeps a manifest so that the next run touches only what has changed.

- `src/` is the library, verified with Verus. It decides and computes: what becomes of each file
  of a scan, which documents go into the index and which come out of it, how the manifest is
  stored, loaded and resumed after an unfinished run, and how changes are gathered into batches.
- `tests/` are its tests.
- `app/` is the program around it: the walk over the files, the SQLite tables, the search index,
  the embedding models, the threads and the command line.

Where the program must act between two decisions, the library holds a small state machine
(`ManifestLoader`, `ScanContext`, `ScanStream`, `EmbeddingFlush`): the program performs what the
machine asks for and hands the outcome back.
