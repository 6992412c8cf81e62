# apt-lists

A small, read-only, repository-aware companion to `apt list`: which installed
package versions are currently provided by a specific APT repository,
according to the local APT cache.

The library under `src/` is written in Verus and verified:

* `repository` — package-index metadata, grouping by normalized base URI,
  the catalog and `--repo` selector resolution;
* `apt` — the in-memory scan built from the records of one pass over the
  cache, and the per-suite package counts;
* `query` — installed / all / package queries with exact-version repository
  filtering;
* `output` — the human tables and the JSON documents;
* `cli` and `report` — the options, the mode they select and what one
  invocation produces;
* `laws` — properties that span several operations;
* `text` — character-level string helpers.

`app/` is the binary: argument parsing (`clap`), completion scripts
(`clap_complete`), reading the cache through `oma-apt`, JSON serialization
(`serde_json`) and writing to the terminal.
