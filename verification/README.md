# muserv

A personal music library server. `src/` is the core, with its contracts
and proofs; `app/` is the program around it: command line, configuration file,
SQLite access, directory walking, tag reading and the HTTP API.

Modules of the library:

- `text`: Unicode white space, trimming, word splitting, ASCII case folding,
  decimal numbers (parsing and rendering), with their laws.
- `config`: the configuration, its normalization (legacy library path, unique
  non-empty names) and the default configuration path.
- `auth`: bearer-token access to the API.
- `libraries`: library rows, lookup by id, choosing libraries to scan.
- `scanner`: which files a scan imports, the running counts of a scan, the
  import decision for a file, the rows removed after a scan, the summary.
- `metadata`: what is kept of a file's tags and audio properties.
- `search`, `tracks`, `tags`: query parsing and SQL planning, paging, checks on
  user tags.
- `scans`: the per-library state of background scans.
- `stream`: the `Range` header and the answer to a stream request.
- `error`: errors answered to API clients.
