# filedock

A remote file manager (web UI, REST API and WebDAV over one data directory)
whose core is verified with Verus.

- `src/` is the verified library: request-path resolution inside the data
  directory (`local.rs`, over the path model in `paths.rs`), name-pattern
  matching, listing order and stable sorting (`order.rs`), pagination and
  batch tallies (`api.rs`), the WebDAV property records, statuses and helpers
  (`webdav.rs`), error texts and HTTP answers (`error.rs`), configuration,
  static-asset answers, and the text helpers they share. Calls into
  `chrono`, `mime_guess` and `uuid` stand behind small trusted wrappers whose
  contracts are documented where they are declared.
- `tests/` runs the library on concrete values.
- `app/` is the server around it: command line, disk I/O, the HTTP routes of
  the API and of WebDAV, JSON and XML encodings, and the embedded web UI.
