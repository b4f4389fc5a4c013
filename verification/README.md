# narou_bridge

A verified library, and a program around it, that turns Pixiv works and
Narou PDFs into one work model, keeps them in SQLite and serves them as HTML
pages and a reader API.

- `src/` is the library, written in Verus. Every function there carries a
  contract that Verus proves: the work documents and records built from
  Pixiv's answers, the listing queries, the pages, the settings, the task
  requests, the chapter ranges of imported PDFs, the image tables, and the
  laws that hold across them (orders, hashes, round trips).
- `app/` is the program: the HTTP server, the SQLite store, the HTTP client
  for Pixiv, the worker that runs queued tasks, the PDF layout reader and
  the ZIP and legacy-tree importers (`migrate [legacy-root]`). It does the
  I/O and the floating-point layout geometry, and asks the library for
  every decision.
- `tests/` runs the library on concrete inputs.

Calls into other crates (regex, sha2, chrono, uuid, serde_urlencoded) go
through small trusted functions whose contracts say what those crates
document; everything built on them is proved.
