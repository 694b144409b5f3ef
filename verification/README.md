# watchpix

A live-reloading image gallery server for remote and headless machines: it
watches a directory tree for image files, serves a web gallery sorted by
recency, and pushes updates to browsers over a WebSocket.

## Layout

- `src/` — the verified library (Verus):
  - `path.rs` — paths as component sequences: prefixes, file names,
    extensions, text form.
  - `types.rs` — image entries and their browser-facing information, the
    supported extensions and MIME types, the live-update messages.
  - `json.rs` — JSON text: string quoting through `serde_json`, decimals,
    arrays and objects.
  - `sort.rs` — a stable merge sort of entries from newest to oldest.
  - `index.rs` — the in-memory image index and its laws.
  - `scanner.rs` — the deny list and the filtering of walked files.
  - `watcher.rs` — event debouncing, event planning and applying changes.
  - `server.rs` — the image listing body, image access decisions, content
    types and the WebSocket forwarding step.
  - `page.rs` — the gallery page.
- `app/` — the program around it: command line, directory walking, file
  watching, the HTTP server and the asynchronous plumbing.
- `tests/` — tests of the library.
