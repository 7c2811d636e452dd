# slhs

A small HTTP/1.1 server library whose logic carries checked contracts.

- `src/` is the verified library:
  - `text.rs` — search, split and trim over characters, ASCII lowercasing, decimal notation;
  - `fields.rs` — `TextMap`, the insertion-ordered string map used for header fields and URL parameters;
  - `compression.rs` — `CompressionMethod`, its preference order and `Accept-Encoding` parsing;
  - `codec.rs` — the in-memory reader/writer `RW`, and the calls into `brotli` and `flate2`;
  - `response.rs` — `Response`, reason phrases, the status line and header block, body compression;
  - `request.rs` — reading request bytes and parsing the request line, header fields and URL parameters;
  - `router.rs` — `Router`, handler lookup by path and method, and the 404/405 answers;
  - `laws.rs` — properties of the library as a whole.
- `app/` holds the sockets, the connection loop on a `midsync` pool, the event-stream thread and the `headers!` macro.
- `tests/` exercises the library on concrete values.
