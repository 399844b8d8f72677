# Stryvo

A reverse proxy whose decisions are proved: what a configuration text means, which filters a proxy
gets, how headers change on their way, when a response is stored, found, evicted or deleted, how it
is compressed, and what the log says.

- `src/` is the library, written in Verus. Every function states what it returns; proof functions
  whose names start with `law_` state what holds of several functions together.
  - `config` reads the Nginx-like configuration format (`grammar` says what a text means, `nginx`
    reads it) and lays the command line over it.
  - `proxy` holds the stages of requests and responses: `headers`, `modifiers`, `compression`,
    `pipeline`, `context`, `service`, and `cache` with what it keeps in memory and on disk.
  - `logging`, `clock`, `path`, `number`, `text` and `text_map` are what these rest on.
- `tests/` runs the library with the crates it calls.
- `app/` is the program around the library: the command line, files, clocks, log output and the
  connection to pingora.

The library calls `regex`, `bytes`, `http`, `pingora-http`, `flate2`, `brotli`, `zstd` and
`crc32fast` through a few functions marked `external_body`, each with a contract that says what it
relies on.
