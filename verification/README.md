# parachuter

Reliable, rate-limited file downlink over lossy unidirectional UDP links, with its logic verified
by [Verus](https://github.com/verus-lang/verus).

A sender cuts files into CRC-protected datagrams and ships them over a named link. A receiver puts
the chunks together on disk, whatever order they arrive in, and a cleaner asks the sender for
exactly what is missing. Every daemon can be retuned over a control socket while it runs.

## Layout

- `src/` is the verified library. It holds everything that decides or computes something, but for
  the floating-point rate limiter. What it needs from its surroundings (file contents, ledger rows,
  the time) is handed in as plain values, and what it wants done (disk steps, datagrams, requests)
  is handed back.
  - `proto`, `wire`, `checksum`: the datagram format.
  - `chunker`, `reassembler`: files to packets and back. `reassembler::laws` states what
    reassembly guarantees: crash safety at every step, and that the delivered file is the file
    that was sent. `reassembler::delivery` follows a file to its final place.
  - `sender`: the queue, the runtime state, the directory scan and the control requests.
  - `cleaner`: the dedup table, what is left to ask for, and one pass of requests.
  - `receiver`, `monitor`, `ctl`, `control`: status reports, the display, the CLI and its messages.
  - `config`, `ledger`, `names`, `paths`, `text`, `error`: what the others share.
- `app/` is the `parachuter` program: sockets, files, SQLite, TOML and JSON, signals, and the
  floating-point rate limiter.
- `tests/` runs the library on concrete values.

Public proof functions named `law_...` state properties that relate several functions.

## What is trusted

`crc32fast::hash`, `String::push`, `String::from_utf8_lossy` and chrono's RFC 3339 conversions carry
contracts that are taken on trust; each says in its doc comment what it claims.
