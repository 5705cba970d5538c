# vibesurfer

The protocol, engine-side decoding and store logic of vibesurfer, a
browser daemon with a line-oriented wire for LLM callers, written in
Verus: every function of the library carries a contract that Verus
proves.

## Layout

- `src/` — the verified library.
  - `codes`, `tokenize`, `attrs`, `tree`, `tree_laws`: role and op codes,
    the tokenizer, attribute maps, the a11y tree with its wire encoding
    and parser, and the round trip of that encoding.
  - `delta`: tree deltas — encoding, parsing, applying, diffing — with
    their laws: the wire round trip, a diff of a tree against itself is
    empty, and applying `diff(a, b)` to `a` gives `b`.
  - `envelope`, `request`, `error`, `num`, `text`: response envelopes,
    requests, parse errors, decimal and text helpers.
  - `engine`, `inspector`: engine-facing types, the bounded ring buffer
    of inspector captures.
  - `backend`: decoding of the inspector capture channels into bounded
    stores, the auth-blob schema, the scripts the engine runs (act,
    wait, evaluation, storage, scripts, DOM detail) and the decoding of
    their answers, snapshot decoding, the download step function, the
    cookie-change diff, and input helpers.
  - `humanize`: the seeded random generator and careful typing.
  - `store`: the store's types and errors, the master key and AES-GCM
    sealing of auth blobs, and the clock.
- `tests/`: tests of the library.
- `app/`: what stays outside the verified library: the floating-point
  samplers of human-like input, serde and thiserror forms of library
  types, the engine trait, the JSON reading of DOM snapshots,
  key-file I/O, and the host loop that drives a download.

Outside crates: `serde_json` (JSON reading and string literals), `ring`
(random bytes and AES-256-GCM), `base64` (download chunks), `rusqlite` (the store's error type),
`serde` and `thiserror` (in `app/`).
