# kfm_na

The logic core of an Android terminal app with an AI presence layer,
written in Verus. The functions in `src/` carry contracts that Verus
proves, except a small set of trusted wrappers — functions marked
`#[verifier::external_body]` that make one call into std, serde_json or the
zip crate; their contracts are believed, not proved, and each one's doc
comment says what it claims of the call. `app/` is the platform shell that
does the I/O.

## Layout

- `src/` — the verified library
  - `http1` — HTTP/1.1 request serialization and sans-IO response reading
    (head assembly, chunked / length / until-close body framing)
  - `brain`, `direct_brain`, `brain_ep`, `ai_chat` — SSE framing, upstream
    chunk translation, run accumulation, the chat request, replay decisions
  - `json`, `text` — the JSON value model and character/byte helpers
  - `gate` — debug channels: flight-recorder encoding, statistics, alert
    rules, the session pump, injected command scripts
  - `ctrl_feed`, `conn`, `session`, `ime_queue`, `effect`, `endpoint` —
    terminal control feed, outbound command holding, IME queue, effect
    stack, the endpoint registry
  - `input_bar`, `ai_presence`, `glyph_atlas`, `gles` — input bar editing
    state, panel stack, glyph atlas packing, the animation frame-timing book
  - `crash`, `install`, `bootstrap`, `fs_fetch` — crash lines, update
    staging names, the environment bootstrap plan read from its archive,
    file-tree fetch plans and preview texts
- `app/` — sockets, TLS, files, threads, signal handlers and float touch
  geometry around the library
- `tests/` — tests of the library's public functions

Laws that relate several functions are public proof functions named
`lemma_*` next to the functions they are about.
