# smellytype

Push-to-talk dictation with Doubao cloud speech recognition, typed into the
focused application through `dotool`.

- `src/` is the verified library (Verus):
  - `dotool` — the dotool command script, invocation choice, layout
    variables and failure reports; text with control characters is refused,
    and an accepted script reads back as exactly its command lines.
  - `protocol` — the Doubao ASR 2.0 binary frames: request encoding, PCM,
    big-endian fields and response decoding, with gzip and JSON behind
    named trusted wrappers.
  - `session` — the streaming session as a state machine from events to
    steps: audio framing without loss or duplication, previews, the single
    final commit after end-of-audio, the deadline and error reports.
  - `request` — the opening JSON request: the personal vocabulary (within
    its limits) and the semantic-smoothing switch.
  - `transcriber`, `config` — configuration validation, the handshake
    headers, redacted debug rendering, and how a one-shot transcription
    settles.
  - `usage`, `resample`, `text`, `error` — usage bookkeeping, rate checks,
    decimal rendering and character classes, error types.
- `app/` is the program around it: WebSocket and process I/O, timers,
  files, floating-point audio conversion and the command line.
- `tests/` exercises the library on concrete values.
