# zroutery_core

The core of a local proxy for language models: clients speak the Anthropic or the
OpenAI dialect, and each request goes to one of the configured providers, whatever
dialect that provider speaks. The library decides; it is verified with Verus. The
proxy around it listens, sends and waits.

## Layout

- `src/` is the library. Every item of it is verified.
  - `json`, `text`, `table`, `views`, `sorting`, `draw`: documents, text and lists
  - `ir`, `error`, `config`: the canonical request, answer and event, the errors, the
    configuration
  - `protocol/`: the dialects (Anthropic, OpenAI, Responses, Gemini), server-sent
    events and the bridge for reasoning between dialects; `protocol/round_trips/`
    holds the laws on what comes back of a request, an answer or a stream that was
    written and read again, `protocol/stream_laws/` those on every stream of frames
  - `query`, `registry`, `election`, `circuit_breaker`, `router`, `session`: which
    models may answer, in what order
  - `rectifier/`: how a refused body is mended
  - `upstream`, `headers`: URLs, headers, bodies and answers of providers
  - `stats`, `stats_ext`: counters and the request log
  - `server/`: what the endpoints answer, the pipeline that walks a plan, and
    `server/trial`, the steps of one attempt in it
- `app/` is the proxy: HTTP, clocks, locks and amounts of money.
- `tests/` runs the library against the real outside crates.

Locks and clocks stay outside: a store is changed through `&mut self`, and the
time, like a random draw, is an argument.

Laws that relate several functions are public proof functions beside them, such as
`router::ordering_keeps_the_pool`, `session::modes_only_rise` or
`protocol::round_trips::anthropic::anthropic_requests_come_back`.
