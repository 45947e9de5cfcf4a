# llama_harness

A harness around a local inference engine: a registry of models
(`models.toml`), a cache of loaded models with least-recently-used
eviction, chat messages, tool descriptors and the parsing of tool calls out
of a model's output. The library in `src/` is written in Verus: its public
functions carry `requires`/`ensures` contracts, and Verus proves the code
against them. What comes from outside the library is taken on trusted
contracts: `serde_json` in `src/json.rs`, `dirs` and the path separator in
`src/registry.rs`, the outside error types and TOML error messages in
`src/error.rs`, and `String::push` in `src/text.rs`.

## Layout

- `src/error.rs`: the error type, the engine's `KIND:message` decoding and
  the error messages.
- `src/model.rs`, `src/message.rs`, `src/ffi.rs`: model ids, load specs,
  chat messages, and the plain records handed to the engine.
- `src/registry.rs`: the model registry (lookup by name, then alias;
  sorted names; resolving an entry to a load spec).
- `src/harness.rs`: the builder and the cache of loaded models: which
  model is active, which ones a new load evicts, what `list` shows.
- `src/tool.rs`, `src/scan.rs`, `src/json.rs`: tool descriptors and their
  registry, and tool calls read out of a model's output (Llama-3 objects,
  Hermes/Qwen `<tool_call>` blocks, or one plain JSON object).
- `src/tool_attr.rs`: what the `#[tool(...)]` attribute decides about the
  function it stands on.
- `src/text.rs`: string comparison, ordering and sorting used throughout.
- `app/`: the parts that do I/O or need outside traits: reading
  `models.toml`, the async `Tool` trait, the engine interface and the
  `Harness` that drives the engine around the cache's decisions.
- `tests/`: tests of the library on concrete values.
