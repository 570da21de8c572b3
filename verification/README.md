# codex_core

Streaming providers for two chat APIs: the Anthropic Messages API, and Nemotron on vLLM's Chat
Completions API. The library turns a conversation into a request, and the events of the answer
into events of the agent. It is verified with Verus.

## Layout

- `src/` is the verified library. It does no I/O.
  - `models`, `anthropic_types`, `nemotron_types`, `json`, `error`: the data.
  - `anthropic`, `nemotron`, `conversation`, `tools`: from a prompt to a request, with the choice
    of the model and the flattening of tool schemas.
  - `anthropic_stream`, `nemotron_stream`, `think`, `sent`: from the events of a response to the
    events of the agent, with the extraction of `<think>` blocks.
  - `retry`: when a request is sent again.
  - `text`: strings as sequences of characters.
  - The modules whose names end in `laws`, and the functions whose names begin with `law_`, state
    what holds across functions and over whole streams.
- `tests/` runs the library on concrete values.
- `app/` holds what is not verified: HTTP, server-sent events, timers, environment variables and
  serialisation.

## What is trusted

Reading a text as JSON is left to `serde_json`. The wrappers in `src/json.rs` name its results;
nothing else in the library rests on code that is not verified.
