# gemini-web2api

A bridge that serves the Gemini web interface as an OpenAI-compatible API
(`/v1/chat/completions`, `/v1/responses`, `/v1/models`) and as the Google
native API (`/v1beta/models/...:generateContent`).

The decisions of the bridge are a library verified with Verus; the server
around it is ordinary Rust.

## Layout

- `src/` — the verified library.
  - `models.rs`: the model table and model-name resolution (`@think=<n>`).
  - `config.rs`: the settings, their defaults, where the settings file is
    looked for.
  - `gemini.rs`: the StreamGenerate protocol: URL, headers, SAPISIDHASH,
    request body, reading answers (whole and streamed), the cookie cache and
    the retry state machines.
  - `multimodal.rs`: page tokens, the headers and answers of the image
    upload, and which images are uploaded.
  - `tools.rs`: prompts from OpenAI messages and Google contents, tool
    prompts, reading tool calls out of answers.
  - `server.rs`: access keys, reading requests, and every answer body and
    stream event the server sends.
  - `base64.rs`, `json.rs`, `text.rs`, `pattern.rs`, `ids.rs`: the base64
    decoder, the JSON value, text helpers, regular expressions and ids.
- `app/` — the HTTP server: command line, settings file, the calls upstream,
  and the handlers that wire requests to the library.
- `tests/` — tests of the library on concrete values.

Contracts are stated over mathematical models (`Seq`, `int`, views); the
laws of the library (`law_*` proof functions) sit beside the functions they
speak of.
