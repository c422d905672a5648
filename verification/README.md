# ds_free_api

A proxy that answers OpenAI and Anthropic compatible requests through accounts of
the DeepSeek web chat.

`src/` is the verified library: requests become prompts, prompts become steps of a
conversation with the back end, the answer's events become chunks or a whole
answer, and accounts, summaries, tokens of the administrator and counts are kept.
It neither waits nor sends: where something has to happen outside, it says what to
do next and is told how it went.

- `config` — settings, their checks, and what the environment overrides
- `openai_adapter` — requests, prompts, models, answers, and summaries of long
  conversations
- `anthropic_compat` — types and events of the Anthropic compatible side
- `ds_core` — accounts, logins, attempts at conversations, open sessions
- `server` — errors, heads of event streams, administrator, counts, log
- `text`, `json`, `encoding`, `clock`, `table`, `copies` — what the others rest on

What holds of the library as a whole stands as public proof functions whose names
begin with `law_`. The functions of outside crates that it relies on are wrapped in
functions marked `external_body`; the comment above each says what is taken for
granted.

`app/` is ordinary Rust around the library: files, the network, timers and tasks.
