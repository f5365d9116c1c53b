# Mirrorlane

Mirrorlane turns a team's messages into derived context: each message is projected
to an intent, topics and entities; from the projections of a session come a scope, a
warm-up document, a skill index, routing hints and developer snapshots; and a router
decides where each message goes. Everything is derived anew from an append-only log,
so that replaying the log gives the same result.

`src/` is the library, verified with Verus:

- `runtime` — versioned steps and the memoizing cache around them
- `model` — messages, projections and what is derived from them, the log, the stores
  and the ports
- `provider` — the deterministic providers behind the ports
- `llm` — prompts, requests and version tags of language-model projectors
- `github` — items, drafts and the REST source
- `worker` — jobs, replay, strategies, routing and the derived-output cache
- `cli` — settings, broker plans and commands
- `storage` — schema migrations
- `double`, `numeral`, `text`, `ordered` — doubles by their bits, digits, texts and
  ordered lists
- `laws` — what holds of the library as a whole

`tests/` runs the library on concrete values. `app/` is the command line around it:
argument and configuration parsing, SQLite, HTTP and the worklane queue.
