# open_proxy_ai

The core of a local proxy that serves a pool of chat models behind
OpenAI-style endpoints, verified with Verus.

- `src/` is the verified library:
  - `json` — JSON values as plain data, with lookups and field assignment;
  - `model_pool` — the model pool (upsert, removal with remembered deleted
    built-ins, toggling, priorities, built-in refresh and renames, routing
    order), with its laws in `pool_laws`;
  - `log` — the bounded in-memory log;
  - `responses` — Responses API ⇄ Chat Completions conversion and the
    streaming event converter;
  - `zen` — the upstream client, request bodies, headers, error replies and
    per-user sessions;
  - `server` — routing decisions, the bodies of the proxy's own replies
    and the speed test's request, error text, reply figures and outcome;
  - `clock` — trusted wrappers around the clock and the random source;
  - `text`, `seqs` — string renderings and search facts.
- `app/` holds the runtime: axum endpoints, HTTP calls, file storage of the
  pool and the JSON conversions to and from `serde_json`.
  The tokens-per-second rate of the speed test is a float and is computed
  there.
- `tests/` exercises the library on concrete values.

The Anthropic `/v1/messages` endpoint is not served: its handler and its
stream converter are not part of this code base. The health reply still
lists it among the endpoints, as the proxy it describes does.
