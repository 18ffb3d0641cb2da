# review_engine

The configuration, health and statistics core of a code-review service's
web API, written in Verus. The library's functions in `src/` are verified
by Verus against their contracts; the exceptions are the small wrappers
around outside crates and std (hashing, hex, base64, AES-GCM, UUIDs, URL
parsing, the clock, string building), marked `external_body`, whose
contracts are trusted rather than proved.

- `src/config/` — the UI projection of the configuration, the partial
  update behind `PUT /config` (masked secrets keep, blank keeps, a real
  value replaces; the git platform set with its secret-keep identity),
  what is persisted and how it is replayed at startup, secrets at rest,
  and the connection-test helpers.
- `src/llm.rs`, `src/llm_health.rs`, `src/llm_latency.rs`,
  `src/llm_probe.rs` — the provider cards, their chain order, the probe
  cache with its single-flight gate, the latency and probe statistics and
  the outage log.
- `src/git_health.rs`, `src/dashboard.rs`, `src/callback.rs`,
  `src/feedback.rs`, `src/catalog.rs` — platform health rows, dashboard
  windows and KPIs, the webhook address policy, feedback validation and
  the catalog cache decision.
- `src/json.rs`, `src/keyed.rs`, `src/text.rs`, `src/digest.rs`,
  `src/secrets.rs` — the JSON merge, a keyed table with distinct keys,
  string helpers, hashing and AES-GCM sealing behind trusted wrappers.
- `app/` — the HTTP handlers, serde shapes, file and key storage, DNS and
  HTTP calls around the library.
- `tests/` — tests of the library on concrete values.
