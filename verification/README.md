# headless_orchestrator

The verified core of a multi-tenant wallet-headless orchestrator: one
Docker container per session, every wallet call proxied to the caller's own
container, idle containers reaped.

- `src/state.rs` — instances, the session registry (a map from session id
  to instance), authorization, listing and idle reaping, the settings.
- `src/docker.rs` — container names and configuration, the readiness
  probe, spawn failure messages.
- `src/proxy.rs` — authorizing callers and planning upstream requests.
- `src/routes.rs` — the decisions of the HTTP endpoints.
- `src/text.rs`, `src/token.rs` — decimal text, ASCII case folding, query
  strings; random session tokens.
- `src/laws.rs` — properties across operations, as proof functions.
- `app/` — the server: HTTP routing, Docker and HTTP calls, the clock, the
  reaper loop.
