# auth

A small authentication service (register, login, refresh, logout, profile)
whose rules are verified with Verus.

- `src/` is the verified library:
  - `text.rs`: decimal rendering and parsing, Unicode whitespace trimming,
    UTF-8 lengths;
  - `errors.rs`: the error type and the HTTP status of each error kind;
  - `config.rs`: configuration defaults and the settings read from the environment;
  - `metrics.rs`: request/error counters, the error-threshold alert and the
    Prometheus text form;
  - `monitoring.rs`: the sliding-window rate limiter, the client key it is
    keyed by, and the request classifications used by the middleware;
  - `storage.rs`: the token and user tables and the service state;
  - `auth.rs`: credential rules, registration, password checks, the claims
    and lifetimes of issued tokens, login and refresh (issuing, signing and
    recording tokens), bearer-token extraction and the checks on presented
    tokens;
  - `jwt.rs`, `passwords.rs`, `ids.rs`, `clock.rs`: the calls into
    jsonwebtoken (signing and checking HS256 tokens), bcrypt, getrandom and
    uuid, chrono and the std clocks, each with the contract the library
    relies on.
- `app/` is the server: axum routing and middleware, the SQLite files that
  persist the two tables, logging and `main`. The library's tables answer
  every read; after each change the token file is made to hold the library's
  rows (and where a write fails, the library's table is read back from the
  file), and the files are loaded at start-up.
- `tests/` exercises the library.
