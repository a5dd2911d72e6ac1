# login_demo

A small login service (axum, SQLite) whose decisions are verified with Verus.

- `src/` is the verified library:
  - `text`, `encoding`: strings as characters, Unicode trimming, ASCII case,
    lower-case hexadecimal, decimal formatting and `i64` parsing.
  - `auth`: lifetimes and risk limits, e-mail normalisation and validation,
    Argon2 password hashing, refresh tokens and their SHA-256 fingerprints,
    access-token claims.
  - `fields`: reading a named input from query, JSON body, headers or a
    default, in that order of priority.
  - `risk`: brute-force protection per e-mail, address and pair of both.
  - `responses`, `endpoints`: the answers and the step-by-step decisions of
    the login, refresh and current-user endpoints.
  - `startup`: default settings and the SQLite database file.
- `app/` is the server: environment, clock, database, JSON Web Token
  signing, routing and HTTP responses.
- `tests/` runs the library on concrete inputs.
