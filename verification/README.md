# cofresenhas_rs

A password vault, verified with Verus: a local single-user vault (CLI) and a
multi-user web API that share the same cryptography.

- `src/` is the verified library:
  - `crypto/`: Argon2 hashing and key derivation, ChaCha20-Poly1305 sealing
    of single passwords;
  - `storage/`, `vault.rs`: the storage trait of the local vault, an
    in-memory backend, and the vault (initialize, unlock, add, get, list,
    update, remove);
  - `server/`: tokens and TOTP, the API's errors, its bodies, and the
    decisions of each endpoint (login, two-factor, paging, CSV export,
    duplicate detection on import, the password generator and its strength
    score);
  - `text.rs`: character and decimal helpers.
- `app/` is the program around it: the SQLite backend, the command line, the
  axum server with its routes, database access, JSON and tokens.
- `tests/` runs the library on concrete values.
