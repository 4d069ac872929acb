# altcha

ALTCHA proof-of-work (v2) in Verus: creating, signing, solving and verifying
challenges, verifying ALTCHA Sentinel server signatures and form-field hashes.

- `src/` is the verified library. `text` (UTF-8, decimal, hex, trimming,
  splitting), `json` (a JSON value type, key sorting, canonical text),
  `helpers` (hex, constant-time comparison, HMAC, SHA, the KDF password),
  `algorithms` (PBKDF2, iterated SHA, scrypt, Argon2id), `pow` (the protocol)
  and `server_signature` (Sentinel payloads). Calls into `hex`, `subtle`,
  `hmac`, `sha2`, `pbkdf2`, `scrypt`, `argon2` and `rand` go through small
  trusted wrappers whose contracts are documented beside them.
- `app/` holds the serde forms of the types (camelCase JSON), the error's
  messages, millisecond timings as `f64`, and entry points that check the
  library's preconditions before calling it.
- `tests/` exercises the library from outside.

Times are kept in whole tenths of a millisecond, and the `score` and `time`
of Sentinel data as the decimal text that was sent.
