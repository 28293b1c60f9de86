# zpass

The core of a local password manager, written in Verus and verified.

The vault (master key, entries, tags and their links, categories,
templates and their fields, settings, OTP entries) is modelled as tables in
`db::DbState`, with the rules the storage keeps (ids and unique names occur
once, a usable master salt) as `DbState::wf`. Every command of the
application is a function over the application state (`state::AppState`:
the vault, the key held while unlocked, the time of the last activity) whose
contract says what it answers and how the tables change. Where a command
reads the clock, draws random bytes or makes a fresh id, its contract says
what holds whatever comes back, and a function beside it (`*_at`, such as
`AppState::touch_at` or `auth::unlock_at`) takes the reading as an argument
and states exactly what is done with it. Entry fields are
encrypted with AES-256-GCM under a key derived from the master password by
Argon2id; the crates that do this work are called behind small trusted
wrappers whose contracts are stated in `crypto`.

Layout:

- `src/` — the verified library: text helpers and orderings (`text`,
  `table`), encodings and encryption (`hexcodec` for salts, `base64` for
  records, `crypto`), the records (`models`), the
  vault and its seeding (`db`), the state and the automatic lock (`state`),
  and one module per group of commands (`auth`, `tags`, `entries`,
  `categories`, `templates`, `settings`, `stats`, `otp`, `export`, `qr`).
- `tests/` — scenarios and checks of the laws on concrete values.
- `app/` — the unverified shell: SQLite storage, the JSON forms of entry
  fields and export files, file access and the lock timer thread.
