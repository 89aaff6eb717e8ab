# wb_switch_core

The verified core of the account switcher's VS Code CodeBuddy extension
support and profile refresh, written in Verus.

- `src/` — the library. Every function is verified except four small
  trusted wrappers around outside calls, whose contracts are assumed:
  `random_bytes` (`getrandom::fill`) and `uuid_v4_from_random`
  (`uuid::Builder::from_random_bytes`) in `ids.rs`, and
  `parse_rfc3339_millis` (chrono) and `epoch_millis` (`SystemTime::now`)
  in `time.rs`, plus the specification of `String::push` in `text.rs`.
  - `json.rs`: the JSON document model (`Json` and its value `JsonV`).
  - `text.rs`, `decimal.rs`, `paths.rs`, `ids.rs`, `time.rs`: characters,
    numerals, paths, 32-hex-digit ids, and times.
  - `copy_map.rs`: the table of session copies and its laws.
  - `vscode_ext.rs`: the extension's directories, the session document
    written into its login secret, the recognition of running VS Code
    processes, and the account switch's checks and reports.
  - `vscode_session.rs`: copying conversations between accounts: the data
    layout, the id remapping, the index merge and the reports.
  - `copy_step.rs`: the copy of one conversation as steps, with what is
    undone on failure.
  - `account_profile.rs`: refreshing stored accounts from the console.
- `tests/` — the tests, run against the compiled library.
- `app/` — the program side: file and process I/O, platform directories,
  and the conversions between `serde_json` values and the library's
  documents. Collaborators that live elsewhere in the application (the
  account store, Safe Storage access, HTTP) are reached through
  `app/services.rs`.
