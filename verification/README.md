# clashmind

The decision logic of a desktop client for the Mihomo proxy core, written in
Verus and proved against its contracts: how connection snapshots are compared
and accounted, how traffic is spread over hourly and daily buckets, how
pending statistics are buffered, merged, written and restored, the live
connection summary and its rankings, the notification and diagnosis rules,
the assistant's tool-call parameters, configuration redaction and settings
migration, and the checks made on values before they reach the database.

## Layout

- `src/` — the verified library, one module per concern (`observation`,
  `pending`, `buffer`, `snapshot`, `realtime`, `ranking`, `window`,
  `report`, `callback`, `document`, `notification`, …). The collector's
  connection loop (`session`), the assistant process's lifecycle
  (`sidecar`) and the write-reload-rollback of a configuration change
  (`change`) are state machines: a step function takes the state and what
  happened and returns the next state and what to do, which the caller
  performs. Calls into chrono,
  serde_json, reqwest's URL type, urlencoding and dirs stand behind small
  trusted wrappers whose contracts say what those functions do.
- `tests/` — tests of the library on concrete values.
- `app/` — a command-line front end: the HTTP client of the core's API, the
  system proxy, the settings file, JSON conversion, applying a configuration
  through the `change` steps, and the node health scores, which are computed
  in floating point.
