# trackly_app

The rules of the Trackly inventory application (acts of handover and
return, devices, cartridges, places, users, printers, reports, backups),
written in Verus and proved against their contracts.

Layout:

- `src/` — the verified library, one module per area:
  `acts`, `auth`, `backup`, `calendar`, `cartridges`, `dashboard`,
  `devices`, `numbering`, `org`, `places`, `printer`, `query`,
  `report_sql`, `reports`, plus `text` (string and number helpers) and
  `error`. Calls into `time`, `argon2`, `base64`, `csv`, `serde_json` and
  `uuid` go through small trusted wrappers whose contracts are stated next
  to them.
- `tests/` — ordinary Rust tests of the library on concrete values.
- `app/` — SQLite and file-system code around the library (settings,
  backups, organization logo, report queries), built with `rusqlite`.
