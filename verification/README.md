# reina_core

The verified core of a visual-novel library manager, written in Verus.

- `src/` holds the library. Its functions carry contracts that Verus
  proves (only `now_timestamp`, which reads the clock, states nothing of the
  time it reads): the cleaning of incoming data (`dto`, `json`, `path`, `text`),
  the rules of the game aggregate and its listing orders (`games`, `query`,
  `name_sort`), the user settings (`settings`), the schema steps
  (`migration`), and the backup and WebDAV planning together with the reader
  of PROPFIND answers (`backup`, `webdav`). Calls into `quick_xml`, `pinyin`,
  `chrono` and a few std functions stand behind small trusted wrappers whose
  doc comments say what is assumed of them. Local paths are read through
  `std::path`, so they follow the rules of the platform the library runs on;
  the contracts state the readings that every platform allows.
- `tests/` runs the library on concrete values.
- `app/` is ordinary Rust around the library: serde forms of the data, the
  SQLite statements through `sea-orm`, the WebDAV requests through `reqwest`,
  the schema migrations and the backup commands.
