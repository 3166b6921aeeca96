# langcodec_cli

The command-line side of a localization toolkit: converting, viewing,
diffing, merging, syncing, editing, normalizing and translating
localization catalogs (`.strings`, Android `strings.xml`, `.xcstrings`,
CSV/TSV, and custom JSON/YAML language maps).

- `src/` is the library, verified with Verus. It holds the decisions of every
  command over a plain model of the catalogs (`model.rs`): format names and
  routes, configuration precedence, language matching, diffs, statistics,
  views, syncing, editing, translation job planning and result merging,
  annotation requests and reports, glob expansion, and the run dashboard.
  Calls into `serde_json`, `serde_yaml`, `globset`, `crossterm`,
  `unicode-width` and `std::path` stand behind small trusted wrappers whose
  contracts state or name what the outside function returns (the escape
  codes of styled text are stated; what the disk holds is left open).
- `tests/` exercises the library on concrete values.
- `app/` is the executable around it: argument parsing with `clap`, file and
  terminal I/O, reading and writing catalogs with the `langcodec` engine,
  configuration files with `toml`, and model providers through `mentra` and
  `tokio`.
