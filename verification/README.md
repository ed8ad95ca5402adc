# dotfig

A small tool that backs up and restores dotfiles named by `Group:Title`
keys, with its logic written and proved in Verus.

- `src/` is the verified library: parsing and matching keys (`config.rs`),
  adding and removing keys and locating the backup directory (`config.rs`),
  looking keys up in the registry of known paths (`paths.rs`), planning
  backups, restores and copies (`sync.rs`), expanding `~/` and checking the
  config file (`utils.rs`), the text operations they rest on (`text.rs`),
  the few `std::path` operations used (`pathname.rs`) and the errors
  (`error.rs`).
- `app/` is the command-line program: argument parsing, logging, reading
  and writing the JSON files with serde, and the file-system work that the
  library plans.
- `tests/` runs the library on concrete values.

The program reads its registry of known paths from `paths.json` in the
working directory.
