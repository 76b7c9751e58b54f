# delta

The back end of a disk usage explorer: it scans a directory tree, shows it
largest first, saves snapshots of it to SQLite files, previews and compares
snapshots, charts the size of one path across snapshots, and, started
with `--background-scan`, runs a background scan that saves a snapshot when
the size has moved enough; enabling that scan registers it to start at
login.

- `src/` is the verified library. `scan` builds the tree from the entries
  of a walk, children first; `tree` turns a tree into views and into the
  rows of a snapshot, and shows a scanned directory against the records of
  an older snapshot; `snapshot` reads snapshot rows back into views,
  compares two snapshots and reads snapshot file names; `auto_scan` and
  `config` hold the rules of the background scan and its settings;
  `autostart` decides the login registration step by step; `text`,
  `order`, `clock` and `disk` hold text handling, sorting, and the calls
  into `chrono`, `twox-hash` and `humansize`.
- `app/` is the program around it: the file system walk, SQLite, the
  settings file, the disk list, the XDG autostart entry, and a command loop that answers in JSON.
- Snapshot files are named `<disk>_<YYYYmmddHHMM>_<size>.db`, where
  `<disk>` is the library's own reduction of the mount point to its ASCII
  letters and digits (`clean_disk_name`); a mount point without any is
  refused.
- `tests/` runs the library on concrete values.
