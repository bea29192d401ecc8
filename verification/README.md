# gim — game files version control

`gim` snapshots a game's directory into a content-addressed object store,
restores snapshots, keeps branches, and packs snapshots into portable
archives.

It also plans how to compact game files with Windows' transparent
compression and how to defragment them on spinning disks. Carrying those
plans out takes Windows system calls (the WOF and NTFS compression
controls, the volume bitmap, retrieval pointers and file moves), which
this build does not make: the functions that would make them answer
`NotSupportedPlatform` (and the WOF driver probe answers "not
installed"). So `gim compact` shows its estimate and then either reports
WOF unavailable or records each file as failed, and `gim defrag` stops
with `NotSupportedPlatform`. What decides the work (the compaction estimate and its
classification of files, the defragmentation planner, the parsing of the
replies those calls give) is in the library and verified.

Layout:

- `src/` — the library, verified with Verus: configuration parsing and
  saving, ignore rules, snapshot diffs and restore plans, snapshot ids,
  the compaction estimate, the defragmentation planner and its volume
  bitmap, archive compression framing, path and text helpers, and the
  command-line model. Calls into outside crates (hashing, compression,
  gitignore matching, colouring, time) go through small trusted wrappers
  whose contracts are stated next to them.
- `app/` — the `gim` program around the library: argument parsing, the
  SQLite databases, file-system walking and copying, process spawning and
  output.
- `tests/` — tests of the library.
