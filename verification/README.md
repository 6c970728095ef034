# jotun

A terminal note manager: notes with titles, sources and hierarchical tags,
full-text search, a command line (`jot new`, `ls`, `show`, `find`, `edit`,
`rm`, `cp`, `paste`, `tags`, `stats`, `dash`) and an interactive dashboard.

## Layout

- `src/` is the library, verified with Verus.
  - `model.rs`: what a note and the store are, and what each store
    operation does, as mathematics; the store's rules and the lemmas that
    every operation keeps them.
  - `store.rs`: the store itself. Notes are kept newest update first, tags
    in the order they were made, and a full-text index (an SQLite FTS5 table
    in an in-memory database) has one row per note.
  - `saved.rs`: how the store lies in the rows of its saved file (tag row
    numbers, the saved id counter).
  - `fts.rs`: the full-text index and the phrase-prefix query sent to it.
  - `order.rs`: text order and sorting.
  - `stats.rs`: note, tag and size figures, and tags by use.
  - `dashboard.rs`: the dashboard's state and what each key does,
    including the question asked before a note is deleted.
  - `cli.rs`, `color.rs`, `config.rs`, `text.rs`: the command line's and
    the settings' rules, and text helpers.
  - `laws.rs`: what holds across operations (a note reads back as written,
    deletes and updates touch only their note, ids are never given twice,
    tags stay normalized and count once, listings are ordered, tag search is
    hierarchical and lists each note once, and a saved store restored in any order comes back the
    same).
- `app/` is the program around it: arguments, terminal output and drawing,
  the settings file, the SQLite file the store is saved in, the editor and
  the clipboard.
- `tests/` runs the library on concrete notes.
