# querybox

QueryBox is a desktop client for MySQL, PostgreSQL and SQLite. This crate is
its logic, verified with Verus: every function in `src/` carries a contract
that Verus proves.

## Layout

- `src/db`: values and result sets, date-times, the catalog queries each
  engine is asked and how their rows become columns, indexes and values.
- `src/query`: filters and the WHERE clauses they give, the statements that
  page through, update and insert rows, the SQL formatter (over sqlparser's
  tree), syntax highlighting (over sqlparser's tokenizer), query history.
- `src/export`: CSV (through the csv crate), JSON rows and SQL INSERT scripts.
- `src/connection`: profiles, the connection form and the saved-profile list.
- `src/ui`: the state of each view — the table grid with paging, filters,
  cell edits and the new row; the SQL editor's text, cursor and selection;
  tabs, sidebar, schema view and connection dialog.
- `src/text_motion.rs`, `src/strings.rs`, `src/chars.rs`: text helpers.
- `src/laws.rs`: properties that relate several operations.
- `tests/`: tests run against the compiled library.
- `app/`: the program around the library — the gpui window, the database
  drivers, files and the keychain. Verus does not see it.

Calls into outside crates go through a few trusted items, each with a doc
comment that says what its contract claims of the outside code.
