# migrant_lib

Embeddable management of database migrations, written in Verus.

`src/` is the verified library:

- `errors` — error kinds, with `is_migration_complete` and the error text.
- `kinds` — database kinds and directions, with their names; a name and the
  kind it stands for are proved to be inverse.
- `migrator` — the migration applicator: its settings, `next_available`
  (which migration comes next in each direction), and a step function that,
  given what the caller reports, decides the next action of a run
  (load, run, record, reload, finish) and the text to show. Laws about runs
  (faked runs never run a migration, `all` runs end without
  `MigrationComplete`, `swallow_completion`, going down undoes going up)
  are proof functions there.
- `discovery` — migrations found as files: grouping `.sql` files by
  directory, reading `<timestamp>_<tag>` directory names, and ordering the
  migrations chronologically.
- `tags` — the tag rules (`[a-z0-9-]`, timestamped tags) and the name of a
  new migration.
- `drivers` — what the `psql` and `mysqlsh` tools print, read into results,
  and statement templates filled with a tag.
- `cli` — the decisions behind listing, editing, choosing and shell commands,
  and percent-encoding.
- `text` — string operations (trim, lines, replace, decimal text).

`app/` performs the outside work the library asks for: walking the migration
directory, the clock, the terminal, and running the database shell tools.
