# dbhelper

A database schema toolkit for Postgres and MySQL DDL, written in Verus:

- `src/schema.rs` — the schema model (tables, columns, keys, indexes,
  constraints, enum types) and its mathematical view.
- `src/parser.rs` — splits SQL migration text into statements and applies
  `CREATE TABLE`, `CREATE TYPE`, `CREATE INDEX`, `ALTER TABLE`, `DROP TABLE`
  and `DROP INDEX` to a schema.
- `src/diff.rs` — the structured difference between two schemas.
- `src/migrate.rs` — forward and rollback SQL from a difference.
- `src/lint.rs` — the lint rules and the engine that runs the enabled ones.
- `src/config.rs` — the engine setting and the grouping of a database's
  migration sources by schema.
- `src/optimize.rs`, `src/container.rs`, `src/error.rs` — smaller pieces.
- `src/text.rs` — character-level text functions with their specifications.

Every executable function carries a contract proved by Verus; the laws
(a schema diffs to nothing against itself, reversing changes twice gives them
back, parsing keeps table and enum names distinct, linting with rules disabled
filters the full warning list, a rollback drops what the forward migration
added, ...) are public proof functions next to the code they speak of.

`app/` holds the command-line program: argument handling, reading the
configuration and migration directories, and the introspection entry points.
