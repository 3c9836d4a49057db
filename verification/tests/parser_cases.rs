use std::path::Path;

use dbhelper::config::Engine;
use dbhelper::parser::{apply_migrations, normalize_statement, parse_sql, split_statements};
use dbhelper::schema::{ColumnDefault, DataType, ForeignKeyAction, Schema, Table};

fn parsed(sql: &str, engine: Engine) -> Schema {
    let mut schema = Schema::new("public");
    parse_sql(sql, engine, Path::new("case.sql"), &mut schema).unwrap();
    schema
}

#[test]
fn split_keeps_lines_and_trims() {
    let stmts = split_statements("\n\n  CREATE TABLE a (id int) ;\n\nDROP TABLE a;  ");
    assert_eq!(stmts.len(), 2);
    assert_eq!(stmts[0], (3, "CREATE TABLE a (id int)".to_string()));
    assert_eq!(stmts[1], (5, "DROP TABLE a".to_string()));
}

#[test]
fn split_statement_lines_after_newline() {
    let stmts = split_statements("SELECT 1;\n\nSELECT 2;");
    assert_eq!(stmts[0].0, 1);
    assert_eq!(stmts[1].0, 3);
}

#[test]
fn split_respects_quotes_and_doubled_quotes() {
    let stmts = split_statements("INSERT INTO t VALUES ('a;b', 'it''s;'); SELECT 1");
    assert_eq!(stmts.len(), 2);
    assert_eq!(stmts[0].1, "INSERT INTO t VALUES ('a;b', 'it''s;')");
    assert_eq!(stmts[1].1, "SELECT 1");
}

#[test]
fn split_keeps_dollar_quoted_bodies() {
    let sql = "CREATE FUNCTION f() RETURNS int AS $fn$ SELECT 1; $fn$ LANGUAGE sql; SELECT 2;";
    let stmts = split_statements(sql);
    assert_eq!(stmts.len(), 2);
    assert_eq!(
        stmts[0].1,
        "CREATE FUNCTION f() RETURNS int AS $fn$ SELECT 1; $fn$ LANGUAGE sql"
    );
}

#[test]
fn split_empty_dollar_tag() {
    let stmts = split_statements("DO $$ BEGIN; END $$; SELECT 3;");
    assert_eq!(stmts.len(), 2);
    assert_eq!(stmts[0].1, "DO $$ BEGIN; END $$");
}

#[test]
fn split_lone_dollar_is_plain_text() {
    let stmts = split_statements("SELECT $1; SELECT 2;");
    assert_eq!(stmts.len(), 2);
    assert_eq!(stmts[0].1, "SELECT $1");
}

#[test]
fn split_counts_lines_in_block_comments() {
    let stmts = split_statements("/* a\nb\nc */\nSELECT 1;");
    assert_eq!(stmts.len(), 1);
    assert_eq!(stmts[0].0, 4);
}

#[test]
fn split_drops_empty_statements() {
    let stmts = split_statements(";;  ; -- only a comment\n");
    assert!(stmts.is_empty());
}

#[test]
fn normalize_keeps_quoted_whitespace() {
    assert_eq!(normalize_statement("  a   'x   y'\t b  "), "a 'x   y' b");
    assert_eq!(normalize_statement(""), "");
}

#[test]
fn parse_skips_other_statements() {
    let schema = parsed("INSERT INTO users VALUES (1); COMMENT ON TABLE users IS 'x';", Engine::Postgres);
    assert!(schema.tables.is_empty());
    assert!(schema.enums.is_empty());
}

#[test]
fn create_table_of_existing_name_replaces_it() {
    let schema = parsed(
        "CREATE TABLE users (id INTEGER); CREATE TABLE users (id INTEGER, email TEXT);",
        Engine::Postgres,
    );
    assert_eq!(schema.tables.len(), 1);
    assert_eq!(schema.tables[0].columns.len(), 2);
}

#[test]
fn create_table_if_not_exists_and_quoted_name() {
    let schema = parsed(
        "CREATE TABLE IF NOT EXISTS \"Users\" (\"Id\" BIGSERIAL PRIMARY KEY);",
        Engine::Postgres,
    );
    assert_eq!(schema.tables[0].name, "Users");
    assert_eq!(schema.tables[0].columns[0].name, "Id");
    assert!(schema.tables[0].columns[0].auto_increment);
    assert_eq!(schema.tables[0].columns[0].data_type, DataType::BigInt);
}

#[test]
fn column_types_are_recognised() {
    let schema = parsed(
        "CREATE TABLE t (a NUMERIC(10, 2), b TIMESTAMPTZ, c TIMESTAMP(3) WITH TIME ZONE, d CHAR(2), e mood, f TINYINT, g DOUBLE);",
        Engine::Postgres,
    );
    let cols = &schema.tables[0].columns;
    assert_eq!(
        cols[0].data_type,
        DataType::Numeric {
            precision: Some(10),
            scale: Some(2)
        }
    );
    assert_eq!(
        cols[1].data_type,
        DataType::Timestamp {
            with_timezone: true,
            precision: None
        }
    );
    assert_eq!(
        cols[2].data_type,
        DataType::Timestamp {
            with_timezone: true,
            precision: Some(3)
        }
    );
    assert_eq!(cols[3].data_type, DataType::Char(Some(2)));
    assert_eq!(
        cols[4].data_type,
        DataType::Enum {
            name: Some("mood".to_string()),
            values: vec![]
        }
    );
    assert_eq!(cols[5].data_type, DataType::SmallInt);
    assert_eq!(cols[6].data_type, DataType::DoublePrecision);
}

#[test]
fn mysql_unknown_type_is_other_and_set_values() {
    let schema = parsed(
        "CREATE TABLE t (g GEOMETRY, s SET('a', \"b\"), y TINYINT);",
        Engine::Mysql,
    );
    let cols = &schema.tables[0].columns;
    assert_eq!(cols[0].data_type, DataType::Other("GEOMETRY".to_string()));
    assert_eq!(
        cols[1].data_type,
        DataType::SetOf(vec!["a".to_string(), "b".to_string()])
    );
    assert_eq!(cols[2].data_type, DataType::TinyInt);
}

#[test]
fn nullable_and_defaults() {
    let schema = parsed(
        "CREATE TABLE t (a INTEGER DEFAULT 0 NOT NULL, b TEXT DEFAULT now(), c TEXT);",
        Engine::Postgres,
    );
    let cols = &schema.tables[0].columns;
    assert!(!cols[0].nullable);
    assert_eq!(cols[0].default, Some(ColumnDefault::Literal("0".to_string())));
    assert!(cols[1].nullable);
    assert_eq!(
        cols[1].default,
        Some(ColumnDefault::Expression("now()".to_string()))
    );
    assert_eq!(cols[2].default, None);
}

#[test]
fn lone_quote_default_is_empty_literal() {
    let schema = parsed("CREATE TABLE t (a TEXT DEFAULT ' NOT NULL)", Engine::Postgres);
    assert_eq!(
        schema.tables[0].columns[0].default,
        Some(ColumnDefault::Literal(String::new()))
    );
}

#[test]
fn inline_unique_and_table_unique() {
    let schema = parsed(
        "CREATE TABLE t (a TEXT UNIQUE, b TEXT, CONSTRAINT uq_b UNIQUE (b), UNIQUE (a, b));",
        Engine::Postgres,
    );
    let ucs = &schema.tables[0].unique_constraints;
    assert_eq!(ucs.len(), 2);
    assert_eq!(ucs[0].columns, vec!["a"]);
    assert_eq!(ucs[0].name, None);
    assert_eq!(ucs[1].columns, vec!["a", "b"]);
}

#[test]
fn foreign_key_actions_and_schema_qualified_reference() {
    let schema = parsed(
        "CREATE TABLE o (u INT, FOREIGN KEY (u) REFERENCES app.users(id, \"Key\") ON DELETE RESTRICT ON UPDATE SET DEFAULT);",
        Engine::Postgres,
    );
    let fk = &schema.tables[0].foreign_keys[0];
    assert_eq!(fk.name, None);
    assert_eq!(fk.columns, vec!["u"]);
    assert_eq!(fk.referenced_table, "users");
    assert_eq!(fk.referenced_columns, vec!["id", "Key"]);
    assert_eq!(fk.on_delete, ForeignKeyAction::Restrict);
    assert_eq!(fk.on_update, ForeignKeyAction::SetDefault);
}

#[test]
fn create_type_replaces_values_and_skips_reversed_parens() {
    let schema = parsed(
        "CREATE TYPE public.mood AS ENUM ('sad'); CREATE TYPE mood AS ENUM ('ok', '', \"happy\"); CREATE TYPE broken AS ENUM ) (;",
        Engine::Postgres,
    );
    assert_eq!(schema.enums.len(), 1);
    assert_eq!(schema.enums[0].name, "mood");
    assert_eq!(schema.enums[0].values, vec!["ok", "happy"]);
}

#[test]
fn create_index_on_missing_table_changes_nothing() {
    let schema = parsed("CREATE INDEX i ON nowhere (a);", Engine::Postgres);
    assert!(schema.tables.is_empty());
}

#[test]
fn index_columns_drop_direction() {
    let mut schema = Schema::new("public");
    schema.tables.push(Table::new("users"));
    parse_sql(
        "CREATE UNIQUE INDEX IF NOT EXISTS \"ix\" ON public.users (\"a\" DESC, b ASC);",
        Engine::Postgres,
        Path::new("ix.sql"),
        &mut schema,
    )
    .unwrap();
    let idx = &schema.tables[0].indexes[0];
    assert_eq!(idx.name, Some("ix".to_string()));
    assert_eq!(idx.columns, vec!["a", "b"]);
    assert!(idx.unique);
    assert_eq!(idx.predicate, None);
}

#[test]
fn alter_table_drop_column_and_constraints() {
    let schema = parsed(
        "CREATE TABLE t (a INT, b INT);\
         ALTER TABLE t DROP COLUMN b;\
         ALTER TABLE t ADD CONSTRAINT ck CHECK (a > 1);\
         ALTER TABLE t ADD CONSTRAINT uq UNIQUE (a);\
         ALTER TABLE t ADD CONSTRAINT fk FOREIGN KEY (a) REFERENCES o(id);\
         ALTER TABLE t ADD c TEXT;",
        Engine::Postgres,
    );
    let t = &schema.tables[0];
    let names: Vec<&str> = t.columns.iter().map(|c| c.name.as_str()).collect();
    assert_eq!(names, vec!["a", "c"]);
    assert_eq!(t.check_constraints[0].expression, "a > 1");
    assert_eq!(t.check_constraints[0].name, None);
    assert_eq!(t.unique_constraints[0].columns, vec!["a"]);
    assert_eq!(t.foreign_keys[0].name, None);
    assert_eq!(t.foreign_keys[0].referenced_table, "o");
}

#[test]
fn drop_index_removes_from_every_table() {
    let schema = parsed(
        "CREATE TABLE a (x INT); CREATE TABLE b (x INT);\
         CREATE INDEX ix ON a (x); CREATE INDEX ix ON b (x); CREATE INDEX iy ON b (x);\
         DROP INDEX IF EXISTS ix;",
        Engine::Postgres,
    );
    assert!(schema.tables[0].indexes.is_empty());
    assert_eq!(schema.tables[1].indexes.len(), 1);
    assert_eq!(schema.tables[1].indexes[0].name, Some("iy".to_string()));
}

#[test]
fn drop_table_if_exists_with_schema() {
    let schema = parsed(
        "CREATE TABLE a (x INT); CREATE TABLE b (x INT); DROP TABLE IF EXISTS public.a CASCADE;",
        Engine::Postgres,
    );
    assert_eq!(schema.tables.len(), 1);
    assert_eq!(schema.tables[0].name, "b");
}

#[test]
fn mysql_table_options_collation() {
    let schema = parsed(
        "CREATE TABLE t (id INT) ENGINE = MyISAM COLLATE=utf8mb4_bin;",
        Engine::Mysql,
    );
    assert_eq!(schema.tables[0].options.engine, Some("MyISAM".to_string()));
    assert_eq!(
        schema.tables[0].options.collation,
        Some("utf8mb4_bin".to_string())
    );
    assert_eq!(schema.tables[0].options.charset, None);
}

#[test]
fn migrations_apply_in_order_from_default_schema() {
    let s = apply_migrations(
        &vec![
            "CREATE TABLE a (x INT);".to_string(),
            "ALTER TABLE a ADD y TEXT;".to_string(),
        ],
        Engine::Mysql,
    );
    assert_eq!(s.name, "default");
    assert_eq!(s.tables[0].columns.len(), 2);
    let p = apply_migrations(&vec![], Engine::Postgres);
    assert_eq!(p.name, "public");
    assert!(p.tables.is_empty());
}

#[test]
fn dollar_tag_advance_counts_bytes() {
    let stmts = split_statements("$\u{e9}$X; $\u{e9}$; SELECT 1;");
    assert_eq!(stmts.len(), 2);
    assert_eq!(stmts[0].1, "$\u{e9}$; $\u{e9}$");
    assert_eq!(stmts[1].1, "SELECT 1");
}

#[test]
fn unique_only_as_the_word_before_index() {
    let mut schema = Schema::new("public");
    schema.tables.push(Table::new("users"));
    parse_sql(
        "CREATE INDEX idx_unique_email ON users (email);",
        Engine::Postgres,
        Path::new("u.sql"),
        &mut schema,
    )
    .unwrap();
    let idx = &schema.tables[0].indexes[0];
    assert_eq!(idx.name, Some("idx_unique_email".to_string()));
    assert!(!idx.unique);
    assert_eq!(idx.columns, vec!["email"]);
}

#[test]
fn alter_keywords_match_whole_words() {
    let schema = parsed(
        "CREATE TABLE addresses (id INT); ALTER TABLE addresses ADD COLUMN city TEXT;",
        Engine::Postgres,
    );
    let t = &schema.tables[0];
    assert_eq!(t.columns.len(), 2);
    assert_eq!(t.columns[1].name, "city");
    assert_eq!(t.columns[1].data_type, DataType::Text);
}

#[test]
fn create_type_name_before_the_word_as() {
    let schema = parsed(
        "CREATE TYPE areas AS ENUM ('north', 'south');",
        Engine::Postgres,
    );
    assert_eq!(schema.enums[0].name, "areas");
    assert_eq!(schema.enums[0].values, vec!["north", "south"]);
}

#[test]
fn column_keywords_inside_names_are_not_keywords() {
    let schema = parsed(
        "CREATE TABLE t (generated_at TIMESTAMP, is_default BOOLEAN, serial_no INTEGER, \
         references_count NUMERIC(10, 2), unsigned_total INTEGER, checked BOOLEAN);",
        Engine::Postgres,
    );
    let t = &schema.tables[0];
    assert_eq!(t.columns.len(), 6);
    assert!(t.columns.iter().all(|c| !c.auto_increment && !c.unsigned && c.nullable));
    assert_eq!(t.columns[1].default, None);
    assert!(t.foreign_keys.is_empty());
    assert!(t.check_constraints.is_empty());
}

#[test]
fn column_keywords_as_words_set_the_flags() {
    let schema = parsed(
        "CREATE TABLE t (a BIGSERIAL PRIMARY KEY, b INT UNSIGNED NOT NULL DEFAULT 0, \
         c INTEGER GENERATED ALWAYS AS IDENTITY, d SMALLSERIAL, e INTEGER REFERENCES u(id));",
        Engine::Postgres,
    );
    let t = &schema.tables[0];
    assert!(t.columns[0].auto_increment);
    assert_eq!(t.primary_key.as_ref().unwrap().columns, vec!["a"]);
    assert!(t.columns[1].unsigned);
    assert!(!t.columns[1].nullable);
    assert_eq!(t.columns[1].default, Some(ColumnDefault::Literal("0".to_string())));
    assert!(t.columns[2].auto_increment);
    assert!(t.columns[3].auto_increment);
    assert_eq!(t.foreign_keys.len(), 1);
    assert_eq!(t.foreign_keys[0].referenced_table, "u");
    assert_eq!(t.foreign_keys[0].columns, vec!["e"]);
}

#[test]
fn foreign_key_column_named_like_the_keyword() {
    let schema = parsed(
        "CREATE TABLE t (references_id INT, FOREIGN KEY (references_id) REFERENCES u(id));",
        Engine::Postgres,
    );
    let fk = &schema.tables[0].foreign_keys[0];
    assert_eq!(fk.columns, vec!["references_id"]);
    assert_eq!(fk.referenced_table, "u");
    assert_eq!(fk.referenced_columns, vec!["id"]);
}

#[test]
fn tablespace_statements_are_skipped() {
    let schema = parsed(
        "CREATE TABLESPACE fast WITH (seq_page_cost = 1); CREATE TABLE t (id INT); \
         DROP TABLESPACE fast;",
        Engine::Postgres,
    );
    assert_eq!(schema.tables.len(), 1);
    assert_eq!(schema.tables[0].name, "t");
}

#[test]
fn constraint_keywords_inside_names_are_not_keywords() {
    let schema = parsed(
        "CREATE TABLE t (unique_id INT, constraints_id INT, UNIQUE (constraints_id)); \
         ALTER TABLE t ADD CONSTRAINT pk_t PRIMARY KEY (unique_id);",
        Engine::Postgres,
    );
    let t = &schema.tables[0];
    assert_eq!(t.columns.len(), 2);
    assert_eq!(t.unique_constraints.len(), 1);
    assert_eq!(t.unique_constraints[0].name, None);
    assert_eq!(t.unique_constraints[0].columns, vec!["constraints_id"]);
}
