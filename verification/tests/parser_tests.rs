use std::path::Path;

use dbhelper::config::Engine;
use dbhelper::parser::{normalize_statement, parse_sql, split_statements};
use dbhelper::schema::{ColumnDefault, DataType, ForeignKeyAction, Schema, Table};

#[test]
fn test_split_statements() {
    let sql = "CREATE TABLE foo (id int); CREATE TABLE bar (id int);";
    let stmts = split_statements(sql);
    assert_eq!(stmts.len(), 2);
}

#[test]
fn test_split_statements_with_comments() {
    let sql = "-- comment\nCREATE TABLE foo (id int);\n/* block */\nCREATE TABLE bar (id int);";
    let stmts = split_statements(sql);
    assert_eq!(stmts.len(), 2);
}

#[test]
fn test_parse_simple_create_table() {
    let sql =
        "CREATE TABLE users (id INTEGER PRIMARY KEY, name VARCHAR(100) NOT NULL, email TEXT);";
    let mut schema = Schema::new("public");
    parse_sql(sql, Engine::Postgres, Path::new("test.sql"), &mut schema).unwrap();

    assert_eq!(schema.tables.len(), 1);
    let table = &schema.tables[0];
    assert_eq!(table.name, "users");
    assert_eq!(table.columns.len(), 3);
    assert!(table.primary_key.is_some());
    assert_eq!(table.primary_key.as_ref().unwrap().columns, vec!["id"]);
}

#[test]
fn test_parse_table_with_fk() {
    let sql = r#"
        CREATE TABLE orders (
            id SERIAL PRIMARY KEY,
            user_id INTEGER NOT NULL REFERENCES users(id) ON DELETE CASCADE
        );
    "#;
    let mut schema = Schema::new("public");
    schema.tables.push(Table::new("users"));
    parse_sql(sql, Engine::Postgres, Path::new("test.sql"), &mut schema).unwrap();

    let orders = schema.tables.iter().find(|t| t.name == "orders").unwrap();
    assert_eq!(orders.foreign_keys.len(), 1);
    assert_eq!(orders.foreign_keys[0].referenced_table, "users");
    assert_eq!(orders.foreign_keys[0].on_delete, ForeignKeyAction::Cascade);
}

#[test]
fn test_parse_table_with_constraint_fk() {
    let sql = r#"
        CREATE TABLE orders (
            id INTEGER PRIMARY KEY,
            user_id INTEGER,
            CONSTRAINT fk_user FOREIGN KEY (user_id) REFERENCES users(id) ON DELETE SET NULL
        );
    "#;
    let mut schema = Schema::new("public");
    parse_sql(sql, Engine::Postgres, Path::new("test.sql"), &mut schema).unwrap();

    let orders = &schema.tables[0];
    assert_eq!(orders.foreign_keys.len(), 1);
    assert_eq!(orders.foreign_keys[0].name, Some("fk_user".to_string()));
    assert_eq!(orders.foreign_keys[0].on_delete, ForeignKeyAction::SetNull);
}

#[test]
fn test_parse_create_type_enum() {
    let sql = "CREATE TYPE user_role AS ENUM ('admin', 'editor', 'viewer');";
    let mut schema = Schema::new("public");
    parse_sql(sql, Engine::Postgres, Path::new("test.sql"), &mut schema).unwrap();

    assert_eq!(schema.enums.len(), 1);
    assert_eq!(schema.enums[0].name, "user_role");
    assert_eq!(schema.enums[0].values, vec!["admin", "editor", "viewer"]);
}

#[test]
fn test_parse_create_index() {
    let sql = "CREATE INDEX idx_users_email ON users (email);";
    let mut schema = Schema::new("public");
    schema.tables.push(Table::new("users"));
    parse_sql(sql, Engine::Postgres, Path::new("test.sql"), &mut schema).unwrap();

    let table = &schema.tables[0];
    assert_eq!(table.indexes.len(), 1);
    assert_eq!(table.indexes[0].name, Some("idx_users_email".to_string()));
    assert!(!table.indexes[0].unique);
}

#[test]
fn test_parse_create_unique_index() {
    let sql = "CREATE UNIQUE INDEX idx_email ON users (email);";
    let mut schema = Schema::new("public");
    schema.tables.push(Table::new("users"));
    parse_sql(sql, Engine::Postgres, Path::new("test.sql"), &mut schema).unwrap();

    assert!(schema.tables[0].indexes[0].unique);
}

#[test]
fn test_parse_partial_index() {
    let sql = "CREATE INDEX idx_active ON users (email) WHERE is_active = true;";
    let mut schema = Schema::new("public");
    schema.tables.push(Table::new("users"));
    parse_sql(sql, Engine::Postgres, Path::new("test.sql"), &mut schema).unwrap();

    let idx = &schema.tables[0].indexes[0];
    assert!(idx.predicate.is_some());
    assert!(idx.predicate.as_ref().unwrap().contains("is_active"));
}

#[test]
fn test_parse_alter_table_add_column() {
    let sql = "CREATE TABLE users (id INTEGER);\nALTER TABLE users ADD COLUMN email TEXT;";
    let mut schema = Schema::new("public");
    parse_sql(sql, Engine::Postgres, Path::new("test.sql"), &mut schema).unwrap();

    assert_eq!(schema.tables[0].columns.len(), 2);
    assert_eq!(schema.tables[0].columns[1].name, "email");
}

#[test]
fn test_parse_drop_table() {
    let sql = "CREATE TABLE users (id INTEGER);\nDROP TABLE users;";
    let mut schema = Schema::new("public");
    parse_sql(sql, Engine::Postgres, Path::new("test.sql"), &mut schema).unwrap();

    assert!(schema.tables.is_empty());
}

#[test]
fn test_parse_mysql_table() {
    let sql = r#"
        CREATE TABLE users (
            id BIGINT UNSIGNED AUTO_INCREMENT PRIMARY KEY,
            name VARCHAR(255) NOT NULL,
            role ENUM('admin','user','guest') DEFAULT 'user',
            token BINARY(32)
        ) ENGINE=InnoDB DEFAULT CHARSET=utf8mb4;
    "#;
    let mut schema = Schema::new("default");
    parse_sql(sql, Engine::Mysql, Path::new("test.sql"), &mut schema).unwrap();

    let table = &schema.tables[0];
    assert_eq!(table.name, "users");
    assert_eq!(table.columns.len(), 4);

    // Check UNSIGNED
    assert!(table.columns[0].unsigned);
    assert!(table.columns[0].auto_increment);

    // Check ENUM
    if let DataType::Enum { name, values } = &table.columns[2].data_type {
        assert!(name.is_none());
        assert_eq!(values, &["admin", "user", "guest"]);
    } else {
        panic!("expected Enum data type");
    }

    // Check BINARY
    assert_eq!(table.columns[3].data_type, DataType::Binary(Some(32)));

    // Check table options
    assert_eq!(table.options.engine, Some("InnoDB".to_string()));
    assert_eq!(table.options.charset, Some("utf8mb4".to_string()));
}

#[test]
fn test_parse_check_constraint() {
    let sql = "CREATE TABLE t (age INTEGER, CHECK (age > 0));";
    let mut schema = Schema::new("public");
    parse_sql(sql, Engine::Postgres, Path::new("test.sql"), &mut schema).unwrap();

    assert_eq!(schema.tables[0].check_constraints.len(), 1);
    assert!(schema.tables[0].check_constraints[0]
        .expression
        .contains("age > 0"));
}

#[test]
fn test_parse_composite_pk() {
    let sql = "CREATE TABLE t (a INTEGER, b INTEGER, PRIMARY KEY (a, b));";
    let mut schema = Schema::new("public");
    parse_sql(sql, Engine::Postgres, Path::new("test.sql"), &mut schema).unwrap();

    let pk = schema.tables[0].primary_key.as_ref().unwrap();
    assert_eq!(pk.columns, vec!["a", "b"]);
}

#[test]
fn test_parse_default_expression() {
    let sql = "CREATE TABLE t (id UUID DEFAULT gen_random_uuid(), created_at TIMESTAMP DEFAULT CURRENT_TIMESTAMP);";
    let mut schema = Schema::new("public");
    parse_sql(sql, Engine::Postgres, Path::new("test.sql"), &mut schema).unwrap();

    assert_eq!(
        schema.tables[0].columns[0].default,
        Some(ColumnDefault::Expression("gen_random_uuid()".to_string()))
    );
    assert_eq!(
        schema.tables[0].columns[1].default,
        Some(ColumnDefault::Expression("CURRENT_TIMESTAMP".to_string()))
    );
}

#[test]
fn test_parse_default_literal() {
    let sql =
        "CREATE TABLE t (name VARCHAR(100) DEFAULT 'unnamed', active BOOLEAN DEFAULT TRUE);";
    let mut schema = Schema::new("public");
    parse_sql(sql, Engine::Postgres, Path::new("test.sql"), &mut schema).unwrap();

    assert_eq!(
        schema.tables[0].columns[0].default,
        Some(ColumnDefault::Literal("unnamed".to_string()))
    );
    assert_eq!(
        schema.tables[0].columns[1].default,
        Some(ColumnDefault::Expression("TRUE".to_string()))
    );
}

#[test]
fn test_normalize_statement() {
    let s = "CREATE   TABLE\n  foo  (\n  id  INT\n)";
    let n = normalize_statement(s);
    assert_eq!(n, "CREATE TABLE foo ( id INT )");
}

#[test]
fn test_schema_qualified_table() {
    let sql = "CREATE TABLE analytics.page_views (id INTEGER PRIMARY KEY);";
    let mut schema = Schema::new("analytics");
    parse_sql(sql, Engine::Postgres, Path::new("test.sql"), &mut schema).unwrap();

    assert_eq!(schema.tables[0].name, "page_views");
}

#[test]
fn test_sequential_migrations() {
    let sql1 = "CREATE TABLE users (id INTEGER PRIMARY KEY);";
    let sql2 = "ALTER TABLE users ADD COLUMN email TEXT;";

    let mut schema = Schema::new("public");
    parse_sql(sql1, Engine::Postgres, Path::new("001.sql"), &mut schema).unwrap();
    parse_sql(sql2, Engine::Postgres, Path::new("002.sql"), &mut schema).unwrap();

    assert_eq!(schema.tables[0].columns.len(), 2);
}
