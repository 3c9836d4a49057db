use dbhelper::config::Engine;
use dbhelper::diff;
use dbhelper::migrate::{column_def, generate_create_table, generate_forward, generate_rollback, type_sql};
use dbhelper::schema::{
    Column, ColumnDefault, DataType, EnumType, ForeignKey, ForeignKeyAction, Index, PrimaryKey,
    Schema, Table, TableOptions,
};

fn make_column(name: &str, data_type: DataType) -> Column {
    Column {
        name: name.to_string(),
        data_type,
        nullable: false,
        default: None,
        auto_increment: false,
        unsigned: false,
    }
}

#[test]
fn test_generate_create_table() {
    let table = Table {
        columns: vec![
            Column {
                auto_increment: true,
                ..make_column("id", DataType::BigInt)
            },
            Column {
                nullable: true,
                ..make_column("name", DataType::Varchar(Some(255)))
            },
        ],
        primary_key: Some(PrimaryKey {
            name: None,
            columns: vec!["id".to_string()],
        }),
        ..Table::new("users")
    };

    let sql = generate_create_table(&table, Engine::Postgres);
    assert!(sql.contains("CREATE TABLE \"users\""));
    assert!(sql.contains("\"id\" BIGINT NOT NULL"));
    assert!(sql.contains("\"name\" VARCHAR(255)"));
    assert!(sql.contains("PRIMARY KEY (\"id\")"));
    // name column should NOT have NOT NULL (it's nullable)
    assert!(
        !sql.contains("\"name\" VARCHAR(255) NOT NULL"),
        "name should be nullable, but got: {sql}"
    );
}

#[test]
fn test_generate_create_table_mysql() {
    let table = Table {
        columns: vec![Column {
            auto_increment: true,
            ..make_column("id", DataType::Integer)
        }],
        primary_key: Some(PrimaryKey {
            name: None,
            columns: vec!["id".to_string()],
        }),
        options: TableOptions {
            engine: Some("InnoDB".to_string()),
            charset: Some("utf8mb4".to_string()),
            collation: None,
        },
        ..Table::new("users")
    };

    let sql = generate_create_table(&table, Engine::Mysql);
    assert!(sql.contains("CREATE TABLE `users`"));
    assert!(sql.contains("AUTO_INCREMENT"));
    assert!(sql.contains("ENGINE=InnoDB"));
    assert!(sql.contains("DEFAULT CHARSET=utf8mb4"));
}

#[test]
fn test_forward_add_table() {
    let from = Schema::new("public");
    let to = Schema {
        tables: vec![Table {
            columns: vec![make_column("id", DataType::Integer)],
            primary_key: Some(PrimaryKey {
                name: None,
                columns: vec!["id".to_string()],
            }),
            ..Table::new("users")
        }],
        ..Schema::new("public")
    };

    let d = diff::diff(&from, &to);
    let stmts = generate_forward(&d, &to, Engine::Postgres);
    assert_eq!(stmts.len(), 1);
    assert!(stmts[0].contains("CREATE TABLE"));
}

#[test]
fn test_forward_drop_table() {
    let from = Schema {
        tables: vec![Table::new("old_table")],
        ..Schema::new("public")
    };
    let to = Schema::new("public");

    let d = diff::diff(&from, &to);
    let stmts = generate_forward(&d, &to, Engine::Postgres);
    assert_eq!(stmts.len(), 1);
    assert!(stmts[0].contains("DROP TABLE"));
    assert!(stmts[0].contains("\"old_table\""));
}

#[test]
fn test_forward_add_column() {
    let from = Schema {
        tables: vec![Table::new("users")],
        ..Schema::new("public")
    };
    let to = Schema {
        tables: vec![Table {
            columns: vec![make_column("email", DataType::Text)],
            ..Table::new("users")
        }],
        ..Schema::new("public")
    };

    let d = diff::diff(&from, &to);
    let stmts = generate_forward(&d, &to, Engine::Postgres);
    assert_eq!(stmts.len(), 1);
    assert!(stmts[0].contains("ALTER TABLE"));
    assert!(stmts[0].contains("ADD COLUMN"));
    assert!(stmts[0].contains("\"email\" TEXT"));
}

#[test]
fn test_forward_drop_column() {
    let from = Schema {
        tables: vec![Table {
            columns: vec![make_column("old_col", DataType::Text)],
            ..Table::new("users")
        }],
        ..Schema::new("public")
    };
    let to = Schema {
        tables: vec![Table::new("users")],
        ..Schema::new("public")
    };

    let d = diff::diff(&from, &to);
    let stmts = generate_forward(&d, &to, Engine::Postgres);
    assert_eq!(stmts.len(), 1);
    assert!(stmts[0].contains("DROP COLUMN"));
}

#[test]
fn test_forward_add_index() {
    let from = Schema {
        tables: vec![Table::new("users")],
        ..Schema::new("public")
    };
    let to = Schema {
        tables: vec![Table {
            indexes: vec![Index {
                name: Some("idx_email".to_string()),
                columns: vec!["email".to_string()],
                unique: true,
                index_type: None,
                predicate: None,
            }],
            ..Table::new("users")
        }],
        ..Schema::new("public")
    };

    let d = diff::diff(&from, &to);
    let stmts = generate_forward(&d, &to, Engine::Postgres);
    assert_eq!(stmts.len(), 1);
    assert!(stmts[0].contains("CREATE UNIQUE INDEX"));
    assert!(stmts[0].contains("\"idx_email\""));
}

#[test]
fn test_forward_partial_index() {
    let from = Schema {
        tables: vec![Table::new("users")],
        ..Schema::new("public")
    };
    let to = Schema {
        tables: vec![Table {
            indexes: vec![Index {
                name: Some("idx_active".to_string()),
                columns: vec!["is_active".to_string()],
                unique: false,
                index_type: None,
                predicate: Some("is_active = true".to_string()),
            }],
            ..Table::new("users")
        }],
        ..Schema::new("public")
    };

    let d = diff::diff(&from, &to);
    let stmts = generate_forward(&d, &to, Engine::Postgres);
    assert_eq!(stmts.len(), 1);
    assert!(stmts[0].contains("WHERE is_active = true"));
}

#[test]
fn test_forward_add_enum() {
    let from = Schema::new("public");
    let to = Schema {
        enums: vec![EnumType {
            name: "user_role".to_string(),
            values: vec!["admin".to_string(), "user".to_string()],
        }],
        ..Schema::new("public")
    };

    let d = diff::diff(&from, &to);
    let stmts = generate_forward(&d, &to, Engine::Postgres);
    assert_eq!(stmts.len(), 1);
    assert!(stmts[0].contains("CREATE TYPE"));
    assert!(stmts[0].contains("'admin', 'user'"));
}

#[test]
fn test_forward_add_fk() {
    let from = Schema {
        tables: vec![Table::new("orders")],
        ..Schema::new("public")
    };
    let to = Schema {
        tables: vec![Table {
            foreign_keys: vec![ForeignKey {
                name: Some("fk_user".to_string()),
                columns: vec!["user_id".to_string()],
                referenced_table: "users".to_string(),
                referenced_schema: None,
                referenced_columns: vec!["id".to_string()],
                on_delete: ForeignKeyAction::Cascade,
                on_update: ForeignKeyAction::NoAction,
            }],
            ..Table::new("orders")
        }],
        ..Schema::new("public")
    };

    let d = diff::diff(&from, &to);
    let stmts = generate_forward(&d, &to, Engine::Postgres);
    assert_eq!(stmts.len(), 1);
    assert!(stmts[0].contains("FOREIGN KEY"));
    assert!(stmts[0].contains("REFERENCES"));
    assert!(stmts[0].contains("ON DELETE CASCADE"));
}

#[test]
fn test_rollback_add_table() {
    let from = Schema::new("public");
    let to = Schema {
        tables: vec![Table {
            columns: vec![make_column("id", DataType::Integer)],
            ..Table::new("users")
        }],
        ..Schema::new("public")
    };

    let d = diff::diff(&from, &to);
    let rollback = generate_rollback(&d, &from, Engine::Postgres);
    assert_eq!(rollback.len(), 1);
    assert!(rollback[0].contains("DROP TABLE"));
}

#[test]
fn test_rollback_drop_table() {
    let from = Schema {
        tables: vec![Table {
            columns: vec![make_column("id", DataType::Integer)],
            primary_key: Some(PrimaryKey {
                name: None,
                columns: vec!["id".to_string()],
            }),
            ..Table::new("users")
        }],
        ..Schema::new("public")
    };
    let to = Schema::new("public");

    let d = diff::diff(&from, &to);
    let rollback = generate_rollback(&d, &from, Engine::Postgres);
    assert_eq!(rollback.len(), 1);
    assert!(rollback[0].contains("CREATE TABLE"));
}

#[test]
fn test_mysql_quoting() {
    let table = Table {
        columns: vec![make_column("name", DataType::Varchar(Some(100)))],
        ..Table::new("users")
    };
    let sql = generate_create_table(&table, Engine::Mysql);
    assert!(sql.contains("`users`"));
    assert!(sql.contains("`name`"));
}

#[test]
fn test_type_sql_postgres() {
    assert_eq!(type_sql(&DataType::Boolean, Engine::Postgres), "BOOLEAN");
    assert_eq!(type_sql(&DataType::Uuid, Engine::Postgres), "UUID");
    assert_eq!(type_sql(&DataType::Jsonb, Engine::Postgres), "JSONB");
    assert_eq!(type_sql(&DataType::Bytea, Engine::Postgres), "BYTEA");
}

#[test]
fn test_type_sql_mysql() {
    assert_eq!(type_sql(&DataType::Boolean, Engine::Mysql), "TINYINT(1)");
    assert_eq!(type_sql(&DataType::Uuid, Engine::Mysql), "CHAR(36)");
    assert_eq!(type_sql(&DataType::Jsonb, Engine::Mysql), "JSON");
    assert_eq!(type_sql(&DataType::Bytea, Engine::Mysql), "BLOB");
}

#[test]
fn test_nullable_column_no_not_null() {
    let col = Column {
        nullable: true,
        ..make_column("bio", DataType::Text)
    };
    let def = column_def(&col, Engine::Postgres);
    assert!(!def.contains("NOT NULL"));
}

#[test]
fn test_column_with_default() {
    let col = Column {
        default: Some(ColumnDefault::Expression("now()".to_string())),
        ..make_column(
            "created_at",
            DataType::Timestamp {
                with_timezone: true,
                precision: None,
            },
        )
    };
    let def = column_def(&col, Engine::Postgres);
    assert!(def.contains("DEFAULT now()"));
}
