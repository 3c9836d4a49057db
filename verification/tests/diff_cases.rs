use dbhelper::config::Engine;
use dbhelper::diff::{diff, Change, SchemaDiff};
use dbhelper::migrate::{
    check_constraint_def, escape_str, fk_constraint, generate_alter_column,
    generate_create_index, generate_create_table, generate_forward, generate_rollback,
    quote_ident, sql_literal_str, type_sql, unique_constraint_def,
};
use dbhelper::schema::{
    CheckConstraint, Column, ColumnDefault, DataType, EnumType, ForeignKey, ForeignKeyAction,
    Index, PrimaryKey, Schema, Table, UniqueConstraint,
};

fn col(name: &str, data_type: DataType) -> Column {
    Column {
        name: name.to_string(),
        data_type,
        nullable: false,
        default: None,
        auto_increment: false,
        unsigned: false,
    }
}

fn rich_schema() -> Schema {
    Schema {
        enums: vec![EnumType {
            name: "mood".to_string(),
            values: vec!["sad".to_string(), "ok".to_string()],
        }],
        tables: vec![
            Table {
                columns: vec![col("id", DataType::BigInt), col("email", DataType::Text)],
                primary_key: Some(PrimaryKey {
                    name: None,
                    columns: vec!["id".to_string()],
                }),
                indexes: vec![Index {
                    name: Some("ix_email".to_string()),
                    columns: vec!["email".to_string()],
                    unique: true,
                    index_type: None,
                    predicate: None,
                }],
                check_constraints: vec![CheckConstraint {
                    name: None,
                    expression: "id > 0".to_string(),
                }],
                unique_constraints: vec![UniqueConstraint {
                    name: Some("uq".to_string()),
                    columns: vec!["email".to_string()],
                }],
                ..Table::new("users")
            },
            Table {
                columns: vec![col("user_id", DataType::BigInt)],
                foreign_keys: vec![ForeignKey {
                    name: Some("fk_user".to_string()),
                    columns: vec!["user_id".to_string()],
                    referenced_table: "users".to_string(),
                    referenced_schema: None,
                    referenced_columns: vec!["id".to_string()],
                    on_delete: ForeignKeyAction::Cascade,
                    on_update: ForeignKeyAction::NoAction,
                }],
                ..Table::new("orders")
            },
        ],
        ..Schema::new("public")
    }
}

#[test]
fn diff_of_schema_with_itself_is_empty() {
    let s = rich_schema();
    assert!(diff(&s, &s).changes.is_empty());
    assert!(diff(&s, &s.clone()).changes.is_empty());
}

#[test]
fn diff_of_schema_with_repeated_names_is_empty() {
    let s = Schema {
        enums: vec![
            EnumType { name: "mood".to_string(), values: vec!["a".to_string()] },
            EnumType { name: "mood".to_string(), values: vec!["b".to_string(), "c".to_string()] },
        ],
        tables: vec![
            Table {
                columns: vec![col("id", DataType::Integer), col("id", DataType::Text)],
                ..Table::new("t")
            },
            Table {
                columns: vec![col("name", DataType::Boolean)],
                ..Table::new("t")
            },
        ],
        ..Schema::new("public")
    };
    assert!(diff(&s, &s).changes.is_empty());
}

#[test]
fn migrating_to_itself_takes_no_statements() {
    let s = rich_schema();
    let d = diff(&s, &s);
    assert!(generate_forward(&d, &s, Engine::Postgres).is_empty());
    assert!(generate_rollback(&d, &s, Engine::Mysql).is_empty());
    let none = SchemaDiff { changes: vec![] };
    assert!(generate_forward(&none, &s, Engine::Mysql).is_empty());
}

#[test]
fn diff_lists_enum_and_table_changes_in_order() {
    let from = Schema {
        enums: vec![EnumType {
            name: "e1".to_string(),
            values: vec![],
        }],
        tables: vec![Table::new("t1")],
        ..Schema::new("public")
    };
    let to = Schema {
        enums: vec![EnumType {
            name: "e2".to_string(),
            values: vec![],
        }],
        tables: vec![Table::new("t2")],
        ..Schema::new("public")
    };
    let d = diff(&from, &to);
    assert_eq!(d.changes.len(), 4);
    assert!(matches!(&d.changes[0], Change::AddEnum { name } if name == "e2"));
    assert!(matches!(&d.changes[1], Change::DropEnum { name } if name == "e1"));
    assert!(matches!(&d.changes[2], Change::AddTable(n) if n == "t2"));
    assert!(matches!(&d.changes[3], Change::DropTable(n) if n == "t1"));
}

#[test]
fn column_alteration_description_and_statements() {
    let from = Schema {
        tables: vec![Table {
            columns: vec![col("id", DataType::Integer)],
            ..Table::new("users")
        }],
        ..Schema::new("public")
    };
    let to = Schema {
        tables: vec![Table {
            columns: vec![Column {
                nullable: true,
                default: Some(ColumnDefault::Literal("0".to_string())),
                ..col("id", DataType::BigInt)
            }],
            ..Table::new("users")
        }],
        ..Schema::new("public")
    };
    let d = diff(&from, &to);
    assert_eq!(d.changes.len(), 1);
    match &d.changes[0] {
        Change::AlterColumn {
            table,
            column,
            description,
        } => {
            assert_eq!(table, "users");
            assert_eq!(column, "id");
            assert_eq!(
                description,
                "type: integer -> bigint, nullable: false -> true, default: none -> '0'"
            );
        }
        other => panic!("unexpected change {other:?}"),
    }
    let stmts = generate_forward(&d, &to, Engine::Postgres);
    assert_eq!(
        stmts,
        vec![
            "ALTER TABLE \"users\" ALTER COLUMN \"id\" TYPE bigint USING \"id\"::bigint;",
            "ALTER TABLE \"users\" ALTER COLUMN \"id\" DROP NOT NULL;",
            "ALTER TABLE \"users\" ALTER COLUMN \"id\" SET DEFAULT '0';",
        ]
    );
    let mysql = generate_forward(&d, &to, Engine::Mysql);
    assert_eq!(
        mysql,
        vec!["ALTER TABLE `users` MODIFY COLUMN `id` bigint;"]
    );
    let back = generate_rollback(&d, &from, Engine::Postgres);
    assert_eq!(
        back,
        vec!["-- ALTER COLUMN users.id requires manual migration"]
    );
}

#[test]
fn enum_value_changes() {
    let from = Schema {
        enums: vec![EnumType {
            name: "mood".to_string(),
            values: vec!["a".to_string(), "b".to_string()],
        }],
        ..Schema::new("public")
    };
    let to = Schema {
        enums: vec![EnumType {
            name: "mood".to_string(),
            values: vec!["a".to_string(), "c".to_string(), "d".to_string()],
        }],
        ..Schema::new("public")
    };
    let d = diff(&from, &to);
    match &d.changes[0] {
        Change::AlterEnum { name, description } => {
            assert_eq!(name, "mood");
            assert_eq!(description, "added values: c, d; removed values: b");
        }
        other => panic!("unexpected change {other:?}"),
    }
    assert_eq!(
        generate_forward(&d, &to, Engine::Postgres),
        vec![
            "ALTER TYPE \"mood\" ADD VALUE 'c';",
            "ALTER TYPE \"mood\" ADD VALUE 'd';",
        ]
    );
    assert!(generate_forward(&d, &to, Engine::Mysql).is_empty());

    let reordered = Schema {
        enums: vec![EnumType {
            name: "mood".to_string(),
            values: vec!["b".to_string(), "a".to_string()],
        }],
        ..Schema::new("public")
    };
    match &diff(&from, &reordered).changes[0] {
        Change::AlterEnum { description, .. } => assert_eq!(description, "reordered values"),
        other => panic!("unexpected change {other:?}"),
    }
}

#[test]
fn constraint_changes_between_schemas() {
    let from = rich_schema();
    let mut to = rich_schema();
    to.tables[0].indexes.clear();
    to.tables[0].primary_key = None;
    to.tables[1].foreign_keys[0].on_delete = ForeignKeyAction::SetNull;
    let d = diff(&from, &to);
    let stmts = generate_forward(&d, &to, Engine::Postgres);
    assert_eq!(
        stmts,
        vec![
            "DROP INDEX \"ix_email\";",
            "ALTER TABLE \"users\" DROP CONSTRAINT users_pkey;",
            "ALTER TABLE \"orders\" DROP CONSTRAINT \"fk_user\";",
            "ALTER TABLE \"orders\" ADD CONSTRAINT \"fk_user\" FOREIGN KEY (\"user_id\") REFERENCES \"users\" (\"id\") ON DELETE SET NULL;",
        ]
    );
}

#[test]
fn rollback_reverses_added_column() {
    let from = Schema {
        tables: vec![Table::new("users")],
        ..Schema::new("public")
    };
    let to = Schema {
        tables: vec![Table {
            columns: vec![col("email", DataType::Text)],
            ..Table::new("users")
        }],
        ..Schema::new("public")
    };
    let d = diff(&from, &to);
    assert_eq!(
        generate_rollback(&d, &from, Engine::Mysql),
        vec!["ALTER TABLE `users` DROP COLUMN `email`;"]
    );
    let back = diff(&to, &from);
    assert_eq!(
        generate_rollback(&back, &to, Engine::Postgres),
        vec!["ALTER TABLE \"users\" ADD COLUMN \"email\" TEXT NOT NULL;"]
    );
}

#[test]
fn sql_text_helpers() {
    assert_eq!(quote_ident("users", Engine::Postgres), "\"users\"");
    assert_eq!(quote_ident("users", Engine::Mysql), "`users`");
    assert_eq!(escape_str("it's"), "it''s");
    assert_eq!(sql_literal_str("o'k'"), "'o''k'''");
    assert_eq!(sql_literal_str(""), "''");
}

#[test]
fn constraint_and_index_sql() {
    let idx = Index {
        name: None,
        columns: vec!["a".to_string(), "b".to_string()],
        unique: false,
        index_type: None,
        predicate: Some("a > 0".to_string()),
    };
    assert_eq!(
        generate_create_index(&idx, "t", Engine::Postgres),
        "CREATE INDEX ON \"t\" (\"a\", \"b\") WHERE a > 0;"
    );
    let fk = ForeignKey {
        name: None,
        columns: vec!["u".to_string()],
        referenced_table: "users".to_string(),
        referenced_schema: Some("app".to_string()),
        referenced_columns: vec!["id".to_string()],
        on_delete: ForeignKeyAction::NoAction,
        on_update: ForeignKeyAction::Restrict,
    };
    assert_eq!(
        fk_constraint(&fk, Engine::Mysql),
        "FOREIGN KEY (`u`) REFERENCES `app`.`users` (`id`) ON UPDATE RESTRICT"
    );
    let uc = UniqueConstraint {
        name: Some("uq".to_string()),
        columns: vec!["a".to_string()],
    };
    assert_eq!(
        unique_constraint_def(&uc, Engine::Postgres),
        "CONSTRAINT \"uq\" UNIQUE (\"a\")"
    );
    let cc = CheckConstraint {
        name: None,
        expression: "a > 1".to_string(),
    };
    assert_eq!(check_constraint_def(&cc, Engine::Postgres), "CHECK (a > 1)");
}

#[test]
fn create_table_full_text() {
    let table = Table {
        columns: vec![
            Column {
                auto_increment: true,
                unsigned: true,
                ..col("id", DataType::BigInt)
            },
            Column {
                nullable: true,
                default: Some(ColumnDefault::Literal("it's".to_string())),
                ..col("name", DataType::Varchar(Some(255)))
            },
        ],
        primary_key: Some(PrimaryKey {
            name: Some("pk_users".to_string()),
            columns: vec!["id".to_string()],
        }),
        ..Table::new("users")
    };
    assert_eq!(
        generate_create_table(&table, Engine::Postgres),
        "CREATE TABLE \"users\" (\n  \"id\" BIGINT NOT NULL,\n  \"name\" VARCHAR(255) DEFAULT 'it''s',\n  CONSTRAINT \"pk_users\" PRIMARY KEY (\"id\")\n);"
    );
    assert_eq!(
        generate_create_table(&table, Engine::Mysql),
        "CREATE TABLE `users` (\n  `id` BIGINT UNSIGNED NOT NULL AUTO_INCREMENT,\n  `name` VARCHAR(255) DEFAULT 'it''s',\n  CONSTRAINT `pk_users` PRIMARY KEY (`id`)\n);"
    );
}

#[test]
fn alter_column_statements_from_description() {
    assert_eq!(
        generate_alter_column("t", "c", "nullable: true -> false, default: 1 -> none", Engine::Postgres),
        vec![
            "ALTER TABLE \"t\" ALTER COLUMN \"c\" SET NOT NULL;",
            "ALTER TABLE \"t\" ALTER COLUMN \"c\" DROP DEFAULT;",
        ]
    );
    assert!(generate_alter_column("t", "c", "nullable: true -> false", Engine::Mysql).is_empty());
}

#[test]
fn type_sql_for_every_dialect_difference() {
    assert_eq!(type_sql(&DataType::Real, Engine::Mysql), "FLOAT");
    assert_eq!(type_sql(&DataType::DoublePrecision, Engine::Postgres), "DOUBLE PRECISION");
    assert_eq!(
        type_sql(
            &DataType::Timestamp {
                with_timezone: true,
                precision: Some(6)
            },
            Engine::Mysql
        ),
        "TIMESTAMP(6)"
    );
    assert_eq!(
        type_sql(
            &DataType::Enum {
                name: None,
                values: vec!["a".to_string(), "b'c".to_string()]
            },
            Engine::Mysql
        ),
        "ENUM('a', 'b''c')"
    );
    assert_eq!(
        type_sql(
            &DataType::Enum {
                name: None,
                values: vec![]
            },
            Engine::Postgres
        ),
        "TEXT"
    );
    assert_eq!(
        type_sql(&DataType::Array(Box::new(DataType::Integer)), Engine::Postgres),
        "INTEGER[]"
    );
    assert_eq!(
        type_sql(
            &DataType::Numeric {
                precision: Some(8),
                scale: Some(3)
            },
            Engine::Postgres
        ),
        "NUMERIC(8,3)"
    );
}
