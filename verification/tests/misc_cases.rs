use dbhelper::config::{sources_by_schema, Engine};
use dbhelper::container::{ContainerManager, DatabaseKind};
use dbhelper::diff::{diff, Change, SchemaDiff};
use dbhelper::error::{LintError, ParseError};
use dbhelper::migrate::{generate_forward, generate_rollback};
use dbhelper::optimize::{analyze, Suggestion};
use dbhelper::schema::{Column, DataType, EnumType, Index, Schema, Table};

#[test]
fn optimize_has_no_suggestions_yet() {
    let schema = Schema {
        tables: vec![Table::new("users")],
        ..Schema::new("public")
    };
    assert!(analyze(&schema).is_empty());
    let s = Suggestion {
        rule: "r".to_string(),
        message: "m".to_string(),
        table: None,
    };
    assert_eq!(s.clone().rule, "r");
}

#[test]
fn container_manager_builds() {
    let a = ContainerManager::new();
    let b = ContainerManager::default();
    assert_eq!(format!("{a:?}"), format!("{b:?}"));
    assert_ne!(DatabaseKind::Postgres, DatabaseKind::Mysql);
}

#[test]
fn error_values_carry_their_text() {
    let e = ParseError::DirectoryNotFound(std::path::PathBuf::from("migrations"));
    assert!(format!("{e:?}").contains("migrations"));
    let l = LintError::UnknownRule("nope".to_string());
    assert!(format!("{l:?}").contains("nope"));
}

#[test]
fn reversing_changes_twice_gives_them_back() {
    let from = Schema {
        enums: vec![EnumType {
            name: "old".to_string(),
            values: vec![],
        }],
        tables: vec![Table::new("a")],
        ..Schema::new("public")
    };
    let to = Schema {
        tables: vec![
            Table {
                columns: vec![Column {
                    name: "x".to_string(),
                    data_type: DataType::Integer,
                    nullable: true,
                    default: None,
                    auto_increment: false,
                    unsigned: false,
                }],
                indexes: vec![Index {
                    name: Some("ix".to_string()),
                    columns: vec!["x".to_string()],
                    unique: false,
                    index_type: None,
                    predicate: None,
                }],
                ..Table::new("a")
            },
            Table::new("b"),
        ],
        ..Schema::new("public")
    };
    let d = diff(&from, &to);
    // The reverse of each change, in reverse order, written out by hand.
    let mut reversed = Vec::new();
    for c in d.changes.iter().rev() {
        reversed.push(match c {
            Change::AddTable(n) => Change::DropTable(n.clone()),
            Change::DropTable(n) => Change::AddTable(n.clone()),
            Change::AddColumn { table, column } => Change::DropColumn {
                table: table.clone(),
                column: column.clone(),
            },
            Change::AddIndex { table, index } => Change::DropIndex {
                table: table.clone(),
                index: index.clone(),
            },
            Change::DropEnum { name } => Change::AddEnum { name: name.clone() },
            other => panic!("unexpected change {other:?}"),
        });
    }
    let back = SchemaDiff { changes: reversed };
    // Undoing `back` redoes `d`, with the phases in rollback order.
    assert_eq!(
        generate_rollback(&back, &to, Engine::Postgres),
        vec![
            "CREATE TABLE \"b\" (\n\n);",
            "ALTER TABLE \"a\" ADD COLUMN \"x\" INTEGER;",
            "CREATE INDEX \"ix\" ON \"a\" (\"x\");",
            "DROP TYPE \"old\";",
        ]
    );
    assert_eq!(
        generate_forward(&d, &to, Engine::Postgres),
        vec![
            "DROP TYPE \"old\";",
            "CREATE TABLE \"b\" (\n\n);",
            "ALTER TABLE \"a\" ADD COLUMN \"x\" INTEGER;",
            "CREATE INDEX \"ix\" ON \"a\" (\"x\");",
        ]
    );
}

#[test]
fn rollback_undoes_forward_in_reverse_order() {
    let d = SchemaDiff {
        changes: vec![
            Change::AddEnum {
                name: "mood".to_string(),
            },
            Change::AddTable("t".to_string()),
        ],
    };
    assert_eq!(
        generate_rollback(&d, &Schema::new("public"), Engine::Postgres),
        vec!["DROP TABLE \"t\";", "DROP TYPE \"mood\";"]
    );
}

#[test]
fn rollback_drops_everything_added() {
    let d = SchemaDiff {
        changes: vec![
            Change::AddColumn {
                table: "t".to_string(),
                column: "c".to_string(),
            },
            Change::AddIndex {
                table: "t".to_string(),
                index: "ix".to_string(),
            },
            Change::AddForeignKey {
                table: "t".to_string(),
                name: "fk".to_string(),
            },
        ],
    };
    let pg = generate_rollback(&d, &Schema::new("public"), Engine::Postgres);
    assert_eq!(
        pg,
        vec![
            "ALTER TABLE \"t\" DROP CONSTRAINT \"fk\";",
            "DROP INDEX \"ix\";",
            "ALTER TABLE \"t\" DROP COLUMN \"c\";",
        ]
    );
    let my = generate_rollback(&d, &Schema::new("public"), Engine::Mysql);
    assert!(my.contains(&"ALTER TABLE `t` DROP FOREIGN KEY `fk`;".to_string()));
}

#[test]
fn sources_grouped_by_schema_in_first_order() {
    let schemas = vec![
        "public".to_string(),
        "audit".to_string(),
        "public".to_string(),
        "public".to_string(),
    ];
    assert_eq!(
        sources_by_schema(&schemas),
        vec![("public".to_string(), 3), ("audit".to_string(), 1)]
    );
    assert!(sources_by_schema(&vec![]).is_empty());
}
