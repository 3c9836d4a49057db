use dbhelper::lint::{is_camel_case, is_snake_case, lint, LintConfig};
use dbhelper::schema::{
    Column, DataType, EnumType, ForeignKey, ForeignKeyAction, Index, PrimaryKey, Schema, Table,
    UniqueConstraint,
};

fn default_config() -> LintConfig {
    LintConfig::default()
}

fn make_column(name: &str, data_type: DataType) -> Column {
    Column {
        name: name.to_string(),
        data_type,
        nullable: false,
        default: None,
        auto_increment: false,
        unsigned: false,
    }
}

#[test]
fn test_missing_primary_key() {
    let schema = Schema {
        tables: vec![Table::new("users")],
        ..Schema::new("public")
    };
    let warnings = lint(&schema, &default_config());
    assert!(warnings.iter().any(|w| w.rule == "missing-primary-key"));
}

#[test]
fn test_no_warning_with_primary_key() {
    let schema = Schema {
        tables: vec![Table {
            primary_key: Some(PrimaryKey {
                name: None,
                columns: vec!["id".to_string()],
            }),
            ..Table::new("users")
        }],
        ..Schema::new("public")
    };
    let warnings = lint(&schema, &default_config());
    assert!(!warnings.iter().any(|w| w.rule == "missing-primary-key"));
}

#[test]
fn test_missing_fk_index() {
    let schema = Schema {
        tables: vec![Table {
            columns: vec![make_column("org_id", DataType::Integer)],
            foreign_keys: vec![ForeignKey {
                name: Some("fk_org".to_string()),
                columns: vec!["org_id".to_string()],
                referenced_table: "orgs".to_string(),
                referenced_schema: None,
                referenced_columns: vec!["id".to_string()],
                on_delete: ForeignKeyAction::Cascade,
                on_update: ForeignKeyAction::NoAction,
            }],
            ..Table::new("users")
        }],
        ..Schema::new("public")
    };
    let warnings = lint(&schema, &default_config());
    assert!(warnings.iter().any(|w| w.rule == "missing-fk-index"));
}

#[test]
fn test_no_fk_index_warning_when_indexed() {
    let schema = Schema {
        tables: vec![Table {
            columns: vec![make_column("org_id", DataType::Integer)],
            foreign_keys: vec![ForeignKey {
                name: None,
                columns: vec!["org_id".to_string()],
                referenced_table: "orgs".to_string(),
                referenced_schema: None,
                referenced_columns: vec!["id".to_string()],
                on_delete: ForeignKeyAction::Cascade,
                on_update: ForeignKeyAction::NoAction,
            }],
            indexes: vec![Index {
                name: Some("idx_org_id".to_string()),
                columns: vec!["org_id".to_string()],
                unique: false,
                index_type: None,
                predicate: None,
            }],
            ..Table::new("users")
        }],
        ..Schema::new("public")
    };
    let warnings = lint(&schema, &default_config());
    assert!(!warnings.iter().any(|w| w.rule == "missing-fk-index"));
}

#[test]
fn test_nullable_unique() {
    let schema = Schema {
        tables: vec![Table {
            columns: vec![Column {
                nullable: true,
                ..make_column("email", DataType::Text)
            }],
            unique_constraints: vec![UniqueConstraint {
                name: None,
                columns: vec!["email".to_string()],
            }],
            ..Table::new("users")
        }],
        ..Schema::new("public")
    };
    let warnings = lint(&schema, &default_config());
    assert!(warnings.iter().any(|w| w.rule == "nullable-unique"));
}

#[test]
fn test_unbounded_text() {
    let schema = Schema {
        tables: vec![Table {
            columns: vec![make_column("bio", DataType::Text)],
            ..Table::new("users")
        }],
        ..Schema::new("public")
    };
    let warnings = lint(&schema, &default_config());
    assert!(warnings.iter().any(|w| w.rule == "unbounded-text"));
}

#[test]
fn test_fk_no_action() {
    let schema = Schema {
        tables: vec![Table {
            foreign_keys: vec![ForeignKey {
                name: Some("fk_org".to_string()),
                columns: vec!["org_id".to_string()],
                referenced_table: "orgs".to_string(),
                referenced_schema: None,
                referenced_columns: vec!["id".to_string()],
                on_delete: ForeignKeyAction::NoAction,
                on_update: ForeignKeyAction::NoAction,
            }],
            ..Table::new("users")
        }],
        ..Schema::new("public")
    };
    let warnings = lint(&schema, &default_config());
    assert!(warnings.iter().any(|w| w.rule == "fk-no-action"));
}

#[test]
fn test_naming_convention_snake_case() {
    let schema = Schema {
        tables: vec![Table::new("UserAccounts")],
        ..Schema::new("public")
    };
    let warnings = lint(&schema, &default_config());
    assert!(warnings.iter().any(|w| w.rule == "naming-convention"));
}

#[test]
fn test_naming_convention_passes() {
    let schema = Schema {
        tables: vec![Table {
            columns: vec![make_column("first_name", DataType::Text)],
            ..Table::new("users")
        }],
        ..Schema::new("public")
    };
    let warnings = lint(&schema, &default_config());
    assert!(!warnings.iter().any(|w| w.rule == "naming-convention"));
}

#[test]
fn test_duplicate_index() {
    let idx = Index {
        name: Some("idx_a".to_string()),
        columns: vec!["email".to_string()],
        unique: false,
        index_type: None,
        predicate: None,
    };
    let idx2 = Index {
        name: Some("idx_b".to_string()),
        ..idx.clone()
    };
    let schema = Schema {
        tables: vec![Table {
            indexes: vec![idx, idx2],
            ..Table::new("users")
        }],
        ..Schema::new("public")
    };
    let warnings = lint(&schema, &default_config());
    assert!(warnings.iter().any(|w| w.rule == "duplicate-index"));
}

#[test]
fn test_enum_too_many_values() {
    let schema = Schema {
        enums: vec![EnumType {
            name: "big_enum".to_string(),
            values: (0..25).map(|i| format!("val_{i}")).collect(),
        }],
        ..Schema::new("public")
    };
    let warnings = lint(&schema, &default_config());
    assert!(warnings.iter().any(|w| w.rule == "enum-too-many-values"));
}

#[test]
fn test_missing_timestamps_disabled_by_default() {
    let schema = Schema {
        tables: vec![Table::new("users")],
        ..Schema::new("public")
    };
    let warnings = lint(&schema, &default_config());
    assert!(!warnings.iter().any(|w| w.rule == "missing-timestamps"));
}

#[test]
fn test_missing_timestamps_enabled() {
    let schema = Schema {
        tables: vec![Table::new("users")],
        ..Schema::new("public")
    };
    let config = LintConfig {
        require_timestamps: true,
        ..default_config()
    };
    let warnings = lint(&schema, &config);
    let ts_warnings: Vec<_> = warnings
        .iter()
        .filter(|w| w.rule == "missing-timestamps")
        .collect();
    assert_eq!(ts_warnings.len(), 2); // missing both created_at and updated_at
}

#[test]
fn test_boolean_index() {
    let schema = Schema {
        tables: vec![Table {
            columns: vec![make_column("is_active", DataType::Boolean)],
            indexes: vec![Index {
                name: Some("idx_active".to_string()),
                columns: vec!["is_active".to_string()],
                unique: false,
                index_type: None,
                predicate: None,
            }],
            ..Table::new("users")
        }],
        ..Schema::new("public")
    };
    let warnings = lint(&schema, &default_config());
    assert!(warnings.iter().any(|w| w.rule == "boolean-index"));
}

#[test]
fn test_disabled_rule() {
    let schema = Schema {
        tables: vec![Table::new("users")],
        ..Schema::new("public")
    };
    let config = LintConfig {
        disabled_rules: vec!["missing-primary-key".to_string()],
        ..default_config()
    };
    let warnings = lint(&schema, &config);
    assert!(!warnings.iter().any(|w| w.rule == "missing-primary-key"));
}

#[test]
fn test_is_snake_case() {
    assert!(is_snake_case("user_accounts"));
    assert!(is_snake_case("users"));
    assert!(is_snake_case("id"));
    assert!(!is_snake_case("UserAccounts"));
    assert!(!is_snake_case("user__accounts"));
    assert!(!is_snake_case("_users"));
    assert!(!is_snake_case(""));
}

#[test]
fn test_is_camel_case() {
    assert!(is_camel_case("userAccounts"));
    assert!(is_camel_case("users"));
    assert!(!is_camel_case("UserAccounts"));
    assert!(!is_camel_case("user_accounts"));
    assert!(!is_camel_case(""));
}
