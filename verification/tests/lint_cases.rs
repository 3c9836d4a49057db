use dbhelper::lint::{
    is_snake_case, lint, lint_default, table_indexed_columns_set, EnumTooManyValues, LintConfig,
    LintRule, MissingPrimaryKey, NamingConvention, Severity,
};
use dbhelper::schema::{
    Column, DataType, EnumType, ForeignKey, ForeignKeyAction, Index, PrimaryKey, Schema, Table,
};

fn plain_column(name: &str, data_type: DataType) -> Column {
    Column {
        name: name.to_string(),
        data_type,
        nullable: false,
        default: None,
        auto_increment: false,
        unsigned: false,
    }
}

const ALL_RULES: [&str; 10] = [
    "missing-primary-key",
    "missing-fk-index",
    "nullable-unique",
    "unbounded-text",
    "fk-no-action",
    "naming-convention",
    "duplicate-index",
    "enum-too-many-values",
    "missing-timestamps",
    "boolean-index",
];

fn busy_schema() -> Schema {
    Schema {
        enums: vec![EnumType {
            name: "BigEnum".to_string(),
            values: vec!["a".to_string(), "b".to_string()],
        }],
        tables: vec![Table {
            columns: vec![
                plain_column("Bio", DataType::Text),
                plain_column("flag", DataType::Boolean),
            ],
            foreign_keys: vec![ForeignKey {
                name: None,
                columns: vec!["org_id".to_string()],
                referenced_table: "orgs".to_string(),
                referenced_schema: None,
                referenced_columns: vec!["id".to_string()],
                on_delete: ForeignKeyAction::NoAction,
                on_update: ForeignKeyAction::NoAction,
            }],
            indexes: vec![Index {
                name: None,
                columns: vec!["flag".to_string()],
                unique: false,
                index_type: None,
                predicate: None,
            }],
            ..Table::new("Users")
        }],
        ..Schema::new("public")
    }
}

#[test]
fn every_rule_disabled_gives_no_warnings() {
    let config = LintConfig {
        disabled_rules: ALL_RULES.iter().map(|r| r.to_string()).collect(),
        require_timestamps: true,
        ..LintConfig::default()
    };
    assert!(lint(&busy_schema(), &config).is_empty());
}

#[test]
fn warnings_only_come_from_enabled_rules() {
    let config = LintConfig {
        disabled_rules: vec!["unbounded-text".to_string(), "naming-convention".to_string()],
        require_timestamps: true,
        ..LintConfig::default()
    };
    let warnings = lint(&busy_schema(), &config);
    assert!(!warnings.is_empty());
    for w in &warnings {
        assert!(ALL_RULES.contains(&w.rule.as_str()));
        assert!(!config.disabled_rules.contains(&w.rule));
    }
}

#[test]
fn warnings_come_in_rule_order_with_messages() {
    let warnings = lint_default(&busy_schema());
    let rules: Vec<&str> = warnings.iter().map(|w| w.rule.as_str()).collect();
    assert_eq!(
        rules,
        vec![
            "missing-primary-key",
            "missing-fk-index",
            "unbounded-text",
            "fk-no-action",
            "naming-convention",
            "naming-convention",
            "boolean-index",
        ]
    );
    assert_eq!(warnings[0].message, "table 'Users' has no primary key");
    assert_eq!(warnings[0].severity, Severity::Error);
    assert_eq!(warnings[0].table, Some("Users".to_string()));
    assert_eq!(
        warnings[1].message,
        "column 'Users.org_id' is a foreign key but has no index"
    );
    assert_eq!(
        warnings[2].message,
        "column 'Users.Bio' uses unbounded text type 'text'; consider varchar with a length limit"
    );
    assert_eq!(
        warnings[3].message,
        "foreign key 'org_id' on table 'Users' has no explicit ON DELETE action (defaults to NO ACTION)"
    );
    assert_eq!(
        warnings[4].message,
        "table name 'Users' does not follow snake_case convention"
    );
    assert_eq!(
        warnings[6].message,
        "index 'unnamed' on table 'Users' indexes boolean column 'flag'; consider a partial index instead"
    );
}

#[test]
fn camel_case_convention_and_threshold() {
    let config = LintConfig {
        naming_convention: "camelCase".to_string(),
        enum_value_threshold: 2,
        ..LintConfig::default()
    };
    let warnings = lint(&busy_schema(), &config);
    let naming: Vec<&String> = warnings
        .iter()
        .filter(|w| w.rule == "naming-convention")
        .map(|w| &w.message)
        .collect();
    assert_eq!(
        naming,
        vec![
            "table name 'Users' does not follow camelCase convention",
            "column name 'Users.Bio' does not follow camelCase convention",
        ]
    );
    assert!(!warnings.iter().any(|w| w.rule == "enum-too-many-values"));
}

#[test]
fn rules_run_on_their_own() {
    let schema = busy_schema();
    let pk = MissingPrimaryKey;
    assert_eq!(pk.name(), "missing-primary-key");
    assert_eq!(pk.check(&schema).len(), 1);
    let naming = NamingConvention {
        convention: "snake_case".to_string(),
    };
    assert_eq!(naming.check(&schema).len(), 2);
    let enums = EnumTooManyValues { threshold: 1 };
    assert_eq!(enums.check(&schema).len(), 1);
    assert!(!enums.description().is_empty());
}

#[test]
fn indexed_columns_are_key_then_index_columns_once() {
    let table = Table {
        primary_key: Some(PrimaryKey {
            name: None,
            columns: vec!["id".to_string(), "org".to_string()],
        }),
        indexes: vec![
            Index {
                name: None,
                columns: vec!["org".to_string(), "email".to_string()],
                unique: false,
                index_type: None,
                predicate: None,
            },
            Index {
                name: None,
                columns: vec!["email".to_string()],
                unique: true,
                index_type: None,
                predicate: None,
            },
        ],
        ..Table::new("t")
    };
    assert_eq!(table_indexed_columns_set(&table), vec!["id", "org", "email"]);
}

#[test]
fn snake_case_edge_cases() {
    assert!(is_snake_case("a1_b2"));
    assert!(!is_snake_case("trailing_"));
    assert!(!is_snake_case("has-dash"));
}

#[test]
fn severity_text() {
    assert_eq!(Severity::Error.to_string(), "error");
    assert_eq!(Severity::Warning.to_string(), "warning");
    assert_eq!(Severity::Info.to_string(), "info");
}

#[test]
fn default_config_uses_documented_defaults() {
    let c = LintConfig::default();
    assert_eq!(c.naming_convention, "snake_case");
    assert_eq!(c.enum_value_threshold, 20);
    let schema = Schema {
        enums: vec![EnumType {
            name: "mood".to_string(),
            values: vec!["happy".to_string(), "sad".to_string()],
        }],
        ..Schema::new("public")
    };
    assert!(!lint_default(&schema)
        .iter()
        .any(|w| w.rule == "enum-too-many-values"));
    let config = LintConfig {
        enum_value_threshold: 0,
        ..LintConfig::default()
    };
    let warnings = lint(&schema, &config);
    assert_eq!(
        warnings[0].message,
        "enum 'mood' has 2 values (threshold: 0); consider using a lookup table"
    );
}

#[test]
fn disabling_rules_filters_the_full_list() {
    let full = lint(&busy_schema(), &LintConfig::default());
    let disabled = vec!["missing-fk-index".to_string(), "boolean-index".to_string()];
    let some = lint(
        &busy_schema(),
        &LintConfig {
            disabled_rules: disabled.clone(),
            ..LintConfig::default()
        },
    );
    let filtered: Vec<(String, String)> = full
        .iter()
        .filter(|w| !disabled.contains(&w.rule))
        .map(|w| (w.rule.clone(), w.message.clone()))
        .collect();
    let got: Vec<(String, String)> = some
        .iter()
        .map(|w| (w.rule.clone(), w.message.clone()))
        .collect();
    assert_eq!(got, filtered);
    assert_eq!(got.len(), full.len() - 2);
}
