use dbhelper::schema::{DataType, ForeignKeyAction, Schema, Table};

#[test]
fn test_schema_new() {
    let schema = Schema::new("public");
    assert_eq!(schema.name, "public");
    assert!(schema.tables.is_empty());
    assert!(schema.enums.is_empty());
}

#[test]
fn test_table_new() {
    let table = Table::new("users");
    assert_eq!(table.name, "users");
    assert!(table.columns.is_empty());
    assert!(table.primary_key.is_none());
}

#[test]
fn test_data_type_display() {
    assert_eq!(DataType::SmallInt.to_string(), "smallint");
    assert_eq!(DataType::Varchar(Some(255)).to_string(), "varchar(255)");
    assert_eq!(
        DataType::Numeric {
            precision: Some(10),
            scale: Some(2)
        }
        .to_string(),
        "numeric(10,2)"
    );
    assert_eq!(
        DataType::Timestamp {
            with_timezone: true,
            precision: None
        }
        .to_string(),
        "timestamp with time zone"
    );
    assert_eq!(
        DataType::Array(Box::new(DataType::Text)).to_string(),
        "text[]"
    );
}

#[test]
fn test_data_type_classification() {
    assert!(DataType::Text.is_text());
    assert!(DataType::Varchar(Some(100)).is_text());
    assert!(!DataType::Integer.is_text());

    assert!(DataType::Integer.is_integer());
    assert!(DataType::BigInt.is_integer());
    assert!(DataType::TinyInt.is_integer());
    assert!(!DataType::Text.is_integer());

    assert!(DataType::Boolean.is_boolean());
    assert!(!DataType::Integer.is_boolean());

    assert!(DataType::Json.is_json());
    assert!(DataType::Jsonb.is_json());

    assert!(DataType::Bytea.is_binary());
    assert!(DataType::Binary(Some(32)).is_binary());
}

#[test]
fn test_foreign_key_action_default() {
    assert_eq!(ForeignKeyAction::default(), ForeignKeyAction::NoAction);
}

#[test]
fn test_foreign_key_action_display() {
    assert_eq!(ForeignKeyAction::Cascade.to_string(), "CASCADE");
    assert_eq!(ForeignKeyAction::SetNull.to_string(), "SET NULL");
}

#[test]
fn data_type_display_covers_sizes_and_defaults() {
    assert_eq!(DataType::Varchar(None).to_string(), "varchar");
    assert_eq!(DataType::Char(Some(36)).to_string(), "char(36)");
    assert_eq!(
        DataType::Numeric {
            precision: Some(12),
            scale: None
        }
        .to_string(),
        "numeric(12)"
    );
    assert_eq!(
        DataType::Timestamp {
            with_timezone: false,
            precision: Some(3)
        }
        .to_string(),
        "timestamp(3)"
    );
    assert_eq!(DataType::Other("geometry".to_string()).to_string(), "geometry");
}

#[test]
fn foreign_key_action_display_all() {
    assert_eq!(ForeignKeyAction::NoAction.to_string(), "NO ACTION");
    assert_eq!(ForeignKeyAction::Restrict.to_string(), "RESTRICT");
    assert_eq!(ForeignKeyAction::SetDefault.to_string(), "SET DEFAULT");
}

#[test]
fn data_type_classification_negatives() {
    assert!(!DataType::Blob.is_text());
    assert!(DataType::MediumText.is_text());
    assert!(DataType::Char(None).is_text());
    assert!(DataType::SmallInt.is_integer());
    assert!(DataType::MediumInt.is_integer());
    assert!(!DataType::Json.is_binary());
    assert!(DataType::VarBinary(None).is_binary());
    assert!(DataType::LongBlob.is_binary());
    assert!(!DataType::Text.is_json());
}

#[test]
fn clones_keep_every_field() {
    let t = Table::new("users");
    let c = t.clone();
    assert_eq!(c.name, "users");
    let d = DataType::Enum {
        name: Some("mood".to_string()),
        values: vec!["happy".to_string()],
    };
    assert_eq!(d.clone(), d);
}
