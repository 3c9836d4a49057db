//! Database-agnostic schema representation and its mathematical model.
use vstd::prelude::*;
use crate::text::{
    chars_eq, copy_opt_string, copy_strings, decimal, first_true, join, join_strings,
    lemma_first_true, opt_int, str_to_chars, u32_to_string,
};

verus! {

// ---------------------------------------------------------------------------
// Models
// ---------------------------------------------------------------------------

pub enum DataTypeV {
    SmallInt,
    Integer,
    BigInt,
    Real,
    DoublePrecision,
    Numeric { precision: Option<u32>, scale: Option<u32> },
    Varchar(Option<u32>),
    Char(Option<u32>),
    Text,
    MediumText,
    LongText,
    Boolean,
    Date,
    Time,
    Timestamp { with_timezone: bool, precision: Option<u32> },
    DateTime { precision: Option<u32> },
    Interval,
    Uuid,
    Json,
    Jsonb,
    Bytea,
    Binary(Option<u32>),
    VarBinary(Option<u32>),
    Blob,
    MediumBlob,
    LongBlob,
    Inet,
    Cidr,
    MacAddr,
    Enum { name: Option<Seq<char>>, values: Seq<Seq<char>> },
    SetOf(Seq<Seq<char>>),
    Array(Box<DataTypeV>),
    TinyInt,
    MediumInt,
    Year,
    Other(Seq<char>),
}

pub enum ColumnDefaultV {
    Literal(Seq<char>),
    Expression(Seq<char>),
}

pub struct ColumnV {
    pub name: Seq<char>,
    pub data_type: DataTypeV,
    pub nullable: bool,
    pub default: Option<ColumnDefaultV>,
    pub auto_increment: bool,
    pub unsigned: bool,
}

pub struct PrimaryKeyV {
    pub name: Option<Seq<char>>,
    pub columns: Seq<Seq<char>>,
}

pub struct ForeignKeyV {
    pub name: Option<Seq<char>>,
    pub columns: Seq<Seq<char>>,
    pub referenced_table: Seq<char>,
    pub referenced_schema: Option<Seq<char>>,
    pub referenced_columns: Seq<Seq<char>>,
    pub on_delete: ForeignKeyAction,
    pub on_update: ForeignKeyAction,
}

pub struct IndexV {
    pub name: Option<Seq<char>>,
    pub columns: Seq<Seq<char>>,
    pub unique: bool,
    pub index_type: Option<Seq<char>>,
    pub predicate: Option<Seq<char>>,
}

pub struct CheckConstraintV {
    pub name: Option<Seq<char>>,
    pub expression: Seq<char>,
}

pub struct UniqueConstraintV {
    pub name: Option<Seq<char>>,
    pub columns: Seq<Seq<char>>,
}

pub struct TableOptionsV {
    pub engine: Option<Seq<char>>,
    pub charset: Option<Seq<char>>,
    pub collation: Option<Seq<char>>,
}

pub struct TableV {
    pub name: Seq<char>,
    pub columns: Seq<ColumnV>,
    pub primary_key: Option<PrimaryKeyV>,
    pub foreign_keys: Seq<ForeignKeyV>,
    pub indexes: Seq<IndexV>,
    pub check_constraints: Seq<CheckConstraintV>,
    pub unique_constraints: Seq<UniqueConstraintV>,
    pub options: TableOptionsV,
}

pub struct EnumTypeV {
    pub name: Seq<char>,
    pub values: Seq<Seq<char>>,
}

pub struct SchemaV {
    pub name: Seq<char>,
    pub enums: Seq<EnumTypeV>,
    pub tables: Seq<TableV>,
}

/// An empty table with the given name.
pub open spec fn empty_table(name: Seq<char>) -> TableV {
    TableV {
        name,
        columns: seq![],
        primary_key: None,
        foreign_keys: seq![],
        indexes: seq![],
        check_constraints: seq![],
        unique_constraints: seq![],
        options: TableOptionsV { engine: None, charset: None, collation: None },
    }
}

// ---------------------------------------------------------------------------
// Executable types
// ---------------------------------------------------------------------------

/// Database-agnostic representation of a schema (namespace).
#[derive(Debug, PartialEq, Eq)]
pub struct Schema {
    /// Schema/namespace name (e.g. "public", "analytics").
    pub name: String,
    /// Named enum types defined in this schema (Postgres CREATE TYPE).
    pub enums: Vec<EnumType>,
    /// Tables in this schema.
    pub tables: Vec<Table>,
}

/// A named enum type (Postgres `CREATE TYPE ... AS ENUM`).
/// MySQL inline ENUMs are represented as `DataType::Enum` on the column.
#[derive(Debug, PartialEq, Eq, Hash)]
pub struct EnumType {
    pub name: String,
    pub values: Vec<String>,
}

#[derive(Debug, PartialEq, Eq)]
pub struct Table {
    pub name: String,
    pub columns: Vec<Column>,
    pub primary_key: Option<PrimaryKey>,
    pub foreign_keys: Vec<ForeignKey>,
    pub indexes: Vec<Index>,
    pub check_constraints: Vec<CheckConstraint>,
    pub unique_constraints: Vec<UniqueConstraint>,
    /// Table-level options (e.g. MySQL engine, charset).
    pub options: TableOptions,
}

#[derive(Debug, PartialEq, Eq)]
pub struct Column {
    pub name: String,
    pub data_type: DataType,
    pub nullable: bool,
    pub default: Option<ColumnDefault>,
    /// Whether this column auto-increments (serial, auto_increment, identity).
    pub auto_increment: bool,
    /// Whether this is an unsigned integer (MySQL).
    pub unsigned: bool,
}

/// Column default value — either a literal or a SQL expression.
#[derive(Debug, PartialEq, Eq, Hash)]
pub enum ColumnDefault {
    /// A literal value (string, number, boolean).
    Literal(String),
    /// A SQL expression (e.g. `gen_random_uuid()`, `now()`, `CURRENT_TIMESTAMP`).
    Expression(String),
}

/// Database-agnostic data types covering Postgres and MySQL.
#[derive(Debug, PartialEq, Eq, Hash)]
pub enum DataType {
    SmallInt,
    Integer,
    BigInt,
    Real,
    DoublePrecision,
    Numeric { precision: Option<u32>, scale: Option<u32> },
    Varchar(Option<u32>),
    Char(Option<u32>),
    Text,
    /// MySQL MEDIUMTEXT
    MediumText,
    /// MySQL LONGTEXT
    LongText,
    Boolean,
    Date,
    Time,
    /// Timestamp with optional fractional seconds precision.
    Timestamp { with_timezone: bool, precision: Option<u32> },
    /// Date+time without timezone (MySQL DATETIME).
    DateTime { precision: Option<u32> },
    /// Postgres INTERVAL type.
    Interval,
    Uuid,
    Json,
    Jsonb,
    Bytea,
    Binary(Option<u32>),
    VarBinary(Option<u32>),
    Blob,
    MediumBlob,
    LongBlob,
    Inet,
    Cidr,
    MacAddr,
    /// Named (Postgres) or inline (MySQL) enum.
    Enum { name: Option<String>, values: Vec<String> },
    /// MySQL SET type
    SetOf(Vec<String>),
    /// Array type (Postgres)
    Array(Box<DataType>),
    TinyInt,
    MediumInt,
    /// MySQL YEAR type
    Year,
    /// Fallback for unrecognized types.
    Other(String),
}

/// Primary key constraint.
#[derive(Debug, PartialEq, Eq, Hash)]
pub struct PrimaryKey {
    pub name: Option<String>,
    /// Column names in the primary key (single or composite).
    pub columns: Vec<String>,
}

/// Foreign key constraint.
#[derive(Debug, PartialEq, Eq, Hash)]
pub struct ForeignKey {
    pub name: Option<String>,
    /// Columns in the referencing (child) table.
    pub columns: Vec<String>,
    /// Referenced table name.
    pub referenced_table: String,
    /// Referenced schema (if cross-schema reference).
    pub referenced_schema: Option<String>,
    /// Columns in the referenced (parent) table.
    pub referenced_columns: Vec<String>,
    pub on_delete: ForeignKeyAction,
    pub on_update: ForeignKeyAction,
}

/// Foreign key referential action.
#[derive(Debug, Clone, Copy, PartialEq, Eq, Hash, Structural)]
pub enum ForeignKeyAction {
    NoAction,
    Restrict,
    Cascade,
    SetNull,
    SetDefault,
}

#[derive(Debug, PartialEq, Eq, Hash)]
pub struct Index {
    pub name: Option<String>,
    pub columns: Vec<String>,
    pub unique: bool,
    /// Index type (btree, hash, gin, gist, etc.).
    pub index_type: Option<String>,
    /// Partial index predicate (Postgres WHERE clause).
    pub predicate: Option<String>,
}

/// CHECK constraint.
#[derive(Debug, PartialEq, Eq, Hash)]
pub struct CheckConstraint {
    pub name: Option<String>,
    /// The SQL expression for the check.
    pub expression: String,
}

/// UNIQUE constraint (table-level, distinct from unique indexes).
#[derive(Debug, PartialEq, Eq, Hash)]
pub struct UniqueConstraint {
    pub name: Option<String>,
    pub columns: Vec<String>,
}

/// Table-level options (primarily for MySQL).
#[derive(Debug, PartialEq, Eq)]
pub struct TableOptions {
    /// MySQL storage engine (InnoDB, MyISAM, etc.).
    pub engine: Option<String>,
    /// MySQL default charset.
    pub charset: Option<String>,
    /// MySQL default collation.
    pub collation: Option<String>,
}

// ---------------------------------------------------------------------------
// Views
// ---------------------------------------------------------------------------

pub open spec fn data_type_view(d: DataType) -> DataTypeV
    decreases d,
{
    match d {
        DataType::SmallInt => DataTypeV::SmallInt,
        DataType::Integer => DataTypeV::Integer,
        DataType::BigInt => DataTypeV::BigInt,
        DataType::Real => DataTypeV::Real,
        DataType::DoublePrecision => DataTypeV::DoublePrecision,
        DataType::Numeric { precision, scale } => DataTypeV::Numeric { precision, scale },
        DataType::Varchar(n) => DataTypeV::Varchar(n),
        DataType::Char(n) => DataTypeV::Char(n),
        DataType::Text => DataTypeV::Text,
        DataType::MediumText => DataTypeV::MediumText,
        DataType::LongText => DataTypeV::LongText,
        DataType::Boolean => DataTypeV::Boolean,
        DataType::Date => DataTypeV::Date,
        DataType::Time => DataTypeV::Time,
        DataType::Timestamp { with_timezone, precision } => DataTypeV::Timestamp {
            with_timezone,
            precision,
        },
        DataType::DateTime { precision } => DataTypeV::DateTime { precision },
        DataType::Interval => DataTypeV::Interval,
        DataType::Uuid => DataTypeV::Uuid,
        DataType::Json => DataTypeV::Json,
        DataType::Jsonb => DataTypeV::Jsonb,
        DataType::Bytea => DataTypeV::Bytea,
        DataType::Binary(n) => DataTypeV::Binary(n),
        DataType::VarBinary(n) => DataTypeV::VarBinary(n),
        DataType::Blob => DataTypeV::Blob,
        DataType::MediumBlob => DataTypeV::MediumBlob,
        DataType::LongBlob => DataTypeV::LongBlob,
        DataType::Inet => DataTypeV::Inet,
        DataType::Cidr => DataTypeV::Cidr,
        DataType::MacAddr => DataTypeV::MacAddr,
        DataType::Enum { name, values } => DataTypeV::Enum {
            name: name.deep_view(),
            values: values.deep_view(),
        },
        DataType::SetOf(values) => DataTypeV::SetOf(values.deep_view()),
        DataType::Array(inner) => DataTypeV::Array(Box::new(data_type_view(*inner))),
        DataType::TinyInt => DataTypeV::TinyInt,
        DataType::MediumInt => DataTypeV::MediumInt,
        DataType::Year => DataTypeV::Year,
        DataType::Other(s) => DataTypeV::Other(s@),
    }
}

impl View for DataType {
    type V = DataTypeV;

    open spec fn view(&self) -> DataTypeV {
        data_type_view(*self)
    }
}

impl DeepView for DataType {
    type V = DataTypeV;

    open spec fn deep_view(&self) -> DataTypeV {
        self@
    }
}

impl View for ColumnDefault {
    type V = ColumnDefaultV;

    open spec fn view(&self) -> ColumnDefaultV {
        match self {
            ColumnDefault::Literal(s) => ColumnDefaultV::Literal(s@),
            ColumnDefault::Expression(s) => ColumnDefaultV::Expression(s@),
        }
    }
}

impl DeepView for ColumnDefault {
    type V = ColumnDefaultV;

    open spec fn deep_view(&self) -> ColumnDefaultV {
        self@
    }
}

impl View for Column {
    type V = ColumnV;

    open spec fn view(&self) -> ColumnV {
        ColumnV {
            name: self.name@,
            data_type: self.data_type@,
            nullable: self.nullable,
            default: self.default.deep_view(),
            auto_increment: self.auto_increment,
            unsigned: self.unsigned,
        }
    }
}

impl DeepView for Column {
    type V = ColumnV;

    open spec fn deep_view(&self) -> ColumnV {
        self@
    }
}

impl View for PrimaryKey {
    type V = PrimaryKeyV;

    open spec fn view(&self) -> PrimaryKeyV {
        PrimaryKeyV { name: self.name.deep_view(), columns: self.columns.deep_view() }
    }
}

impl DeepView for PrimaryKey {
    type V = PrimaryKeyV;

    open spec fn deep_view(&self) -> PrimaryKeyV {
        self@
    }
}

impl View for ForeignKey {
    type V = ForeignKeyV;

    open spec fn view(&self) -> ForeignKeyV {
        ForeignKeyV {
            name: self.name.deep_view(),
            columns: self.columns.deep_view(),
            referenced_table: self.referenced_table@,
            referenced_schema: self.referenced_schema.deep_view(),
            referenced_columns: self.referenced_columns.deep_view(),
            on_delete: self.on_delete,
            on_update: self.on_update,
        }
    }
}

impl DeepView for ForeignKey {
    type V = ForeignKeyV;

    open spec fn deep_view(&self) -> ForeignKeyV {
        self@
    }
}

impl View for Index {
    type V = IndexV;

    open spec fn view(&self) -> IndexV {
        IndexV {
            name: self.name.deep_view(),
            columns: self.columns.deep_view(),
            unique: self.unique,
            index_type: self.index_type.deep_view(),
            predicate: self.predicate.deep_view(),
        }
    }
}

impl DeepView for Index {
    type V = IndexV;

    open spec fn deep_view(&self) -> IndexV {
        self@
    }
}

impl View for CheckConstraint {
    type V = CheckConstraintV;

    open spec fn view(&self) -> CheckConstraintV {
        CheckConstraintV { name: self.name.deep_view(), expression: self.expression@ }
    }
}

impl DeepView for CheckConstraint {
    type V = CheckConstraintV;

    open spec fn deep_view(&self) -> CheckConstraintV {
        self@
    }
}

impl View for UniqueConstraint {
    type V = UniqueConstraintV;

    open spec fn view(&self) -> UniqueConstraintV {
        UniqueConstraintV { name: self.name.deep_view(), columns: self.columns.deep_view() }
    }
}

impl DeepView for UniqueConstraint {
    type V = UniqueConstraintV;

    open spec fn deep_view(&self) -> UniqueConstraintV {
        self@
    }
}

impl View for TableOptions {
    type V = TableOptionsV;

    open spec fn view(&self) -> TableOptionsV {
        TableOptionsV {
            engine: self.engine.deep_view(),
            charset: self.charset.deep_view(),
            collation: self.collation.deep_view(),
        }
    }
}

impl View for Table {
    type V = TableV;

    open spec fn view(&self) -> TableV {
        TableV {
            name: self.name@,
            columns: self.columns.deep_view(),
            primary_key: self.primary_key.deep_view(),
            foreign_keys: self.foreign_keys.deep_view(),
            indexes: self.indexes.deep_view(),
            check_constraints: self.check_constraints.deep_view(),
            unique_constraints: self.unique_constraints.deep_view(),
            options: self.options@,
        }
    }
}

impl DeepView for Table {
    type V = TableV;

    open spec fn deep_view(&self) -> TableV {
        self@
    }
}

impl View for EnumType {
    type V = EnumTypeV;

    open spec fn view(&self) -> EnumTypeV {
        EnumTypeV { name: self.name@, values: self.values.deep_view() }
    }
}

impl DeepView for EnumType {
    type V = EnumTypeV;

    open spec fn deep_view(&self) -> EnumTypeV {
        self@
    }
}

impl View for Schema {
    type V = SchemaV;

    open spec fn view(&self) -> SchemaV {
        SchemaV {
            name: self.name@,
            enums: self.enums.deep_view(),
            tables: self.tables.deep_view(),
        }
    }
}

// ---------------------------------------------------------------------------
// Constructors
// ---------------------------------------------------------------------------

impl Schema {
    /// Create a new empty schema with the given name.
    pub fn new(name: &str) -> (r: Self)
        ensures
            r@ == (SchemaV { name: name@, enums: seq![], tables: seq![] }),
    {
        let r = Schema { name: name.to_owned(), enums: Vec::new(), tables: Vec::new() };
        assert(r.enums.deep_view() =~= seq![]);
        assert(r.tables.deep_view() =~= seq![]);
        r
    }
}

impl Table {
    /// Create a new table with the given name and no columns/constraints.
    pub fn new(name: &str) -> (r: Self)
        ensures
            r@ == empty_table(name@),
    {
        let r = Table {
            name: name.to_owned(),
            columns: Vec::new(),
            primary_key: None,
            foreign_keys: Vec::new(),
            indexes: Vec::new(),
            check_constraints: Vec::new(),
            unique_constraints: Vec::new(),
            options: TableOptions::default(),
        };
        assert(r.columns.deep_view() =~= seq![]);
        assert(r.foreign_keys.deep_view() =~= seq![]);
        assert(r.indexes.deep_view() =~= seq![]);
        assert(r.check_constraints.deep_view() =~= seq![]);
        assert(r.unique_constraints.deep_view() =~= seq![]);
        r
    }
}

impl Default for TableOptions {
    fn default() -> (r: Self)
        ensures
            r@ == (TableOptionsV { engine: None, charset: None, collation: None }),
    {
        TableOptions { engine: None, charset: None, collation: None }
    }
}

impl Default for ForeignKeyAction {
    fn default() -> (r: Self)
        ensures
            r == ForeignKeyAction::NoAction,
    {
        ForeignKeyAction::NoAction
    }
}

// ---------------------------------------------------------------------------
// Classification
// ---------------------------------------------------------------------------

pub open spec fn is_text_type(d: DataTypeV) -> bool {
    ||| d is Text
    ||| d is MediumText
    ||| d is LongText
    ||| d is Varchar
    ||| d is Char
}

pub open spec fn is_integer_type(d: DataTypeV) -> bool {
    ||| d is SmallInt
    ||| d is Integer
    ||| d is BigInt
    ||| d is TinyInt
    ||| d is MediumInt
}

pub open spec fn is_binary_type(d: DataTypeV) -> bool {
    ||| d is Bytea
    ||| d is Binary
    ||| d is VarBinary
    ||| d is Blob
    ||| d is MediumBlob
    ||| d is LongBlob
}

impl DataType {
    /// Returns true if this is a text/string type.
    pub fn is_text(&self) -> (r: bool)
        ensures
            r == is_text_type(self@),
    {
        match self {
            DataType::Text | DataType::MediumText | DataType::LongText | DataType::Varchar(_)
            | DataType::Char(_) => true,
            _ => false,
        }
    }

    /// Returns true if this is a boolean type.
    pub fn is_boolean(&self) -> (r: bool)
        ensures
            r == (self@ is Boolean),
    {
        match self {
            DataType::Boolean => true,
            _ => false,
        }
    }

    /// Returns true if this is an integer type.
    pub fn is_integer(&self) -> (r: bool)
        ensures
            r == is_integer_type(self@),
    {
        match self {
            DataType::SmallInt | DataType::Integer | DataType::BigInt | DataType::TinyInt
            | DataType::MediumInt => true,
            _ => false,
        }
    }

    /// Returns true if this is a JSON/JSONB type.
    pub fn is_json(&self) -> (r: bool)
        ensures
            r == (self@ is Json || self@ is Jsonb),
    {
        match self {
            DataType::Json | DataType::Jsonb => true,
            _ => false,
        }
    }

    /// Returns true if this is a binary/blob type.
    pub fn is_binary(&self) -> (r: bool)
        ensures
            r == is_binary_type(self@),
    {
        match self {
            DataType::Bytea | DataType::Binary(_) | DataType::VarBinary(_) | DataType::Blob
            | DataType::MediumBlob | DataType::LongBlob => true,
            _ => false,
        }
    }
}


// ---------------------------------------------------------------------------
// Display form of data types
// ---------------------------------------------------------------------------

pub open spec fn opt_len_suffix(n: Option<u32>) -> Seq<char> {
    match n {
        Some(v) => "("@ + decimal(v as nat) + ")"@,
        None => seq![],
    }
}

/// Lower-case display form of a data type (as `Display for DataType`).
pub open spec fn display(d: DataTypeV) -> Seq<char>
    decreases d,
{
    match d {
        DataTypeV::SmallInt => "smallint"@,
        DataTypeV::Integer => "integer"@,
        DataTypeV::BigInt => "bigint"@,
        DataTypeV::TinyInt => "tinyint"@,
        DataTypeV::MediumInt => "mediumint"@,
        DataTypeV::Real => "real"@,
        DataTypeV::DoublePrecision => "double precision"@,
        DataTypeV::Numeric { precision, scale } => match (precision, scale) {
            (Some(p), Some(s)) => "numeric("@ + decimal(p as nat) + ","@ + decimal(s as nat)
                + ")"@,
            (Some(p), None) => "numeric("@ + decimal(p as nat) + ")"@,
            _ => "numeric"@,
        },
        DataTypeV::Varchar(n) => "varchar"@ + opt_len_suffix(n),
        DataTypeV::Char(n) => "char"@ + opt_len_suffix(n),
        DataTypeV::Text => "text"@,
        DataTypeV::MediumText => "mediumtext"@,
        DataTypeV::LongText => "longtext"@,
        DataTypeV::Boolean => "boolean"@,
        DataTypeV::Date => "date"@,
        DataTypeV::Time => "time"@,
        DataTypeV::Timestamp { with_timezone, precision } => "timestamp"@ + opt_len_suffix(
            precision,
        ) + if with_timezone {
            " with time zone"@
        } else {
            seq![]
        },
        DataTypeV::DateTime { precision } => "datetime"@ + opt_len_suffix(precision),
        DataTypeV::Interval => "interval"@,
        DataTypeV::Uuid => "uuid"@,
        DataTypeV::Json => "json"@,
        DataTypeV::Jsonb => "jsonb"@,
        DataTypeV::Bytea => "bytea"@,
        DataTypeV::Binary(n) => "binary"@ + opt_len_suffix(n),
        DataTypeV::VarBinary(n) => "varbinary"@ + opt_len_suffix(n),
        DataTypeV::Blob => "blob"@,
        DataTypeV::MediumBlob => "mediumblob"@,
        DataTypeV::LongBlob => "longblob"@,
        DataTypeV::Inet => "inet"@,
        DataTypeV::Cidr => "cidr"@,
        DataTypeV::MacAddr => "macaddr"@,
        DataTypeV::Enum { name, .. } => match name {
            Some(n) => n,
            None => "enum"@,
        },
        DataTypeV::SetOf(values) => "set("@ + join(values, ","@) + ")"@,
        DataTypeV::Array(inner) => display(*inner) + "[]"@,
        DataTypeV::Year => "year"@,
        DataTypeV::Other(s) => s,
    }
}

fn append_opt_len_suffix(s: &mut String, n: Option<u32>)
    ensures
        final(s)@ == old(s)@ + opt_len_suffix(n),
{
    match n {
        Some(v) => {
            s.append("(");
            s.append(u32_to_string(v).as_str());
            s.append(")");
        },
        None => {
            assert(old(s)@ + seq![] =~= old(s)@);
        },
    }
}

impl DataType {
    /// Display form of this data type (e.g. `varchar(255)`, `text[]`).
    pub fn to_string(&self) -> (r: String)
        ensures
            r@ == display(self@),
        decreases self,
    {
        match self {
            DataType::SmallInt => String::from_str("smallint"),
            DataType::Integer => String::from_str("integer"),
            DataType::BigInt => String::from_str("bigint"),
            DataType::TinyInt => String::from_str("tinyint"),
            DataType::MediumInt => String::from_str("mediumint"),
            DataType::Real => String::from_str("real"),
            DataType::DoublePrecision => String::from_str("double precision"),
            DataType::Numeric { precision, scale } => match (precision, scale) {
                (Some(p), Some(sc)) => {
                    let mut r = String::from_str("numeric(");
                    r.append(u32_to_string(*p).as_str());
                    r.append(",");
                    r.append(u32_to_string(*sc).as_str());
                    r.append(")");
                    r
                },
                (Some(p), None) => {
                    let mut r = String::from_str("numeric(");
                    r.append(u32_to_string(*p).as_str());
                    r.append(")");
                    r
                },
                _ => String::from_str("numeric"),
            },
            DataType::Varchar(n) => {
                let mut r = String::from_str("varchar");
                append_opt_len_suffix(&mut r, *n);
                r
            },
            DataType::Char(n) => {
                let mut r = String::from_str("char");
                append_opt_len_suffix(&mut r, *n);
                r
            },
            DataType::Text => String::from_str("text"),
            DataType::MediumText => String::from_str("mediumtext"),
            DataType::LongText => String::from_str("longtext"),
            DataType::Boolean => String::from_str("boolean"),
            DataType::Date => String::from_str("date"),
            DataType::Time => String::from_str("time"),
            DataType::Timestamp { with_timezone, precision } => {
                let mut r = String::from_str("timestamp");
                append_opt_len_suffix(&mut r, *precision);
                if *with_timezone {
                    r.append(" with time zone");
                } else {
                    assert(r@ + seq![] =~= r@);
                }
                r
            },
            DataType::DateTime { precision } => {
                let mut r = String::from_str("datetime");
                append_opt_len_suffix(&mut r, *precision);
                r
            },
            DataType::Interval => String::from_str("interval"),
            DataType::Uuid => String::from_str("uuid"),
            DataType::Json => String::from_str("json"),
            DataType::Jsonb => String::from_str("jsonb"),
            DataType::Bytea => String::from_str("bytea"),
            DataType::Binary(n) => {
                let mut r = String::from_str("binary");
                append_opt_len_suffix(&mut r, *n);
                r
            },
            DataType::VarBinary(n) => {
                let mut r = String::from_str("varbinary");
                append_opt_len_suffix(&mut r, *n);
                r
            },
            DataType::Blob => String::from_str("blob"),
            DataType::MediumBlob => String::from_str("mediumblob"),
            DataType::LongBlob => String::from_str("longblob"),
            DataType::Inet => String::from_str("inet"),
            DataType::Cidr => String::from_str("cidr"),
            DataType::MacAddr => String::from_str("macaddr"),
            DataType::Enum { name, .. } => match name {
                Some(n) => n.clone(),
                None => String::from_str("enum"),
            },
            DataType::SetOf(values) => {
                let mut r = String::from_str("set(");
                r.append(join_strings(values, ",").as_str());
                r.append(")");
                r
            },
            DataType::Array(inner) => {
                let mut r = inner.to_string();
                r.append("[]");
                r
            },
            DataType::Year => String::from_str("year"),
            DataType::Other(s) => s.clone(),
        }
    }
}

// ---------------------------------------------------------------------------
// Copies
// ---------------------------------------------------------------------------

impl Clone for DataType {
    fn clone(&self) -> (r: Self)
        ensures
            r@ == self@,
        decreases self,
    {
        match self {
            DataType::SmallInt => DataType::SmallInt,
            DataType::Integer => DataType::Integer,
            DataType::BigInt => DataType::BigInt,
            DataType::Real => DataType::Real,
            DataType::DoublePrecision => DataType::DoublePrecision,
            DataType::Numeric { precision, scale } => DataType::Numeric {
                precision: *precision,
                scale: *scale,
            },
            DataType::Varchar(n) => DataType::Varchar(*n),
            DataType::Char(n) => DataType::Char(*n),
            DataType::Text => DataType::Text,
            DataType::MediumText => DataType::MediumText,
            DataType::LongText => DataType::LongText,
            DataType::Boolean => DataType::Boolean,
            DataType::Date => DataType::Date,
            DataType::Time => DataType::Time,
            DataType::Timestamp { with_timezone, precision } => DataType::Timestamp {
                with_timezone: *with_timezone,
                precision: *precision,
            },
            DataType::DateTime { precision } => DataType::DateTime { precision: *precision },
            DataType::Interval => DataType::Interval,
            DataType::Uuid => DataType::Uuid,
            DataType::Json => DataType::Json,
            DataType::Jsonb => DataType::Jsonb,
            DataType::Bytea => DataType::Bytea,
            DataType::Binary(n) => DataType::Binary(*n),
            DataType::VarBinary(n) => DataType::VarBinary(*n),
            DataType::Blob => DataType::Blob,
            DataType::MediumBlob => DataType::MediumBlob,
            DataType::LongBlob => DataType::LongBlob,
            DataType::Inet => DataType::Inet,
            DataType::Cidr => DataType::Cidr,
            DataType::MacAddr => DataType::MacAddr,
            DataType::Enum { name, values } => DataType::Enum {
                name: copy_opt_string(name),
                values: copy_strings(values),
            },
            DataType::SetOf(values) => DataType::SetOf(copy_strings(values)),
            DataType::Array(inner) => {
                let c = (**inner).clone();
                DataType::Array(Box::new(c))
            },
            DataType::TinyInt => DataType::TinyInt,
            DataType::MediumInt => DataType::MediumInt,
            DataType::Year => DataType::Year,
            DataType::Other(s) => DataType::Other(s.clone()),
        }
    }
}

impl Clone for ColumnDefault {
    fn clone(&self) -> (r: Self)
        ensures
            r@ == self@,
    {
        match self {
            ColumnDefault::Literal(s) => ColumnDefault::Literal(s.clone()),
            ColumnDefault::Expression(s) => ColumnDefault::Expression(s.clone()),
        }
    }
}

pub fn copy_opt_default(d: &Option<ColumnDefault>) -> (r: Option<ColumnDefault>)
    ensures
        r.deep_view() == d.deep_view(),
{
    match d {
        Some(x) => Some(x.clone()),
        None => None,
    }
}

impl Clone for Column {
    fn clone(&self) -> (r: Self)
        ensures
            r@ == self@,
    {
        Column {
            name: self.name.clone(),
            data_type: self.data_type.clone(),
            nullable: self.nullable,
            default: copy_opt_default(&self.default),
            auto_increment: self.auto_increment,
            unsigned: self.unsigned,
        }
    }
}

impl Clone for PrimaryKey {
    fn clone(&self) -> (r: Self)
        ensures
            r@ == self@,
    {
        PrimaryKey { name: copy_opt_string(&self.name), columns: copy_strings(&self.columns) }
    }
}

impl Clone for ForeignKey {
    fn clone(&self) -> (r: Self)
        ensures
            r@ == self@,
    {
        ForeignKey {
            name: copy_opt_string(&self.name),
            columns: copy_strings(&self.columns),
            referenced_table: self.referenced_table.clone(),
            referenced_schema: copy_opt_string(&self.referenced_schema),
            referenced_columns: copy_strings(&self.referenced_columns),
            on_delete: self.on_delete,
            on_update: self.on_update,
        }
    }
}

impl Clone for Index {
    fn clone(&self) -> (r: Self)
        ensures
            r@ == self@,
    {
        Index {
            name: copy_opt_string(&self.name),
            columns: copy_strings(&self.columns),
            unique: self.unique,
            index_type: copy_opt_string(&self.index_type),
            predicate: copy_opt_string(&self.predicate),
        }
    }
}

impl Clone for CheckConstraint {
    fn clone(&self) -> (r: Self)
        ensures
            r@ == self@,
    {
        CheckConstraint { name: copy_opt_string(&self.name), expression: self.expression.clone() }
    }
}

impl Clone for UniqueConstraint {
    fn clone(&self) -> (r: Self)
        ensures
            r@ == self@,
    {
        UniqueConstraint {
            name: copy_opt_string(&self.name),
            columns: copy_strings(&self.columns),
        }
    }
}

impl Clone for TableOptions {
    fn clone(&self) -> (r: Self)
        ensures
            r@ == self@,
    {
        TableOptions {
            engine: copy_opt_string(&self.engine),
            charset: copy_opt_string(&self.charset),
            collation: copy_opt_string(&self.collation),
        }
    }
}

impl Clone for EnumType {
    fn clone(&self) -> (r: Self)
        ensures
            r@ == self@,
    {
        EnumType { name: self.name.clone(), values: copy_strings(&self.values) }
    }
}


impl Clone for Table {
    fn clone(&self) -> (r: Self)
        ensures
            r@ == self@,
    {
        let columns = self.columns.clone();
        assert forall|i: int| 0 <= i < columns.len() implies #[trigger] columns[i]@ == self.columns[i]@ by {
            assert(cloned::<Column>(self.columns[i], columns[i]));
        }
        assert(columns.deep_view() =~= self.columns.deep_view());
        Table {
            name: self.name.clone(),
            columns,
            primary_key: self.primary_key.clone(),
            foreign_keys: self.foreign_keys.clone(),
            indexes: self.indexes.clone(),
            check_constraints: self.check_constraints.clone(),
            unique_constraints: self.unique_constraints.clone(),
            options: self.options.clone(),
        }
    }
}


// ---------------------------------------------------------------------------
// Lookups by name
// ---------------------------------------------------------------------------

pub open spec fn table_hits(ts: Seq<TableV>, name: Seq<char>) -> Seq<bool> {
    ts.map_values(|t: TableV| t.name == name)
}

/// Position of the first table called `name`.
pub open spec fn table_pos(ts: Seq<TableV>, name: Seq<char>) -> Option<int> {
    first_true(table_hits(ts, name))
}

pub open spec fn enum_hits(es: Seq<EnumTypeV>, name: Seq<char>) -> Seq<bool> {
    es.map_values(|e: EnumTypeV| e.name == name)
}

/// Position of the first enum type called `name`.
pub open spec fn enum_pos(es: Seq<EnumTypeV>, name: Seq<char>) -> Option<int> {
    first_true(enum_hits(es, name))
}

pub open spec fn column_hits(cs: Seq<ColumnV>, name: Seq<char>) -> Seq<bool> {
    cs.map_values(|c: ColumnV| c.name == name)
}

/// Position of the first column called `name`.
pub open spec fn column_pos(cs: Seq<ColumnV>, name: Seq<char>) -> Option<int> {
    first_true(column_hits(cs, name))
}

/// Number of `true` entries in `s[i..j]`.
pub open spec fn count_true(s: Seq<bool>, i: int, j: int) -> nat
    decreases j - i,
{
    if j <= i {
        0
    } else {
        count_true(s, i, j - 1) + if s[j - 1] {
            1nat
        } else {
            0nat
        }
    }
}

/// Position of the `n`-th `true` entry (counting from 0) at or after `i`.
pub open spec fn nth_true_from(s: Seq<bool>, i: int, n: nat) -> Option<int>
    decreases s.len() - i,
{
    if i < 0 || i >= s.len() {
        None
    } else if s[i] {
        if n == 0 {
            Some(i)
        } else {
            nth_true_from(s, i + 1, (n - 1) as nat)
        }
    } else {
        nth_true_from(s, i + 1, n)
    }
}

proof fn lemma_count_true_front(s: Seq<bool>, i: int, j: int)
    requires
        i < j,
    ensures
        count_true(s, i, j) == count_true(s, i + 1, j) + if s[i] {
            1nat
        } else {
            0nat
        },
    decreases j - i,
{
    if i + 1 < j {
        lemma_count_true_front(s, i, j - 1);
        assert(count_true(s, i, j) == count_true(s, i, j - 1) + if s[j - 1] {
            1nat
        } else {
            0nat
        });
        assert(count_true(s, i + 1, j) == count_true(s, i + 1, j - 1) + if s[j - 1] {
            1nat
        } else {
            0nat
        });
    } else {
        assert(count_true(s, i, i) == 0);
        assert(count_true(s, i + 1, j) == 0);
    }
}

/// A `true` entry at `j` is the `n`-th one, where `n` counts those before it.
pub proof fn lemma_nth_true_self(s: Seq<bool>, i: int, j: int)
    requires
        0 <= i <= j < s.len(),
        s[j],
    ensures
        nth_true_from(s, i, count_true(s, i, j)) == Some(j),
    decreases j - i,
{
    if i < j {
        lemma_count_true_front(s, i, j);
        lemma_nth_true_self(s, i + 1, j);
    }
}

/// The position paired with entry `j` of `new` among the tables of `old`:
/// the same name, and as many tables of that name before it.
pub open spec fn table_match(old: Seq<TableV>, new: Seq<TableV>, j: int) -> Option<int> {
    let x = new[j].name;
    nth_true_from(table_hits(old, x), 0, count_true(table_hits(new, x), 0, j))
}

/// The position paired with entry `j` of `new` among the enum types of `old`.
pub open spec fn enum_match(old: Seq<EnumTypeV>, new: Seq<EnumTypeV>, j: int) -> Option<int> {
    let x = new[j].name;
    nth_true_from(enum_hits(old, x), 0, count_true(enum_hits(new, x), 0, j))
}

/// The position paired with entry `j` of `new` among the columns of `old`.
pub open spec fn column_match(old: Seq<ColumnV>, new: Seq<ColumnV>, j: int) -> Option<int> {
    let x = new[j].name;
    nth_true_from(column_hits(old, x), 0, count_true(column_hits(new, x), 0, j))
}

/// Paired with itself, every table, enum type and column is matched to its
/// own position.
pub proof fn lemma_match_self(ts: Seq<TableV>, es: Seq<EnumTypeV>, cs: Seq<ColumnV>)
    ensures
        forall|j: int| 0 <= j < ts.len() ==> #[trigger] table_match(ts, ts, j) == Some(j),
        forall|j: int| 0 <= j < es.len() ==> #[trigger] enum_match(es, es, j) == Some(j),
        forall|j: int| 0 <= j < cs.len() ==> #[trigger] column_match(cs, cs, j) == Some(j),
{
    assert forall|j: int| 0 <= j < ts.len() implies #[trigger] table_match(ts, ts, j) == Some(j) by {
        lemma_nth_true_self(table_hits(ts, ts[j].name), 0, j);
    }
    assert forall|j: int| 0 <= j < es.len() implies #[trigger] enum_match(es, es, j) == Some(j) by {
        lemma_nth_true_self(enum_hits(es, es[j].name), 0, j);
    }
    assert forall|j: int| 0 <= j < cs.len() implies #[trigger] column_match(cs, cs, j) == Some(j) by {
        lemma_nth_true_self(column_hits(cs, cs[j].name), 0, j);
    }
}

/// The tables have pairwise distinct names.
pub open spec fn distinct_table_names(ts: Seq<TableV>) -> bool {
    forall|i: int, j: int| 0 <= i < j < ts.len() ==> ts[i].name != ts[j].name
}

/// The enum types have pairwise distinct names.
pub open spec fn distinct_enum_names(es: Seq<EnumTypeV>) -> bool {
    forall|i: int, j: int| 0 <= i < j < es.len() ==> es[i].name != es[j].name
}

/// With distinct names, a table is found at its own position.
pub proof fn lemma_table_pos_at(ts: Seq<TableV>, j: int)
    requires
        distinct_table_names(ts),
        0 <= j < ts.len(),
    ensures
        table_pos(ts, ts[j].name) == Some(j),
{
    let hits = table_hits(ts, ts[j].name);
    assert forall|i: int| 0 <= i < j implies !hits[i] by {
        assert(ts[i].name != ts[j].name);
    }
    lemma_first_true(hits, Some(j));
}

pub fn find_table(tables: &Vec<Table>, name: &[char]) -> (r: Option<usize>)
    ensures
        opt_int(r) == table_pos(tables.deep_view(), name@),
        r matches Some(i) ==> i < tables.len(),
{
    let ghost hits = table_hits(tables.deep_view(), name@);
    let mut i: usize = 0;
    while i < tables.len()
        invariant
            i <= tables.len(),
            hits == table_hits(tables.deep_view(), name@),
            hits.len() == tables.len(),
            forall|j: int| 0 <= j < i ==> !hits[j],
        decreases tables.len() - i,
    {
        let n = str_to_chars(tables[i].name.as_str());
        if chars_eq(n.as_slice(), name) {
            proof {
                lemma_first_true(hits, Some(i as int));
            }
            return Some(i);
        }
        i += 1;
    }
    proof {
        lemma_first_true(hits, None);
    }
    None
}

pub fn find_enum(enums: &Vec<EnumType>, name: &[char]) -> (r: Option<usize>)
    ensures
        opt_int(r) == enum_pos(enums.deep_view(), name@),
        r matches Some(i) ==> i < enums.len(),
{
    let ghost hits = enum_hits(enums.deep_view(), name@);
    let mut i: usize = 0;
    while i < enums.len()
        invariant
            i <= enums.len(),
            hits == enum_hits(enums.deep_view(), name@),
            hits.len() == enums.len(),
            forall|j: int| 0 <= j < i ==> !hits[j],
        decreases enums.len() - i,
    {
        let n = str_to_chars(enums[i].name.as_str());
        if chars_eq(n.as_slice(), name) {
            proof {
                lemma_first_true(hits, Some(i as int));
            }
            return Some(i);
        }
        i += 1;
    }
    proof {
        lemma_first_true(hits, None);
    }
    None
}

pub fn find_column(columns: &Vec<Column>, name: &[char]) -> (r: Option<usize>)
    ensures
        opt_int(r) == column_pos(columns.deep_view(), name@),
        r matches Some(i) ==> i < columns.len(),
{
    let ghost hits = column_hits(columns.deep_view(), name@);
    let mut i: usize = 0;
    while i < columns.len()
        invariant
            i <= columns.len(),
            hits == column_hits(columns.deep_view(), name@),
            hits.len() == columns.len(),
            forall|j: int| 0 <= j < i ==> !hits[j],
        decreases columns.len() - i,
    {
        let n = str_to_chars(columns[i].name.as_str());
        if chars_eq(n.as_slice(), name) {
            proof {
                lemma_first_true(hits, Some(i as int));
            }
            return Some(i);
        }
        i += 1;
    }
    proof {
        lemma_first_true(hits, None);
    }
    None
}

impl Clone for Schema {
    fn clone(&self) -> (r: Self)
        ensures
            r@ == self@,
    {
        Schema { name: self.name.clone(), enums: self.enums.clone(), tables: self.tables.clone() }
    }
}


// ---------------------------------------------------------------------------
// Equality of values by their models
// ---------------------------------------------------------------------------

pub fn strings_eq(a: &Vec<String>, b: &Vec<String>) -> (r: bool)
    ensures
        r == (a.deep_view() == b.deep_view()),
{
    if a.len() != b.len() {
        assert(a.deep_view().len() != b.deep_view().len());
        return false;
    }
    let mut i: usize = 0;
    while i < a.len()
        invariant
            i <= a.len(),
            a.len() == b.len(),
            forall|j: int| 0 <= j < i ==> a.deep_view()[j] == b.deep_view()[j],
        decreases a.len() - i,
    {
        if a[i] != b[i] {
            assert(a.deep_view()[i as int] != b.deep_view()[i as int]);
            return false;
        }
        i += 1;
    }
    assert(a.deep_view() =~= b.deep_view());
    true
}

pub fn opt_string_eq(a: &Option<String>, b: &Option<String>) -> (r: bool)
    ensures
        r == (a.deep_view() == b.deep_view()),
{
    match (a, b) {
        (Some(x), Some(y)) => *x == *y,
        (None, None) => true,
        _ => false,
    }
}

pub fn data_type_eq(a: &DataType, b: &DataType) -> (r: bool)
    ensures
        r == (a@ == b@),
    decreases a,
{
    match (a, b) {
        (DataType::SmallInt, DataType::SmallInt) => true,
        (DataType::Integer, DataType::Integer) => true,
        (DataType::BigInt, DataType::BigInt) => true,
        (DataType::Real, DataType::Real) => true,
        (DataType::DoublePrecision, DataType::DoublePrecision) => true,
        (
            DataType::Numeric { precision: p1, scale: s1 },
            DataType::Numeric { precision: p2, scale: s2 },
        ) => *p1 == *p2 && *s1 == *s2,
        (DataType::Varchar(x), DataType::Varchar(y)) => *x == *y,
        (DataType::Char(x), DataType::Char(y)) => *x == *y,
        (DataType::Text, DataType::Text) => true,
        (DataType::MediumText, DataType::MediumText) => true,
        (DataType::LongText, DataType::LongText) => true,
        (DataType::Boolean, DataType::Boolean) => true,
        (DataType::Date, DataType::Date) => true,
        (DataType::Time, DataType::Time) => true,
        (
            DataType::Timestamp { with_timezone: w1, precision: p1 },
            DataType::Timestamp { with_timezone: w2, precision: p2 },
        ) => *w1 == *w2 && *p1 == *p2,
        (DataType::DateTime { precision: p1 }, DataType::DateTime { precision: p2 }) => *p1
            == *p2,
        (DataType::Interval, DataType::Interval) => true,
        (DataType::Uuid, DataType::Uuid) => true,
        (DataType::Json, DataType::Json) => true,
        (DataType::Jsonb, DataType::Jsonb) => true,
        (DataType::Bytea, DataType::Bytea) => true,
        (DataType::Binary(x), DataType::Binary(y)) => *x == *y,
        (DataType::VarBinary(x), DataType::VarBinary(y)) => *x == *y,
        (DataType::Blob, DataType::Blob) => true,
        (DataType::MediumBlob, DataType::MediumBlob) => true,
        (DataType::LongBlob, DataType::LongBlob) => true,
        (DataType::Inet, DataType::Inet) => true,
        (DataType::Cidr, DataType::Cidr) => true,
        (DataType::MacAddr, DataType::MacAddr) => true,
        (DataType::Enum { name: n1, values: v1 }, DataType::Enum { name: n2, values: v2 }) => {
            opt_string_eq(n1, n2) && strings_eq(v1, v2)
        },
        (DataType::SetOf(v1), DataType::SetOf(v2)) => strings_eq(v1, v2),
        (DataType::Array(x), DataType::Array(y)) => data_type_eq(x, y),
        (DataType::TinyInt, DataType::TinyInt) => true,
        (DataType::MediumInt, DataType::MediumInt) => true,
        (DataType::Year, DataType::Year) => true,
        (DataType::Other(x), DataType::Other(y)) => *x == *y,
        _ => false,
    }
}

pub fn opt_default_eq(a: &Option<ColumnDefault>, b: &Option<ColumnDefault>) -> (r: bool)
    ensures
        r == (a.deep_view() == b.deep_view()),
{
    match (a, b) {
        (Some(ColumnDefault::Literal(x)), Some(ColumnDefault::Literal(y))) => *x == *y,
        (Some(ColumnDefault::Expression(x)), Some(ColumnDefault::Expression(y))) => *x == *y,
        (None, None) => true,
        _ => false,
    }
}

pub fn index_eq(a: &Index, b: &Index) -> (r: bool)
    ensures
        r == (a@ == b@),
{
    opt_string_eq(&a.name, &b.name) && strings_eq(&a.columns, &b.columns) && a.unique == b.unique
        && opt_string_eq(&a.index_type, &b.index_type) && opt_string_eq(
        &a.predicate,
        &b.predicate,
    )
}

pub fn fk_eq(a: &ForeignKey, b: &ForeignKey) -> (r: bool)
    ensures
        r == (a@ == b@),
{
    opt_string_eq(&a.name, &b.name) && strings_eq(&a.columns, &b.columns) && a.referenced_table
        == b.referenced_table && opt_string_eq(&a.referenced_schema, &b.referenced_schema)
        && strings_eq(&a.referenced_columns, &b.referenced_columns) && a.on_delete == b.on_delete
        && a.on_update == b.on_update
}

pub fn check_eq(a: &CheckConstraint, b: &CheckConstraint) -> (r: bool)
    ensures
        r == (a@ == b@),
{
    opt_string_eq(&a.name, &b.name) && a.expression == b.expression
}

pub fn unique_eq(a: &UniqueConstraint, b: &UniqueConstraint) -> (r: bool)
    ensures
        r == (a@ == b@),
{
    opt_string_eq(&a.name, &b.name) && strings_eq(&a.columns, &b.columns)
}

pub fn opt_pk_eq(a: &Option<PrimaryKey>, b: &Option<PrimaryKey>) -> (r: bool)
    ensures
        r == (a.deep_view() == b.deep_view()),
{
    match (a, b) {
        (Some(x), Some(y)) => opt_string_eq(&x.name, &y.name) && strings_eq(
            &x.columns,
            &y.columns,
        ),
        (None, None) => true,
        _ => false,
    }
}

} // verus!
