//! Migration SQL generation (forward and rollback) from schema diffs.
use vstd::prelude::*;
use crate::config::Engine;
use crate::diff::{diff_spec, lemma_diff_self_empty, Change, ChangeV, SchemaDiff};
use crate::schema::{
    enum_pos, find_column, find_enum, find_table, CheckConstraint, CheckConstraintV, Column,
    ColumnDefault, ColumnDefaultV, ColumnV, DataType, DataTypeV, EnumTypeV, ForeignKey,
    ForeignKeyAction, ForeignKeyV, Index, IndexV, PrimaryKeyV, Schema, SchemaV, Table,
    TableOptionsV, TableV, UniqueConstraint, UniqueConstraintV, column_pos, table_pos,
};
use crate::text::{
    append_chars, before_first, before_first_exec, chars_eq, contains, contains_exec, decimal,
    first_true, join, join_strings, lemma_first_true, lemma_join_contains_part, opt_int, push_char, split_once,
    split_once_exec, split_pat, split_pat_exec, str_to_chars, strip_prefix, strip_prefix_exec,
    u32_to_string, views,
};

verus! {

// ---------------------------------------------------------------------------
// Identifiers and literals
// ---------------------------------------------------------------------------

/// Identifier quoted for the engine: `"name"` (Postgres) or `` `name` `` (MySQL).
pub open spec fn quote(name: Seq<char>, engine: Engine) -> Seq<char> {
    match engine {
        Engine::Postgres => seq!['"'] + name + seq!['"'],
        Engine::Mysql => seq!['`'] + name + seq!['`'],
    }
}

/// Single quotes doubled (`s.replace('\'', "''")`).
pub open spec fn escape(s: Seq<char>) -> Seq<char>
    decreases s.len(),
{
    if s.len() == 0 {
        seq![]
    } else {
        escape(s.drop_last()) + if s.last() == '\'' {
            seq!['\'', '\'']
        } else {
            seq![s.last()]
        }
    }
}

/// A string literal: `'...'` with embedded quotes doubled.
pub open spec fn sql_literal(s: Seq<char>) -> Seq<char> {
    seq!['\''] + escape(s) + seq!['\'']
}

pub open spec fn quote_all(names: Seq<Seq<char>>, engine: Engine) -> Seq<Seq<char>> {
    names.map_values(|n: Seq<char>| quote(n, engine))
}

pub open spec fn literal_all(values: Seq<Seq<char>>) -> Seq<Seq<char>> {
    values.map_values(|v: Seq<char>| sql_literal(v))
}

/// Quote an identifier for the given engine.
pub fn quote_ident(name: &str, engine: Engine) -> (r: String)
    ensures
        r@ == quote(name@, engine),
{
    let mut r = String::new();
    let q = match engine {
        Engine::Postgres => '"',
        Engine::Mysql => '`',
    };
    push_char(&mut r, q);
    r.append(name);
    push_char(&mut r, q);
    assert(r@ =~= quote(name@, engine));
    r
}

/// Doubles single quotes.
pub fn escape_str(s: &str) -> (r: String)
    ensures
        r@ == escape(s@),
{
    let chars = crate::text::str_to_chars(s);
    let mut r = String::new();
    let mut i: usize = 0;
    while i < chars.len()
        invariant
            i <= chars.len(),
            chars@ == s@,
            r@ == escape(chars@.take(i as int)),
        decreases chars.len() - i,
    {
        let c = chars[i];
        let ghost prev = chars@.take(i as int);
        assert(chars@.take(i + 1).drop_last() == prev);
        push_char(&mut r, c);
        if c == '\'' {
            push_char(&mut r, '\'');
        }
        assert(r@ =~= escape(chars@.take(i + 1)));
        i += 1;
    }
    assert(chars@.take(chars.len() as int) == chars@);
    r
}

pub fn sql_literal_str(s: &str) -> (r: String)
    ensures
        r@ == sql_literal(s@),
{
    let mut r = String::new();
    push_char(&mut r, '\'');
    r.append(escape_str(s).as_str());
    push_char(&mut r, '\'');
    assert(r@ =~= sql_literal(s@));
    r
}

fn quote_all_exec(names: &Vec<String>, engine: Engine) -> (r: Vec<String>)
    ensures
        r.deep_view() == quote_all(names.deep_view(), engine),
{
    let mut r: Vec<String> = Vec::new();
    let mut i: usize = 0;
    while i < names.len()
        invariant
            i <= names.len(),
            r.deep_view() == quote_all(names.deep_view().take(i as int), engine),
        decreases names.len() - i,
    {
        r.push(quote_ident(names[i].as_str(), engine));
        assert(quote_all(names.deep_view().take(i + 1), engine) =~= quote_all(
            names.deep_view().take(i as int),
            engine,
        ).push(quote(names[i as int]@, engine)));
        assert(r.deep_view() =~= quote_all(names.deep_view().take(i + 1), engine));
        i += 1;
    }
    assert(names.deep_view().take(names.len() as int) == names.deep_view());
    r
}

fn literal_all_exec(values: &Vec<String>) -> (r: Vec<String>)
    ensures
        r.deep_view() == literal_all(values.deep_view()),
{
    let mut r: Vec<String> = Vec::new();
    let mut i: usize = 0;
    while i < values.len()
        invariant
            i <= values.len(),
            r.deep_view() == literal_all(values.deep_view().take(i as int)),
        decreases values.len() - i,
    {
        r.push(sql_literal_str(values[i].as_str()));
        assert(literal_all(values.deep_view().take(i + 1)) =~= literal_all(
            values.deep_view().take(i as int),
        ).push(sql_literal(values[i as int]@)));
        assert(r.deep_view() =~= literal_all(values.deep_view().take(i + 1)));
        i += 1;
    }
    assert(values.deep_view().take(values.len() as int) == values.deep_view());
    r
}

// ---------------------------------------------------------------------------
// Types and columns
// ---------------------------------------------------------------------------

pub open spec fn paren_num(n: u32) -> Seq<char> {
    "("@ + decimal(n as nat) + ")"@
}

pub open spec fn opt_paren_num(base: Seq<char>, n: Option<u32>) -> Seq<char> {
    match n {
        Some(v) => base + paren_num(v),
        None => base,
    }
}

/// SQL spelling of a data type for the given dialect.
pub open spec fn type_sql_spec(d: DataTypeV, engine: Engine) -> Seq<char>
    decreases d,
{
    let my = engine == Engine::Mysql;
    match d {
        DataTypeV::SmallInt => "SMALLINT"@,
        DataTypeV::Integer => "INTEGER"@,
        DataTypeV::BigInt => "BIGINT"@,
        DataTypeV::TinyInt => "TINYINT"@,
        DataTypeV::MediumInt => "MEDIUMINT"@,
        DataTypeV::Real => if my {
            "FLOAT"@
        } else {
            "REAL"@
        },
        DataTypeV::DoublePrecision => if my {
            "DOUBLE"@
        } else {
            "DOUBLE PRECISION"@
        },
        DataTypeV::Numeric { precision, scale } => match (precision, scale) {
            (Some(p), Some(s)) => "NUMERIC("@ + decimal(p as nat) + ","@ + decimal(s as nat)
                + ")"@,
            (Some(p), None) => "NUMERIC"@ + paren_num(p),
            _ => "NUMERIC"@,
        },
        DataTypeV::Varchar(n) => opt_paren_num("VARCHAR"@, n),
        DataTypeV::Char(n) => opt_paren_num("CHAR"@, n),
        DataTypeV::Text => "TEXT"@,
        DataTypeV::MediumText => "MEDIUMTEXT"@,
        DataTypeV::LongText => "LONGTEXT"@,
        DataTypeV::Boolean => if my {
            "TINYINT(1)"@
        } else {
            "BOOLEAN"@
        },
        DataTypeV::Date => "DATE"@,
        DataTypeV::Time => "TIME"@,
        DataTypeV::Timestamp { with_timezone, precision } => opt_paren_num("TIMESTAMP"@, precision)
            + if with_timezone && engine == Engine::Postgres {
            " WITH TIME ZONE"@
        } else {
            seq![]
        },
        DataTypeV::DateTime { precision } => opt_paren_num("DATETIME"@, precision),
        DataTypeV::Interval => "INTERVAL"@,
        DataTypeV::Uuid => if !my {
            "UUID"@
        } else {
            "CHAR(36)"@
        },
        DataTypeV::Json => "JSON"@,
        DataTypeV::Jsonb => if !my {
            "JSONB"@
        } else {
            "JSON"@
        },
        DataTypeV::Bytea => if !my {
            "BYTEA"@
        } else {
            "BLOB"@
        },
        DataTypeV::Binary(n) => opt_paren_num("BINARY"@, n),
        DataTypeV::VarBinary(n) => opt_paren_num("VARBINARY"@, n),
        DataTypeV::Blob => "BLOB"@,
        DataTypeV::MediumBlob => "MEDIUMBLOB"@,
        DataTypeV::LongBlob => "LONGBLOB"@,
        DataTypeV::Inet => "INET"@,
        DataTypeV::Cidr => "CIDR"@,
        DataTypeV::MacAddr => "MACADDR"@,
        DataTypeV::Enum { name, values } => if !my {
            match name {
                Some(n) => n,
                None => "TEXT"@,
            }
        } else {
            "ENUM("@ + join(literal_all(values), ", "@) + ")"@
        },
        DataTypeV::SetOf(values) => "SET("@ + join(literal_all(values), ", "@) + ")"@,
        DataTypeV::Array(inner) => type_sql_spec(*inner, engine) + "[]"@,
        DataTypeV::Year => "YEAR"@,
        DataTypeV::Other(s) => s,
    }
}

fn append_paren_num(s: &mut String, n: u32)
    ensures
        final(s)@ == old(s)@ + paren_num(n),
{
    s.append("(");
    s.append(u32_to_string(n).as_str());
    s.append(")");
}

fn opt_paren_num_exec(base: &str, n: Option<u32>) -> (r: String)
    ensures
        r@ == opt_paren_num(base@, n),
{
    let mut r = String::from_str(base);
    if let Some(v) = n {
        append_paren_num(&mut r, v);
    }
    r
}

/// Convert a DataType to SQL string for the given dialect.
pub fn type_sql(dt: &DataType, engine: Engine) -> (r: String)
    ensures
        r@ == type_sql_spec(dt@, engine),
    decreases dt,
{
    let my = engine == Engine::Mysql;
    match dt {
        DataType::SmallInt => String::from_str("SMALLINT"),
        DataType::Integer => String::from_str("INTEGER"),
        DataType::BigInt => String::from_str("BIGINT"),
        DataType::TinyInt => String::from_str("TINYINT"),
        DataType::MediumInt => String::from_str("MEDIUMINT"),
        DataType::Real => if my {
            String::from_str("FLOAT")
        } else {
            String::from_str("REAL")
        },
        DataType::DoublePrecision => if my {
            String::from_str("DOUBLE")
        } else {
            String::from_str("DOUBLE PRECISION")
        },
        DataType::Numeric { precision, scale } => match (precision, scale) {
            (Some(p), Some(sc)) => {
                let mut r = String::from_str("NUMERIC(");
                r.append(u32_to_string(*p).as_str());
                r.append(",");
                r.append(u32_to_string(*sc).as_str());
                r.append(")");
                r
            },
            (Some(p), None) => {
                let mut r = String::from_str("NUMERIC");
                append_paren_num(&mut r, *p);
                r
            },
            _ => String::from_str("NUMERIC"),
        },
        DataType::Varchar(n) => opt_paren_num_exec("VARCHAR", *n),
        DataType::Char(n) => opt_paren_num_exec("CHAR", *n),
        DataType::Text => String::from_str("TEXT"),
        DataType::MediumText => String::from_str("MEDIUMTEXT"),
        DataType::LongText => String::from_str("LONGTEXT"),
        DataType::Boolean => if my {
            String::from_str("TINYINT(1)")
        } else {
            String::from_str("BOOLEAN")
        },
        DataType::Date => String::from_str("DATE"),
        DataType::Time => String::from_str("TIME"),
        DataType::Timestamp { with_timezone, precision } => {
            let mut r = opt_paren_num_exec("TIMESTAMP", *precision);
            if *with_timezone && engine == Engine::Postgres {
                r.append(" WITH TIME ZONE");
            } else {
                assert(r@ + seq![] =~= r@);
            }
            r
        },
        DataType::DateTime { precision } => opt_paren_num_exec("DATETIME", *precision),
        DataType::Interval => String::from_str("INTERVAL"),
        DataType::Uuid => if !my {
            String::from_str("UUID")
        } else {
            String::from_str("CHAR(36)")
        },
        DataType::Json => String::from_str("JSON"),
        DataType::Jsonb => if !my {
            String::from_str("JSONB")
        } else {
            String::from_str("JSON")
        },
        DataType::Bytea => if !my {
            String::from_str("BYTEA")
        } else {
            String::from_str("BLOB")
        },
        DataType::Binary(n) => opt_paren_num_exec("BINARY", *n),
        DataType::VarBinary(n) => opt_paren_num_exec("VARBINARY", *n),
        DataType::Blob => String::from_str("BLOB"),
        DataType::MediumBlob => String::from_str("MEDIUMBLOB"),
        DataType::LongBlob => String::from_str("LONGBLOB"),
        DataType::Inet => String::from_str("INET"),
        DataType::Cidr => String::from_str("CIDR"),
        DataType::MacAddr => String::from_str("MACADDR"),
        DataType::Enum { name, values } => if !my {
            match name {
                Some(n) => n.clone(),
                None => String::from_str("TEXT"),
            }
        } else {
            let mut r = String::from_str("ENUM(");
            r.append(join_strings(&literal_all_exec(values), ", ").as_str());
            r.append(")");
            r
        },
        DataType::SetOf(values) => {
            let mut r = String::from_str("SET(");
            r.append(join_strings(&literal_all_exec(values), ", ").as_str());
            r.append(")");
            r
        },
        DataType::Array(inner) => {
            let mut r = type_sql(inner, engine);
            r.append("[]");
            r
        },
        DataType::Year => String::from_str("YEAR"),
        DataType::Other(s) => s.clone(),
    }
}

/// ` DEFAULT ...` clause of a column definition (empty when there is none).
pub open spec fn default_clause(d: Option<ColumnDefaultV>) -> Seq<char> {
    match d {
        Some(ColumnDefaultV::Literal(v)) => " DEFAULT "@ + sql_literal(v),
        Some(ColumnDefaultV::Expression(e)) => " DEFAULT "@ + e,
        None => seq![],
    }
}

pub open spec fn if_then(b: bool, s: Seq<char>) -> Seq<char> {
    if b {
        s
    } else {
        seq![]
    }
}

/// Column definition: quoted name, type, then UNSIGNED, NOT NULL,
/// AUTO_INCREMENT and DEFAULT as they apply.
pub open spec fn column_def_spec(c: ColumnV, engine: Engine) -> Seq<char> {
    quote(c.name, engine) + " "@ + type_sql_spec(c.data_type, engine) + if_then(
        c.unsigned && engine == Engine::Mysql,
        " UNSIGNED"@,
    ) + if_then(!c.nullable, " NOT NULL"@) + if_then(
        c.auto_increment && engine == Engine::Mysql,
        " AUTO_INCREMENT"@,
    ) + default_clause(c.default)
}

fn append_if(s: &mut String, b: bool, t: &str)
    ensures
        final(s)@ == old(s)@ + if_then(b, t@),
{
    if b {
        s.append(t);
    } else {
        assert(old(s)@ + seq![] =~= old(s)@);
    }
}

/// Generate a column definition string.
pub fn column_def(col: &Column, engine: Engine) -> (r: String)
    ensures
        r@ == column_def_spec(col@, engine),
{
    let mut def = quote_ident(col.name.as_str(), engine);
    def.append(" ");
    def.append(type_sql(&col.data_type, engine).as_str());
    append_if(&mut def, col.unsigned && engine == Engine::Mysql, " UNSIGNED");
    append_if(&mut def, !col.nullable, " NOT NULL");
    append_if(&mut def, col.auto_increment && engine == Engine::Mysql, " AUTO_INCREMENT");
    match &col.default {
        Some(ColumnDefault::Literal(v)) => {
            def.append(" DEFAULT ");
            def.append(sql_literal_str(v.as_str()).as_str());
        },
        Some(ColumnDefault::Expression(e)) => {
            def.append(" DEFAULT ");
            def.append(e.as_str());
        },
        None => {
            assert(def@ + seq![] =~= def@);
        },
    }
    def
}

// ---------------------------------------------------------------------------
// Constraints and indexes
// ---------------------------------------------------------------------------

/// `CONSTRAINT "name" ` prefix for a named constraint, empty otherwise.
pub open spec fn constraint_name_part(n: Option<Seq<char>>, engine: Engine) -> Seq<char> {
    match n {
        Some(x) => "CONSTRAINT "@ + quote(x, engine) + " "@,
        None => seq![],
    }
}

fn constraint_name_part_exec(n: &Option<String>, engine: Engine) -> (r: String)
    ensures
        r@ == constraint_name_part(n.deep_view(), engine),
{
    match n {
        Some(x) => {
            let mut r = String::from_str("CONSTRAINT ");
            r.append(quote_ident(x.as_str(), engine).as_str());
            r.append(" ");
            r
        },
        None => String::new(),
    }
}

pub open spec fn quoted_list(cols: Seq<Seq<char>>, engine: Engine) -> Seq<char> {
    join(quote_all(cols, engine), ", "@)
}

fn quoted_list_exec(cols: &Vec<String>, engine: Engine) -> (r: String)
    ensures
        r@ == quoted_list(cols.deep_view(), engine),
{
    join_strings(&quote_all_exec(cols, engine), ", ")
}

pub open spec fn unique_constraint_spec(uc: UniqueConstraintV, engine: Engine) -> Seq<char> {
    constraint_name_part(uc.name, engine) + "UNIQUE ("@ + quoted_list(uc.columns, engine) + ")"@
}

pub fn unique_constraint_def(uc: &UniqueConstraint, engine: Engine) -> (r: String)
    ensures
        r@ == unique_constraint_spec(uc@, engine),
{
    let mut r = constraint_name_part_exec(&uc.name, engine);
    r.append("UNIQUE (");
    r.append(quoted_list_exec(&uc.columns, engine).as_str());
    r.append(")");
    r
}

pub open spec fn check_constraint_spec(cc: CheckConstraintV, engine: Engine) -> Seq<char> {
    constraint_name_part(cc.name, engine) + "CHECK ("@ + cc.expression + ")"@
}

pub fn check_constraint_def(cc: &CheckConstraint, engine: Engine) -> (r: String)
    ensures
        r@ == check_constraint_spec(cc@, engine),
{
    let mut r = constraint_name_part_exec(&cc.name, engine);
    r.append("CHECK (");
    r.append(cc.expression.as_str());
    r.append(")");
    r
}

/// SQL spelling of a referential action (as `Display for ForeignKeyAction`).
pub open spec fn fk_action_sql(a: ForeignKeyAction) -> Seq<char> {
    match a {
        ForeignKeyAction::NoAction => "NO ACTION"@,
        ForeignKeyAction::Restrict => "RESTRICT"@,
        ForeignKeyAction::Cascade => "CASCADE"@,
        ForeignKeyAction::SetNull => "SET NULL"@,
        ForeignKeyAction::SetDefault => "SET DEFAULT"@,
    }
}

impl ForeignKeyAction {
    /// SQL spelling of the action (e.g. `SET NULL`).
    pub fn to_string(&self) -> (r: String)
        ensures
            r@ == fk_action_sql(*self),
    {
        match self {
            ForeignKeyAction::NoAction => String::from_str("NO ACTION"),
            ForeignKeyAction::Restrict => String::from_str("RESTRICT"),
            ForeignKeyAction::Cascade => String::from_str("CASCADE"),
            ForeignKeyAction::SetNull => String::from_str("SET NULL"),
            ForeignKeyAction::SetDefault => String::from_str("SET DEFAULT"),
        }
    }
}

pub open spec fn referenced_table_sql(fk: ForeignKeyV, engine: Engine) -> Seq<char> {
    match fk.referenced_schema {
        Some(s) => quote(s, engine) + "."@ + quote(fk.referenced_table, engine),
        None => quote(fk.referenced_table, engine),
    }
}

pub open spec fn fk_constraint_spec(fk: ForeignKeyV, engine: Engine) -> Seq<char> {
    constraint_name_part(fk.name, engine) + "FOREIGN KEY ("@ + quoted_list(fk.columns, engine)
        + ") REFERENCES "@ + referenced_table_sql(fk, engine) + " ("@ + quoted_list(
        fk.referenced_columns,
        engine,
    ) + ")"@ + if_then(
        fk.on_delete != ForeignKeyAction::NoAction,
        " ON DELETE "@ + fk_action_sql(fk.on_delete),
    ) + if_then(
        fk.on_update != ForeignKeyAction::NoAction,
        " ON UPDATE "@ + fk_action_sql(fk.on_update),
    )
}

pub fn fk_constraint(fk: &ForeignKey, engine: Engine) -> (r: String)
    ensures
        r@ == fk_constraint_spec(fk@, engine),
{
    let mut sql = constraint_name_part_exec(&fk.name, engine);
    sql.append("FOREIGN KEY (");
    sql.append(quoted_list_exec(&fk.columns, engine).as_str());
    sql.append(") REFERENCES ");
    match &fk.referenced_schema {
        Some(s) => {
            sql.append(quote_ident(s.as_str(), engine).as_str());
            sql.append(".");
            sql.append(quote_ident(fk.referenced_table.as_str(), engine).as_str());
        },
        None => {
            sql.append(quote_ident(fk.referenced_table.as_str(), engine).as_str());
        },
    }
    sql.append(" (");
    sql.append(quoted_list_exec(&fk.referenced_columns, engine).as_str());
    sql.append(")");
    let ghost before = sql@;
    if fk.on_delete != ForeignKeyAction::NoAction {
        sql.append(" ON DELETE ");
        sql.append(fk.on_delete.to_string().as_str());
    }
    assert(sql@ =~= before + if_then(
        fk.on_delete != ForeignKeyAction::NoAction,
        " ON DELETE "@ + fk_action_sql(fk.on_delete),
    ));
    let ghost before2 = sql@;
    if fk.on_update != ForeignKeyAction::NoAction {
        sql.append(" ON UPDATE ");
        sql.append(fk.on_update.to_string().as_str());
    }
    assert(sql@ =~= before2 + if_then(
        fk.on_update != ForeignKeyAction::NoAction,
        " ON UPDATE "@ + fk_action_sql(fk.on_update),
    ));
    sql
}

pub open spec fn create_index_spec(idx: IndexV, table: Seq<char>, engine: Engine) -> Seq<char> {
    let head = "CREATE "@ + if_then(idx.unique, "UNIQUE "@) + "INDEX "@ + match idx.name {
        Some(n) => quote(n, engine) + " "@,
        None => seq![],
    } + "ON "@ + quote(table, engine) + " ("@ + quoted_list(idx.columns, engine) + ")"@;
    match idx.predicate {
        Some(p) => head + " WHERE "@ + p + ";"@,
        None => head + ";"@,
    }
}

pub fn generate_create_index(idx: &Index, table: &str, engine: Engine) -> (r: String)
    ensures
        r@ == create_index_spec(idx@, table@, engine),
{
    let mut sql = String::from_str("CREATE ");
    append_if(&mut sql, idx.unique, "UNIQUE ");
    sql.append("INDEX ");
    match &idx.name {
        Some(n) => {
            sql.append(quote_ident(n.as_str(), engine).as_str());
            sql.append(" ");
        },
        None => {
            assert(sql@ + seq![] =~= sql@);
        },
    }
    sql.append("ON ");
    sql.append(quote_ident(table, engine).as_str());
    sql.append(" (");
    sql.append(quoted_list_exec(&idx.columns, engine).as_str());
    sql.append(")");
    match &idx.predicate {
        Some(p) => {
            sql.append(" WHERE ");
            sql.append(p.as_str());
            sql.append(";");
        },
        None => {
            sql.append(";");
        },
    }
    sql
}

// ---------------------------------------------------------------------------
// CREATE TABLE
// ---------------------------------------------------------------------------

pub open spec fn column_lines(cs: Seq<ColumnV>, engine: Engine) -> Seq<Seq<char>> {
    cs.map_values(|c: ColumnV| "  "@ + column_def_spec(c, engine))
}

pub open spec fn unique_lines(us: Seq<UniqueConstraintV>, engine: Engine) -> Seq<Seq<char>> {
    us.map_values(|u: UniqueConstraintV| "  "@ + unique_constraint_spec(u, engine))
}

pub open spec fn check_lines(cs: Seq<CheckConstraintV>, engine: Engine) -> Seq<Seq<char>> {
    cs.map_values(|c: CheckConstraintV| "  "@ + check_constraint_spec(c, engine))
}

pub open spec fn fk_lines(fs: Seq<ForeignKeyV>, engine: Engine) -> Seq<Seq<char>> {
    fs.map_values(|f: ForeignKeyV| "  "@ + fk_constraint_spec(f, engine))
}

pub open spec fn pk_lines(pk: Option<PrimaryKeyV>, engine: Engine) -> Seq<Seq<char>> {
    match pk {
        Some(p) => seq![
            "  "@ + constraint_name_part(p.name, engine) + "PRIMARY KEY ("@ + quoted_list(
                p.columns,
                engine,
            ) + ")"@,
        ],
        None => seq![],
    }
}

/// The body lines of a CREATE TABLE: columns, primary key, unique and check
/// constraints, then foreign keys.
pub open spec fn create_table_parts(t: TableV, engine: Engine) -> Seq<Seq<char>> {
    column_lines(t.columns, engine) + pk_lines(t.primary_key, engine) + unique_lines(
        t.unique_constraints,
        engine,
    ) + check_lines(t.check_constraints, engine) + fk_lines(t.foreign_keys, engine)
}

pub open spec fn opt_clause(prefix: Seq<char>, v: Option<Seq<char>>) -> Seq<char> {
    match v {
        Some(x) => prefix + x,
        None => seq![],
    }
}

/// MySQL table options (ENGINE, DEFAULT CHARSET, COLLATE); none for Postgres.
pub open spec fn table_options_sql(o: TableOptionsV, engine: Engine) -> Seq<char> {
    if engine == Engine::Mysql {
        opt_clause(" ENGINE="@, o.engine) + opt_clause(" DEFAULT CHARSET="@, o.charset)
            + opt_clause(" COLLATE="@, o.collation)
    } else {
        seq![]
    }
}

pub open spec fn create_table_spec(t: TableV, engine: Engine) -> Seq<char> {
    "CREATE TABLE "@ + quote(t.name, engine) + " (\n"@ + join(
        create_table_parts(t, engine),
        ",\n"@,
    ) + "\n)"@ + table_options_sql(t.options, engine) + ";"@
}

fn append_opt_clause(s: &mut String, prefix: &str, v: &Option<String>)
    ensures
        final(s)@ == old(s)@ + opt_clause(prefix@, v.deep_view()),
{
    match v {
        Some(x) => {
            s.append(prefix);
            s.append(x.as_str());
        },
        None => {
            assert(old(s)@ + seq![] =~= old(s)@);
        },
    }
}

/// Generate a full CREATE TABLE statement.
pub fn generate_create_table(table: &Table, engine: Engine) -> (r: String)
    ensures
        r@ == create_table_spec(table@, engine),
{
    let ghost t = table@;
    let mut parts: Vec<String> = Vec::new();
    let mut i: usize = 0;
    while i < table.columns.len()
        invariant
            i <= table.columns.len(),
            t == table@,
            parts.deep_view() == column_lines(t.columns.take(i as int), engine),
        decreases table.columns.len() - i,
    {
        let mut line = String::from_str("  ");
        line.append(column_def(&table.columns[i], engine).as_str());
        parts.push(line);
        assert(column_lines(t.columns.take(i + 1), engine) =~= column_lines(
            t.columns.take(i as int),
            engine,
        ).push("  "@ + column_def_spec(t.columns[i as int], engine)));
        assert(parts.deep_view() =~= column_lines(t.columns.take(i + 1), engine));
        i += 1;
    }
    assert(t.columns.take(table.columns.len() as int) == t.columns);
    let ghost p1 = parts.deep_view();
    match &table.primary_key {
        Some(pk) => {
            let mut line = String::from_str("  ");
            line.append(constraint_name_part_exec(&pk.name, engine).as_str());
            line.append("PRIMARY KEY (");
            line.append(quoted_list_exec(&pk.columns, engine).as_str());
            line.append(")");
            parts.push(line);
        },
        None => {},
    }
    assert(parts.deep_view() =~= p1 + pk_lines(t.primary_key, engine));
    let ghost p2 = parts.deep_view();
    let mut i: usize = 0;
    while i < table.unique_constraints.len()
        invariant
            i <= table.unique_constraints.len(),
            t == table@,
            parts.deep_view() == p2 + unique_lines(t.unique_constraints.take(i as int), engine),
        decreases table.unique_constraints.len() - i,
    {
        let mut line = String::from_str("  ");
        line.append(unique_constraint_def(&table.unique_constraints[i], engine).as_str());
        let ghost before = parts.deep_view();
        parts.push(line);
        assert(parts.deep_view() =~= before.push("  "@ + unique_constraint_spec(t.unique_constraints[i as int], engine)));
        assert(unique_lines(t.unique_constraints.take(i + 1), engine) =~= unique_lines(
            t.unique_constraints.take(i as int),
            engine,
        ).push("  "@ + unique_constraint_spec(t.unique_constraints[i as int], engine)));
        assert(parts.deep_view() =~= p2 + unique_lines(
            t.unique_constraints.take(i + 1),
            engine,
        ));
        i += 1;
    }
    assert(t.unique_constraints.take(table.unique_constraints.len() as int)
        == t.unique_constraints);
    let ghost p3 = parts.deep_view();
    let mut i: usize = 0;
    while i < table.check_constraints.len()
        invariant
            i <= table.check_constraints.len(),
            t == table@,
            parts.deep_view() == p3 + check_lines(t.check_constraints.take(i as int), engine),
        decreases table.check_constraints.len() - i,
    {
        let mut line = String::from_str("  ");
        line.append(check_constraint_def(&table.check_constraints[i], engine).as_str());
        let ghost before = parts.deep_view();
        parts.push(line);
        assert(parts.deep_view() =~= before.push("  "@ + check_constraint_spec(t.check_constraints[i as int], engine)));
        assert(check_lines(t.check_constraints.take(i + 1), engine) =~= check_lines(
            t.check_constraints.take(i as int),
            engine,
        ).push("  "@ + check_constraint_spec(t.check_constraints[i as int], engine)));
        assert(parts.deep_view() =~= p3 + check_lines(t.check_constraints.take(i + 1), engine));
        i += 1;
    }
    assert(t.check_constraints.take(table.check_constraints.len() as int)
        == t.check_constraints);
    let ghost p4 = parts.deep_view();
    let mut i: usize = 0;
    while i < table.foreign_keys.len()
        invariant
            i <= table.foreign_keys.len(),
            t == table@,
            parts.deep_view() == p4 + fk_lines(t.foreign_keys.take(i as int), engine),
        decreases table.foreign_keys.len() - i,
    {
        let mut line = String::from_str("  ");
        line.append(fk_constraint(&table.foreign_keys[i], engine).as_str());
        let ghost before = parts.deep_view();
        parts.push(line);
        assert(parts.deep_view() =~= before.push("  "@ + fk_constraint_spec(t.foreign_keys[i as int], engine)));
        assert(fk_lines(t.foreign_keys.take(i + 1), engine) =~= fk_lines(
            t.foreign_keys.take(i as int),
            engine,
        ).push("  "@ + fk_constraint_spec(t.foreign_keys[i as int], engine)));
        assert(parts.deep_view() =~= p4 + fk_lines(t.foreign_keys.take(i + 1), engine));
        i += 1;
    }
    assert(t.foreign_keys.take(table.foreign_keys.len() as int) == t.foreign_keys);
    assert(parts.deep_view() =~= create_table_parts(t, engine));
    let mut sql = String::from_str("CREATE TABLE ");
    sql.append(quote_ident(table.name.as_str(), engine).as_str());
    sql.append(" (\n");
    sql.append(join_strings(&parts, ",\n").as_str());
    sql.append("\n)");
    let ghost before = sql@;
    if engine == Engine::Mysql {
        append_opt_clause(&mut sql, " ENGINE=", &table.options.engine);
        append_opt_clause(&mut sql, " DEFAULT CHARSET=", &table.options.charset);
        append_opt_clause(&mut sql, " COLLATE=", &table.options.collation);
    }
    assert(sql@ =~= before + table_options_sql(t.options, engine));
    sql.append(";");
    sql
}

// ---------------------------------------------------------------------------
// ALTER COLUMN
// ---------------------------------------------------------------------------

/// Statements for one `kind: old -> new` part of an AlterColumn description.
pub open spec fn alter_part_stmts(
    table: Seq<char>,
    column: Seq<char>,
    part: Seq<char>,
    engine: Engine,
) -> Seq<Seq<char>> {
    let qt = quote(table, engine);
    let qc = quote(column, engine);
    let pg = engine == Engine::Postgres;
    match strip_prefix(part, "type: "@) {
        Some(tc) => match split_once(tc, " -> "@) {
            Some((_old, new)) => if pg {
                seq![
                    "ALTER TABLE "@ + qt + " ALTER COLUMN "@ + qc + " TYPE "@ + new + " USING "@
                        + qc + "::"@ + new + ";"@,
                ]
            } else {
                seq!["ALTER TABLE "@ + qt + " MODIFY COLUMN "@ + qc + " "@ + new + ";"@]
            },
            None => seq![],
        },
        None => match strip_prefix(part, "nullable: "@) {
            Some(nc) => match split_once(nc, " -> "@) {
                Some((_old, new)) => if pg {
                    if new == "true"@ {
                        seq!["ALTER TABLE "@ + qt + " ALTER COLUMN "@ + qc + " DROP NOT NULL;"@]
                    } else {
                        seq!["ALTER TABLE "@ + qt + " ALTER COLUMN "@ + qc + " SET NOT NULL;"@]
                    }
                } else {
                    seq![]
                },
                None => seq![],
            },
            None => match strip_prefix(part, "default: "@) {
                Some(dc) => match split_once(dc, " -> "@) {
                    Some((_old, new)) => if pg {
                        if new == "none"@ {
                            seq!["ALTER TABLE "@ + qt + " ALTER COLUMN "@ + qc + " DROP DEFAULT;"@]
                        } else {
                            seq![
                                "ALTER TABLE "@ + qt + " ALTER COLUMN "@ + qc + " SET DEFAULT "@
                                    + new + ";"@,
                            ]
                        }
                    } else {
                        seq![]
                    },
                    None => seq![],
                },
                None => seq![],
            },
        },
    }
}

pub open spec fn alter_parts_stmts(
    table: Seq<char>,
    column: Seq<char>,
    parts: Seq<Seq<char>>,
    engine: Engine,
) -> Seq<Seq<char>>
    decreases parts.len(),
{
    if parts.len() == 0 {
        seq![]
    } else {
        alter_parts_stmts(table, column, parts.drop_last(), engine) + alter_part_stmts(
            table,
            column,
            parts.last(),
            engine,
        )
    }
}

/// Statements for an AlterColumn change with the given description.
pub open spec fn alter_column_spec(
    table: Seq<char>,
    column: Seq<char>,
    description: Seq<char>,
    engine: Engine,
) -> Seq<Seq<char>> {
    if contains(description, "-- requires manual rollback"@) {
        seq!["-- ALTER COLUMN "@ + table + "."@ + column + " requires manual migration"@]
    } else {
        alter_parts_stmts(table, column, split_pat(description, ", "@), engine)
    }
}

fn alter_stmt_prefix(qt: &String, qc: &String, middle: &str) -> (r: String)
    ensures
        r@ == "ALTER TABLE "@ + qt@ + middle@ + qc@,
{
    let mut r = String::from_str("ALTER TABLE ");
    r.append(qt.as_str());
    r.append(middle);
    r.append(qc.as_str());
    r
}

fn alter_part_exec(table: &str, column: &str, part: &[char], engine: Engine) -> (r: Vec<String>)
    ensures
        r.deep_view() == alter_part_stmts(table@, column@, part@, engine),
{
    let qt = quote_ident(table, engine);
    let qc = quote_ident(column, engine);
    let pg = engine == Engine::Postgres;
    let arrow = str_to_chars(" -> ");
    let mut r: Vec<String> = Vec::new();
    let type_p = str_to_chars("type: ");
    let null_p = str_to_chars("nullable: ");
    let def_p = str_to_chars("default: ");
    match strip_prefix_exec(part, type_p.as_slice()) {
        Some(tc) => match split_once_exec(tc, arrow.as_slice()) {
            Some((_old, new)) => {
                if pg {
                    let mut st = alter_stmt_prefix(&qt, &qc, " ALTER COLUMN ");
                    st.append(" TYPE ");
                    append_chars(&mut st, new);
                    st.append(" USING ");
                    st.append(qc.as_str());
                    st.append("::");
                    append_chars(&mut st, new);
                    st.append(";");
                    r.push(st);
                } else {
                    let mut st = alter_stmt_prefix(&qt, &qc, " MODIFY COLUMN ");
                    st.append(" ");
                    append_chars(&mut st, new);
                    st.append(";");
                    r.push(st);
                }
            },
            None => {},
        },
        None => match strip_prefix_exec(part, null_p.as_slice()) {
            Some(nc) => match split_once_exec(nc, arrow.as_slice()) {
                Some((_old, new)) => {
                    if pg {
                        let t = str_to_chars("true");
                        if chars_eq(new, t.as_slice()) {
                            let mut st = alter_stmt_prefix(&qt, &qc, " ALTER COLUMN ");
                            st.append(" DROP NOT NULL;");
                            r.push(st);
                        } else {
                            let mut st = alter_stmt_prefix(&qt, &qc, " ALTER COLUMN ");
                            st.append(" SET NOT NULL;");
                            r.push(st);
                        }
                    }
                },
                None => {},
            },
            None => match strip_prefix_exec(part, def_p.as_slice()) {
                Some(dc) => match split_once_exec(dc, arrow.as_slice()) {
                    Some((_old, new)) => {
                        if pg {
                            let n = str_to_chars("none");
                            if chars_eq(new, n.as_slice()) {
                                let mut st = alter_stmt_prefix(&qt, &qc, " ALTER COLUMN ");
                                st.append(" DROP DEFAULT;");
                                r.push(st);
                            } else {
                                let mut st = alter_stmt_prefix(&qt, &qc, " ALTER COLUMN ");
                                st.append(" SET DEFAULT ");
                                append_chars(&mut st, new);
                                st.append(";");
                                r.push(st);
                            }
                        }
                    },
                    None => {},
                },
                None => {},
            },
        },
    }
    assert(r.deep_view() =~= alter_part_stmts(table@, column@, part@, engine));
    r
}

/// Generate ALTER COLUMN statements from a description string.
pub fn generate_alter_column(table: &str, column: &str, description: &str, engine: Engine) -> (r:
    Vec<String>)
    ensures
        r.deep_view() == alter_column_spec(table@, column@, description@, engine),
{
    let desc = str_to_chars(description);
    let manual = str_to_chars("-- requires manual rollback");
    let mut stmts: Vec<String> = Vec::new();
    if contains_exec(desc.as_slice(), manual.as_slice()) {
        let mut st = String::from_str("-- ALTER COLUMN ");
        st.append(table);
        st.append(".");
        st.append(column);
        st.append(" requires manual migration");
        stmts.push(st);
        assert(stmts.deep_view() =~= alter_column_spec(table@, column@, description@, engine));
        return stmts;
    }
    let sep = str_to_chars(", ");
    proof {
        reveal_strlit(", ");
    }
    let parts = split_pat_exec(desc.as_slice(), sep.as_slice());
    let ghost ps = views(parts@);
    let mut i: usize = 0;
    while i < parts.len()
        invariant
            i <= parts.len(),
            ps == views(parts@),
            ps.len() == parts@.len(),
            stmts.deep_view() == alter_parts_stmts(table@, column@, ps.take(i as int), engine),
        decreases parts.len() - i,
    {
        let mut part_stmts = alter_part_exec(table, column, parts[i].as_slice(), engine);
        let ghost before = stmts.deep_view();
        let ghost ext = part_stmts.deep_view();
        stmts.append(&mut part_stmts);
        assert(stmts.deep_view() =~= before + ext);
        assert(ps.take(i + 1).drop_last() =~= ps.take(i as int));
        assert(ps[i as int] == parts@[i as int]@);
        i += 1;
    }
    assert(ps.take(parts.len() as int) == ps);
    stmts
}

// ---------------------------------------------------------------------------
// Constraint lookups used by the generator
// ---------------------------------------------------------------------------

/// An index is addressed by its name, or by its columns joined with `,`.
pub open spec fn index_key_matches(i: IndexV, key: Seq<char>) -> bool {
    i.name == Some(key) || join(i.columns, ","@) == key
}

pub open spec fn index_hits(ixs: Seq<IndexV>, key: Seq<char>) -> Seq<bool> {
    ixs.map_values(|i: IndexV| index_key_matches(i, key))
}

pub open spec fn fk_hits(fks: Seq<ForeignKeyV>, name: Seq<char>) -> Seq<bool> {
    fks.map_values(|f: ForeignKeyV| f.name == Some(name))
}

/// A check constraint is addressed by its name, or by its expression.
pub open spec fn check_hits(ccs: Seq<CheckConstraintV>, key: Seq<char>) -> Seq<bool> {
    ccs.map_values(|c: CheckConstraintV| c.name == Some(key) || c.expression == key)
}

/// A unique constraint is addressed by its name, or by its columns joined with `,`.
pub open spec fn unique_hits(ucs: Seq<UniqueConstraintV>, key: Seq<char>) -> Seq<bool> {
    ucs.map_values(|u: UniqueConstraintV| u.name == Some(key) || join(u.columns, ","@) == key)
}

fn opt_name_is(n: &Option<String>, key: &String) -> (r: bool)
    ensures
        r == (n.deep_view() == Some(key@)),
{
    match n {
        Some(x) => *x == *key,
        None => false,
    }
}

fn joined_is(cols: &Vec<String>, key: &String) -> (r: bool)
    ensures
        r == (join(cols.deep_view(), ","@) == key@),
{
    let j = join_strings(cols, ",");
    j == *key
}

fn find_index(ixs: &Vec<Index>, key: &String) -> (r: Option<usize>)
    ensures
        opt_int(r) == first_true(index_hits(ixs.deep_view(), key@)),
        r matches Some(i) ==> i < ixs.len(),
{
    let ghost hits = index_hits(ixs.deep_view(), key@);
    let mut i: usize = 0;
    while i < ixs.len()
        invariant
            i <= ixs.len(),
            hits == index_hits(ixs.deep_view(), key@),
            hits.len() == ixs.len(),
            forall|j: int| 0 <= j < i ==> !hits[j],
        decreases ixs.len() - i,
    {
        if opt_name_is(&ixs[i].name, key) || joined_is(&ixs[i].columns, key) {
            proof {
                lemma_first_true(hits, Some(i as int));
            }
            return Some(i);
        }
        i += 1;
    }
    proof {
        lemma_first_true(hits, None);
    }
    None
}

fn find_fk(fks: &Vec<ForeignKey>, name: &String) -> (r: Option<usize>)
    ensures
        opt_int(r) == first_true(fk_hits(fks.deep_view(), name@)),
        r matches Some(i) ==> i < fks.len(),
{
    let ghost hits = fk_hits(fks.deep_view(), name@);
    let mut i: usize = 0;
    while i < fks.len()
        invariant
            i <= fks.len(),
            hits == fk_hits(fks.deep_view(), name@),
            hits.len() == fks.len(),
            forall|j: int| 0 <= j < i ==> !hits[j],
        decreases fks.len() - i,
    {
        if opt_name_is(&fks[i].name, name) {
            proof {
                lemma_first_true(hits, Some(i as int));
            }
            return Some(i);
        }
        i += 1;
    }
    proof {
        lemma_first_true(hits, None);
    }
    None
}

fn find_check(ccs: &Vec<CheckConstraint>, key: &String) -> (r: Option<usize>)
    ensures
        opt_int(r) == first_true(check_hits(ccs.deep_view(), key@)),
        r matches Some(i) ==> i < ccs.len(),
{
    let ghost hits = check_hits(ccs.deep_view(), key@);
    let mut i: usize = 0;
    while i < ccs.len()
        invariant
            i <= ccs.len(),
            hits == check_hits(ccs.deep_view(), key@),
            hits.len() == ccs.len(),
            forall|j: int| 0 <= j < i ==> !hits[j],
        decreases ccs.len() - i,
    {
        if opt_name_is(&ccs[i].name, key) || ccs[i].expression == *key {
            proof {
                lemma_first_true(hits, Some(i as int));
            }
            return Some(i);
        }
        i += 1;
    }
    proof {
        lemma_first_true(hits, None);
    }
    None
}

fn find_unique(ucs: &Vec<UniqueConstraint>, key: &String) -> (r: Option<usize>)
    ensures
        opt_int(r) == first_true(unique_hits(ucs.deep_view(), key@)),
        r matches Some(i) ==> i < ucs.len(),
{
    let ghost hits = unique_hits(ucs.deep_view(), key@);
    let mut i: usize = 0;
    while i < ucs.len()
        invariant
            i <= ucs.len(),
            hits == unique_hits(ucs.deep_view(), key@),
            hits.len() == ucs.len(),
            forall|j: int| 0 <= j < i ==> !hits[j],
        decreases ucs.len() - i,
    {
        if opt_name_is(&ucs[i].name, key) || joined_is(&ucs[i].columns, key) {
            proof {
                lemma_first_true(hits, Some(i as int));
            }
            return Some(i);
        }
        i += 1;
    }
    proof {
        lemma_first_true(hits, None);
    }
    None
}

fn find_table_by(tables: &Vec<Table>, name: &String) -> (r: Option<usize>)
    ensures
        opt_int(r) == table_pos(tables.deep_view(), name@),
        r matches Some(i) ==> i < tables.len(),
{
    let n = str_to_chars(name.as_str());
    find_table(tables, n.as_slice())
}

// ---------------------------------------------------------------------------
// Forward generation
// ---------------------------------------------------------------------------

/// Phase 1: enum types (CREATE TYPE, ALTER TYPE ... ADD VALUE, DROP TYPE).
pub open spec fn enum_phase(c: ChangeV, schema: SchemaV, engine: Engine) -> Seq<Seq<char>> {
    match c {
        ChangeV::AddEnum { name } => match enum_pos(schema.enums, name) {
            Some(i) => seq![
                "CREATE TYPE "@ + quote(name, engine) + " AS ENUM ("@ + join(
                    literal_all(schema.enums[i].values),
                    ", "@,
                ) + ");"@,
            ],
            None => seq![],
        },
        ChangeV::AlterEnum { name, description } => if engine == Engine::Postgres && contains(
            description,
            "added values:"@,
        ) {
            match strip_prefix(description, "added values: "@) {
                Some(added) => add_value_stmts(
                    name,
                    split_pat(before_first(added, "; "@), ", "@),
                    engine,
                ),
                None => seq![],
            }
        } else {
            seq![]
        },
        ChangeV::DropEnum { name } => seq!["DROP TYPE "@ + quote(name, engine) + ";"@],
        _ => seq![],
    }
}

pub open spec fn add_value_stmts(name: Seq<char>, vals: Seq<Seq<char>>, engine: Engine) -> Seq<
    Seq<char>,
> {
    vals.map_values(
        |v: Seq<char>| "ALTER TYPE "@ + quote(name, engine) + " ADD VALUE "@ + sql_literal(v) + ";"@,
    )
}

/// Phase 2: new tables.
pub open spec fn table_phase(c: ChangeV, schema: SchemaV, engine: Engine) -> Seq<Seq<char>> {
    match c {
        ChangeV::AddTable(name) => match table_pos(schema.tables, name) {
            Some(i) => seq![create_table_spec(schema.tables[i], engine)],
            None => seq![],
        },
        _ => seq![],
    }
}

pub open spec fn alter_table(table: Seq<char>, rest: Seq<char>, engine: Engine) -> Seq<char> {
    "ALTER TABLE "@ + quote(table, engine) + rest
}

/// Phase 3: changes inside existing tables.
pub open spec fn column_phase(c: ChangeV, schema: SchemaV, engine: Engine) -> Seq<Seq<char>> {
    let pg = engine == Engine::Postgres;
    match c {
        ChangeV::AddColumn { table, column } => match table_pos(schema.tables, table) {
            Some(t) => match column_pos(schema.tables[t].columns, column) {
                Some(k) => seq![
                    alter_table(
                        table,
                        " ADD COLUMN "@ + column_def_spec(schema.tables[t].columns[k], engine)
                            + ";"@,
                        engine,
                    ),
                ],
                None => seq![],
            },
            None => seq![],
        },
        ChangeV::DropColumn { table, column } => seq![
            alter_table(table, " DROP COLUMN "@ + quote(column, engine) + ";"@, engine),
        ],
        ChangeV::AlterColumn { table, column, description } => alter_column_spec(
            table,
            column,
            description,
            engine,
        ),
        ChangeV::AddIndex { table, index } => match table_pos(schema.tables, table) {
            Some(t) => match first_true(index_hits(schema.tables[t].indexes, index)) {
                Some(k) => seq![create_index_spec(schema.tables[t].indexes[k], table, engine)],
                None => seq![],
            },
            None => seq![],
        },
        ChangeV::DropIndex { table: _, index } => seq!["DROP INDEX "@ + quote(index, engine) + ";"@],
        ChangeV::AddForeignKey { table, name } => match table_pos(schema.tables, table) {
            Some(t) => match first_true(fk_hits(schema.tables[t].foreign_keys, name)) {
                Some(k) => seq![
                    alter_table(
                        table,
                        " ADD "@ + fk_constraint_spec(schema.tables[t].foreign_keys[k], engine)
                            + ";"@,
                        engine,
                    ),
                ],
                None => seq![],
            },
            None => seq![],
        },
        ChangeV::DropForeignKey { table, name } => seq![
            alter_table(
                table,
                if pg {
                    " DROP CONSTRAINT "@
                } else {
                    " DROP FOREIGN KEY "@
                } + quote(name, engine) + ";"@,
                engine,
            ),
        ],
        ChangeV::AddCheckConstraint { table, name } => match table_pos(schema.tables, table) {
            Some(t) => match first_true(check_hits(schema.tables[t].check_constraints, name)) {
                Some(k) => seq![
                    alter_table(
                        table,
                        " ADD "@ + check_constraint_spec(
                            schema.tables[t].check_constraints[k],
                            engine,
                        ) + ";"@,
                        engine,
                    ),
                ],
                None => seq![],
            },
            None => seq![],
        },
        ChangeV::DropCheckConstraint { table, name } => seq![
            alter_table(table, " DROP CONSTRAINT "@ + quote(name, engine) + ";"@, engine),
        ],
        ChangeV::AddUniqueConstraint { table, name } => match table_pos(schema.tables, table) {
            Some(t) => match first_true(unique_hits(schema.tables[t].unique_constraints, name)) {
                Some(k) => seq![
                    alter_table(
                        table,
                        " ADD "@ + unique_constraint_spec(
                            schema.tables[t].unique_constraints[k],
                            engine,
                        ) + ";"@,
                        engine,
                    ),
                ],
                None => seq![],
            },
            None => seq![],
        },
        ChangeV::DropUniqueConstraint { table, name } => seq![
            alter_table(
                table,
                if pg {
                    " DROP CONSTRAINT "@
                } else {
                    " DROP INDEX "@
                } + quote(name, engine) + ";"@,
                engine,
            ),
        ],
        ChangeV::ChangePrimaryKey { table } => match table_pos(schema.tables, table) {
            Some(t) => seq![alter_table(table, " DROP CONSTRAINT "@ + table + "_pkey;"@, engine)]
                + match schema.tables[t].primary_key {
                Some(pk) => seq![
                    alter_table(
                        table,
                        " ADD PRIMARY KEY ("@ + quoted_list(pk.columns, engine) + ");"@,
                        engine,
                    ),
                ],
                None => seq![],
            },
            None => seq![],
        },
        _ => seq![],
    }
}

/// Phase 4: dropped tables.
pub open spec fn drop_phase(c: ChangeV, engine: Engine) -> Seq<Seq<char>> {
    match c {
        ChangeV::DropTable(name) => seq!["DROP TABLE "@ + quote(name, engine) + ";"@],
        _ => seq![],
    }
}

pub open spec fn phase_stmts(phase: int, c: ChangeV, schema: SchemaV, engine: Engine) -> Seq<
    Seq<char>,
> {
    if phase == 1 {
        enum_phase(c, schema, engine)
    } else if phase == 2 {
        table_phase(c, schema, engine)
    } else if phase == 3 {
        column_phase(c, schema, engine)
    } else {
        drop_phase(c, engine)
    }
}

/// The statements of one phase for all changes, in change order.
pub open spec fn phase_all(phase: int, cs: Seq<ChangeV>, schema: SchemaV, engine: Engine) -> Seq<
    Seq<char>,
>
    decreases cs.len(),
{
    if cs.len() == 0 {
        seq![]
    } else {
        phase_all(phase, cs.drop_last(), schema, engine) + phase_stmts(
            phase,
            cs.last(),
            schema,
            engine,
        )
    }
}

/// Forward migration: enums, then new tables, then in-table changes, then
/// dropped tables; within each phase the changes keep their order.
pub open spec fn forward_spec(cs: Seq<ChangeV>, schema: SchemaV, engine: Engine) -> Seq<Seq<char>> {
    phase_all(1, cs, schema, engine) + phase_all(2, cs, schema, engine) + phase_all(
        3,
        cs,
        schema,
        engine,
    ) + phase_all(4, cs, schema, engine)
}

fn enum_step(c: &Change, schema: &Schema, engine: Engine) -> (r: Vec<String>)
    ensures
        r.deep_view() == enum_phase(c@, schema@, engine),
{
    let mut r: Vec<String> = Vec::new();
    match c {
        Change::AddEnum { name } => {
            let n = str_to_chars(name.as_str());
            match find_enum(&schema.enums, n.as_slice()) {
                Some(i) => {
                    let mut st = String::from_str("CREATE TYPE ");
                    st.append(quote_ident(name.as_str(), engine).as_str());
                    st.append(" AS ENUM (");
                    st.append(join_strings(&literal_all_exec(&schema.enums[i].values), ", ").as_str());
                    st.append(");");
                    r.push(st);
                },
                None => {},
            }
        },
        Change::AlterEnum { name, description } => {
            let d = str_to_chars(description.as_str());
            let marker = str_to_chars("added values:");
            if engine == Engine::Postgres && contains_exec(d.as_slice(), marker.as_slice()) {
                let pre = str_to_chars("added values: ");
                match strip_prefix_exec(d.as_slice(), pre.as_slice()) {
                    Some(added) => {
                        let semi = str_to_chars("; ");
                        let comma = str_to_chars(", ");
                        proof {
                            reveal_strlit(", ");
                        }
                        let first = before_first_exec(added, semi.as_slice());
                        let vals = split_pat_exec(first, comma.as_slice());
                        let ghost vs = views(vals@);
                        let mut i: usize = 0;
                        while i < vals.len()
                            invariant
                                i <= vals.len(),
                                vs == views(vals@),
                                vs.len() == vals@.len(),
                                r.deep_view() == add_value_stmts(
                                    name@,
                                    vs.take(i as int),
                                    engine,
                                ),
                            decreases vals.len() - i,
                        {
                            let mut st = String::from_str("ALTER TYPE ");
                            st.append(quote_ident(name.as_str(), engine).as_str());
                            st.append(" ADD VALUE ");
                            let v = crate::text::chars_to_string(vals[i].as_slice());
                            st.append(sql_literal_str(v.as_str()).as_str());
                            st.append(";");
                            let ghost before = r.deep_view();
                            r.push(st);
                            assert(r.deep_view() =~= before.push(st@));
                            assert(add_value_stmts(name@, vs.take(i + 1), engine)
                                =~= add_value_stmts(name@, vs.take(i as int), engine).push(
                                "ALTER TYPE "@ + quote(name@, engine) + " ADD VALUE "@
                                    + sql_literal(vs[i as int]) + ";"@,
                            ));
                            i += 1;
                        }
                        assert(vs.take(vals.len() as int) == vs);
                    },
                    None => {},
                }
            }
        },
        Change::DropEnum { name } => {
            let mut st = String::from_str("DROP TYPE ");
            st.append(quote_ident(name.as_str(), engine).as_str());
            st.append(";");
            r.push(st);
        },
        _ => {},
    }
    assert(r.deep_view() =~= enum_phase(c@, schema@, engine));
    r
}

fn table_step(c: &Change, schema: &Schema, engine: Engine) -> (r: Vec<String>)
    ensures
        r.deep_view() == table_phase(c@, schema@, engine),
{
    let mut r: Vec<String> = Vec::new();
    if let Change::AddTable(name) = c {
        if let Some(i) = find_table_by(&schema.tables, name) {
            r.push(generate_create_table(&schema.tables[i], engine));
        }
    }
    assert(r.deep_view() =~= table_phase(c@, schema@, engine));
    r
}

fn alter_table_exec(table: &String, rest: &String, engine: Engine) -> (r: String)
    ensures
        r@ == alter_table(table@, rest@, engine),
{
    let mut st = String::from_str("ALTER TABLE ");
    st.append(quote_ident(table.as_str(), engine).as_str());
    st.append(rest.as_str());
    st
}

fn column_step(c: &Change, schema: &Schema, engine: Engine) -> (r: Vec<String>)
    ensures
        r.deep_view() == column_phase(c@, schema@, engine),
{
    let pg = engine == Engine::Postgres;
    let mut r: Vec<String> = Vec::new();
    match c {
        Change::AddColumn { table, column } => {
            if let Some(t) = find_table_by(&schema.tables, table) {
                let cn = str_to_chars(column.as_str());
                if let Some(k) = find_column(&schema.tables[t].columns, cn.as_slice()) {
                    let mut rest = String::from_str(" ADD COLUMN ");
                    rest.append(column_def(&schema.tables[t].columns[k], engine).as_str());
                    rest.append(";");
                    r.push(alter_table_exec(table, &rest, engine));
                }
            }
        },
        Change::DropColumn { table, column } => {
            let mut rest = String::from_str(" DROP COLUMN ");
            rest.append(quote_ident(column.as_str(), engine).as_str());
            rest.append(";");
            r.push(alter_table_exec(table, &rest, engine));
        },
        Change::AlterColumn { table, column, description } => {
            r = generate_alter_column(table.as_str(), column.as_str(), description.as_str(), engine);
        },
        Change::AddIndex { table, index } => {
            if let Some(t) = find_table_by(&schema.tables, table) {
                if let Some(k) = find_index(&schema.tables[t].indexes, index) {
                    r.push(generate_create_index(&schema.tables[t].indexes[k], table.as_str(), engine));
                }
            }
        },
        Change::DropIndex { table: _, index } => {
            let mut st = String::from_str("DROP INDEX ");
            st.append(quote_ident(index.as_str(), engine).as_str());
            st.append(";");
            r.push(st);
        },
        Change::AddForeignKey { table, name } => {
            if let Some(t) = find_table_by(&schema.tables, table) {
                if let Some(k) = find_fk(&schema.tables[t].foreign_keys, name) {
                    let mut rest = String::from_str(" ADD ");
                    rest.append(fk_constraint(&schema.tables[t].foreign_keys[k], engine).as_str());
                    rest.append(";");
                    r.push(alter_table_exec(table, &rest, engine));
                }
            }
        },
        Change::DropForeignKey { table, name } => {
            let mut rest = if pg {
                String::from_str(" DROP CONSTRAINT ")
            } else {
                String::from_str(" DROP FOREIGN KEY ")
            };
            rest.append(quote_ident(name.as_str(), engine).as_str());
            rest.append(";");
            r.push(alter_table_exec(table, &rest, engine));
        },
        Change::AddCheckConstraint { table, name } => {
            if let Some(t) = find_table_by(&schema.tables, table) {
                if let Some(k) = find_check(&schema.tables[t].check_constraints, name) {
                    let mut rest = String::from_str(" ADD ");
                    rest.append(
                        check_constraint_def(&schema.tables[t].check_constraints[k], engine).as_str(),
                    );
                    rest.append(";");
                    r.push(alter_table_exec(table, &rest, engine));
                }
            }
        },
        Change::DropCheckConstraint { table, name } => {
            let mut rest = String::from_str(" DROP CONSTRAINT ");
            rest.append(quote_ident(name.as_str(), engine).as_str());
            rest.append(";");
            r.push(alter_table_exec(table, &rest, engine));
        },
        Change::AddUniqueConstraint { table, name } => {
            if let Some(t) = find_table_by(&schema.tables, table) {
                if let Some(k) = find_unique(&schema.tables[t].unique_constraints, name) {
                    let mut rest = String::from_str(" ADD ");
                    rest.append(
                        unique_constraint_def(&schema.tables[t].unique_constraints[k], engine).as_str(),
                    );
                    rest.append(";");
                    r.push(alter_table_exec(table, &rest, engine));
                }
            }
        },
        Change::DropUniqueConstraint { table, name } => {
            let mut rest = if pg {
                String::from_str(" DROP CONSTRAINT ")
            } else {
                String::from_str(" DROP INDEX ")
            };
            rest.append(quote_ident(name.as_str(), engine).as_str());
            rest.append(";");
            r.push(alter_table_exec(table, &rest, engine));
        },
        Change::ChangePrimaryKey { table } => {
            if let Some(t) = find_table_by(&schema.tables, table) {
                let mut rest = String::from_str(" DROP CONSTRAINT ");
                rest.append(table.as_str());
                rest.append("_pkey;");
                r.push(alter_table_exec(table, &rest, engine));
                if let Some(pk) = &schema.tables[t].primary_key {
                    let mut rest2 = String::from_str(" ADD PRIMARY KEY (");
                    rest2.append(quoted_list_exec(&pk.columns, engine).as_str());
                    rest2.append(");");
                    r.push(alter_table_exec(table, &rest2, engine));
                }
            }
        },
        _ => {},
    }
    assert(r.deep_view() =~= column_phase(c@, schema@, engine));
    r
}

fn drop_step(c: &Change, engine: Engine) -> (r: Vec<String>)
    ensures
        r.deep_view() == drop_phase(c@, engine),
{
    let mut r: Vec<String> = Vec::new();
    if let Change::DropTable(name) = c {
        let mut st = String::from_str("DROP TABLE ");
        st.append(quote_ident(name.as_str(), engine).as_str());
        st.append(";");
        r.push(st);
    }
    assert(r.deep_view() =~= drop_phase(c@, engine));
    r
}

fn append_phase(
    stmts: &mut Vec<String>,
    phase: u8,
    changes: &Vec<Change>,
    schema: &Schema,
    engine: Engine,
)
    requires
        1 <= phase <= 4,
    ensures
        final(stmts).deep_view() == old(stmts).deep_view() + phase_all(
            phase as int,
            changes.deep_view(),
            schema@,
            engine,
        ),
{
    let ghost start = stmts.deep_view();
    let ghost cs = changes.deep_view();
    let mut i: usize = 0;
    while i < changes.len()
        invariant
            i <= changes.len(),
            1 <= phase <= 4,
            cs == changes.deep_view(),
            stmts.deep_view() == start + phase_all(phase as int, cs.take(i as int), schema@, engine),
        decreases changes.len() - i,
    {
        let mut step = if phase == 1 {
            enum_step(&changes[i], schema, engine)
        } else if phase == 2 {
            table_step(&changes[i], schema, engine)
        } else if phase == 3 {
            column_step(&changes[i], schema, engine)
        } else {
            drop_step(&changes[i], engine)
        };
        let ghost before = stmts.deep_view();
        let ghost ext = step.deep_view();
        assert(ext == phase_stmts(phase as int, cs[i as int], schema@, engine));
        stmts.append(&mut step);
        assert(stmts.deep_view() =~= before + ext);
        assert(cs.take(i + 1).drop_last() =~= cs.take(i as int));
        i += 1;
    }
    assert(cs.take(changes.len() as int) == cs);
}

/// Generate forward migration SQL from a schema diff.
pub fn generate_forward(diff: &SchemaDiff, schema: &Schema, engine: Engine) -> (r: Vec<String>)
    ensures
        r.deep_view() == forward_spec(diff@, schema@, engine),
{
    let mut statements: Vec<String> = Vec::new();
    assert(statements.deep_view() =~= seq![]);
    append_phase(&mut statements, 1, &diff.changes, schema, engine);
    append_phase(&mut statements, 2, &diff.changes, schema, engine);
    append_phase(&mut statements, 3, &diff.changes, schema, engine);
    append_phase(&mut statements, 4, &diff.changes, schema, engine);
    assert(statements.deep_view() =~= forward_spec(diff@, schema@, engine));
    statements
}

// ---------------------------------------------------------------------------
// Rollback
// ---------------------------------------------------------------------------

/// The change that undoes `c`. Column and enum alterations cannot be undone
/// without the old state and become manual-rollback markers.
pub open spec fn reverse_change(c: ChangeV) -> ChangeV {
    match c {
        ChangeV::AddTable(n) => ChangeV::DropTable(n),
        ChangeV::DropTable(n) => ChangeV::AddTable(n),
        ChangeV::AddColumn { table, column } => ChangeV::DropColumn { table, column },
        ChangeV::DropColumn { table, column } => ChangeV::AddColumn { table, column },
        ChangeV::AddIndex { table, index } => ChangeV::DropIndex { table, index },
        ChangeV::DropIndex { table, index } => ChangeV::AddIndex { table, index },
        ChangeV::AddForeignKey { table, name } => ChangeV::DropForeignKey { table, name },
        ChangeV::DropForeignKey { table, name } => ChangeV::AddForeignKey { table, name },
        ChangeV::AddCheckConstraint { table, name } => ChangeV::DropCheckConstraint {
            table,
            name,
        },
        ChangeV::DropCheckConstraint { table, name } => ChangeV::AddCheckConstraint {
            table,
            name,
        },
        ChangeV::AddUniqueConstraint { table, name } => ChangeV::DropUniqueConstraint {
            table,
            name,
        },
        ChangeV::DropUniqueConstraint { table, name } => ChangeV::AddUniqueConstraint {
            table,
            name,
        },
        ChangeV::AddEnum { name } => ChangeV::DropEnum { name },
        ChangeV::DropEnum { name } => ChangeV::AddEnum { name },
        ChangeV::AlterColumn { table, column, .. } => ChangeV::AlterColumn {
            table,
            column,
            description: "-- requires manual rollback"@,
        },
        ChangeV::AlterEnum { name, .. } => ChangeV::AlterEnum {
            name,
            description: "-- requires manual rollback"@,
        },
        ChangeV::ChangePrimaryKey { table } => ChangeV::ChangePrimaryKey { table },
    }
}

/// The reverses of the changes, last change first.
pub open spec fn reverse_changes(cs: Seq<ChangeV>) -> Seq<ChangeV>
    decreases cs.len(),
{
    if cs.len() == 0 {
        seq![]
    } else {
        seq![reverse_change(cs.last())] + reverse_changes(cs.drop_last())
    }
}

/// Rollback migration: the reversed changes, with the forward phases undone
/// in reverse order. What the forward migration did last (dropping tables)
/// is undone first, by the table-creating phase; then the in-table changes;
/// then what the forward migration did in its table-creating phase, by the
/// table-dropping phase; the enum phase comes last.
pub open spec fn rollback_spec(cs: Seq<ChangeV>, old_schema: SchemaV, engine: Engine) -> Seq<
    Seq<char>,
> {
    let r = reverse_changes(cs);
    phase_all(2, r, old_schema, engine) + phase_all(3, r, old_schema, engine) + phase_all(
        4,
        r,
        old_schema,
        engine,
    ) + phase_all(1, r, old_schema, engine)
}

fn reverse_one(c: &Change) -> (r: Change)
    ensures
        r@ == reverse_change(c@),
{
    match c {
        Change::AddTable(n) => Change::DropTable(n.clone()),
        Change::DropTable(n) => Change::AddTable(n.clone()),
        Change::AddColumn { table, column } => Change::DropColumn {
            table: table.clone(),
            column: column.clone(),
        },
        Change::DropColumn { table, column } => Change::AddColumn {
            table: table.clone(),
            column: column.clone(),
        },
        Change::AddIndex { table, index } => Change::DropIndex {
            table: table.clone(),
            index: index.clone(),
        },
        Change::DropIndex { table, index } => Change::AddIndex {
            table: table.clone(),
            index: index.clone(),
        },
        Change::AddForeignKey { table, name } => Change::DropForeignKey {
            table: table.clone(),
            name: name.clone(),
        },
        Change::DropForeignKey { table, name } => Change::AddForeignKey {
            table: table.clone(),
            name: name.clone(),
        },
        Change::AddCheckConstraint { table, name } => Change::DropCheckConstraint {
            table: table.clone(),
            name: name.clone(),
        },
        Change::DropCheckConstraint { table, name } => Change::AddCheckConstraint {
            table: table.clone(),
            name: name.clone(),
        },
        Change::AddUniqueConstraint { table, name } => Change::DropUniqueConstraint {
            table: table.clone(),
            name: name.clone(),
        },
        Change::DropUniqueConstraint { table, name } => Change::AddUniqueConstraint {
            table: table.clone(),
            name: name.clone(),
        },
        Change::AddEnum { name } => Change::DropEnum { name: name.clone() },
        Change::DropEnum { name } => Change::AddEnum { name: name.clone() },
        Change::AlterColumn { table, column, .. } => Change::AlterColumn {
            table: table.clone(),
            column: column.clone(),
            description: String::from_str("-- requires manual rollback"),
        },
        Change::AlterEnum { name, .. } => Change::AlterEnum {
            name: name.clone(),
            description: String::from_str("-- requires manual rollback"),
        },
        Change::ChangePrimaryKey { table } => Change::ChangePrimaryKey { table: table.clone() },
    }
}

/// The diff that undoes `diff`: each change reversed, in reverse order.
fn reverse_diff(diff: &SchemaDiff) -> (r: SchemaDiff)
    ensures
        r@ == reverse_changes(diff@),
{
    let ghost cs = diff@;
    let mut out: Vec<Change> = Vec::new();
    let mut i: usize = diff.changes.len();
    assert(cs.subrange(i as int, cs.len() as int) =~= seq![]);
    assert(reverse_changes(cs.take(cs.len() as int)) == reverse_changes(cs)) by {
        assert(cs.take(cs.len() as int) =~= cs);
    }
    while i > 0
        invariant
            i <= diff.changes.len(),
            cs == diff@,
            reverse_changes(cs) == out.deep_view() + reverse_changes(cs.take(i as int)),
        decreases i,
    {
        let ghost before = out.deep_view();
        out.push(reverse_one(&diff.changes[i - 1]));
        assert(out.deep_view() =~= before.push(reverse_change(cs[i - 1])));
        assert(cs.take(i as int).drop_last() =~= cs.take(i - 1));
        assert(reverse_changes(cs.take(i as int)) == seq![reverse_change(cs[i - 1])]
            + reverse_changes(cs.take(i - 1)));
        assert(before + reverse_changes(cs.take(i as int)) =~= out.deep_view() + reverse_changes(
            cs.take(i - 1),
        ));
        i -= 1;
    }
    assert(reverse_changes(cs.take(0)) =~= seq![]);
    assert(out.deep_view() =~= reverse_changes(cs));
    SchemaDiff { changes: out }
}

/// Generate rollback migration SQL: the forward migration undone in reverse.
/// Each change is reversed and the list is taken backwards; the forward
/// phases then run in reverse order, so a table that may use an enum type is
/// dropped before the type is.
pub fn generate_rollback(diff: &SchemaDiff, old_schema: &Schema, engine: Engine) -> (r: Vec<
    String,
>)
    ensures
        r.deep_view() == rollback_spec(diff@, old_schema@, engine),
{
    let reverse = reverse_diff(diff);
    let mut statements: Vec<String> = Vec::new();
    assert(statements.deep_view() =~= seq![]);
    append_phase(&mut statements, 2, &reverse.changes, old_schema, engine);
    append_phase(&mut statements, 3, &reverse.changes, old_schema, engine);
    append_phase(&mut statements, 4, &reverse.changes, old_schema, engine);
    append_phase(&mut statements, 1, &reverse.changes, old_schema, engine);
    assert(statements.deep_view() =~= rollback_spec(diff@, old_schema@, engine));
    statements
}

// ---------------------------------------------------------------------------
// Laws
// ---------------------------------------------------------------------------

/// Whether reversing a change keeps all of it: column and enum alterations
/// lose their description.
pub open spec fn exactly_reversible(c: ChangeV) -> bool {
    !(c is AlterColumn) && !(c is AlterEnum)
}

/// Reversing a change that is not an alteration twice gives the change back.
pub proof fn lemma_reverse_change_twice(c: ChangeV)
    requires
        exactly_reversible(c),
    ensures
        reverse_change(reverse_change(c)) == c,
{
}

proof fn lemma_reverse_changes_index(cs: Seq<ChangeV>)
    ensures
        reverse_changes(cs).len() == cs.len(),
        forall|k: int|
            0 <= k < cs.len() ==> #[trigger] reverse_changes(cs)[k] == reverse_change(
                cs[cs.len() - 1 - k],
            ),
    decreases cs.len(),
{
    if cs.len() > 0 {
        let d = cs.drop_last();
        lemma_reverse_changes_index(d);
        assert forall|k: int| 0 <= k < cs.len() implies #[trigger] reverse_changes(cs)[k]
            == reverse_change(cs[cs.len() - 1 - k]) by {
            if k > 0 {
                assert(reverse_changes(cs)[k] == reverse_changes(d)[k - 1]);
                assert(d[d.len() - 1 - (k - 1)] == cs[cs.len() - 1 - k]);
            }
        }
    }
}

/// Reversing a list of changes twice gives the list back, where none of them
/// is a column or enum alteration.
pub proof fn lemma_reverse_changes_twice(cs: Seq<ChangeV>)
    requires
        forall|i: int| 0 <= i < cs.len() ==> exactly_reversible(#[trigger] cs[i]),
    ensures
        reverse_changes(reverse_changes(cs)) == cs,
{
    let r = reverse_changes(cs);
    lemma_reverse_changes_index(cs);
    lemma_reverse_changes_index(r);
    assert forall|k: int| 0 <= k < cs.len() implies #[trigger] reverse_changes(r)[k] == cs[k] by {
        assert(r[r.len() - 1 - k] == reverse_change(cs[k]));
        lemma_reverse_change_twice(cs[k]);
    }
    assert(reverse_changes(r) =~= cs);
}

/// No changes give no statements, forward or back.
pub proof fn lemma_no_changes_no_statements(schema: SchemaV, engine: Engine)
    ensures
        forward_spec(Seq::<ChangeV>::empty(), schema, engine) == Seq::<Seq<char>>::empty(),
        rollback_spec(Seq::<ChangeV>::empty(), schema, engine) == Seq::<Seq<char>>::empty(),
{
    assert(reverse_changes(Seq::<ChangeV>::empty()) =~= Seq::<ChangeV>::empty());
    assert(forward_spec(Seq::<ChangeV>::empty(), schema, engine) =~= Seq::<Seq<char>>::empty());
    assert(rollback_spec(Seq::<ChangeV>::empty(), schema, engine) =~= Seq::<Seq<char>>::empty());
}

/// Migrating a schema to itself takes no statements, forward or back.
pub proof fn lemma_migrate_to_self_empty(s: SchemaV, engine: Engine)
    ensures
        forward_spec(diff_spec(s, s), s, engine) == Seq::<Seq<char>>::empty(),
        rollback_spec(diff_spec(s, s), s, engine) == Seq::<Seq<char>>::empty(),
{
    lemma_diff_self_empty(s);
    lemma_no_changes_no_statements(s, engine);
}

/// The statement by which a rollback undoes a change that adds a table,
/// column, index, enum type or foreign key.
pub open spec fn drop_statement(c: ChangeV, engine: Engine) -> Option<Seq<char>> {
    match c {
        ChangeV::AddTable(n) => Some("DROP TABLE "@ + quote(n, engine) + ";"@),
        ChangeV::AddColumn { table, column } => Some(
            alter_table(table, " DROP COLUMN "@ + quote(column, engine) + ";"@, engine),
        ),
        ChangeV::AddIndex { table: _, index } => Some("DROP INDEX "@ + quote(index, engine) + ";"@),
        ChangeV::AddEnum { name } => Some("DROP TYPE "@ + quote(name, engine) + ";"@),
        ChangeV::AddForeignKey { table, name } => Some(
            alter_table(
                table,
                if engine == Engine::Postgres {
                    " DROP CONSTRAINT "@
                } else {
                    " DROP FOREIGN KEY "@
                } + quote(name, engine) + ";"@,
                engine,
            ),
        ),
        _ => None,
    }
}

proof fn lemma_phase_all_contains(
    phase: int,
    cs: Seq<ChangeV>,
    schema: SchemaV,
    engine: Engine,
    k: int,
    m: int,
)
    requires
        0 <= k < cs.len(),
        0 <= m < phase_stmts(phase, cs[k], schema, engine).len(),
    ensures
        phase_all(phase, cs, schema, engine).contains(phase_stmts(phase, cs[k], schema, engine)[m]),
    decreases cs.len(),
{
    let a = phase_all(phase, cs.drop_last(), schema, engine);
    let b = phase_stmts(phase, cs.last(), schema, engine);
    let x = phase_stmts(phase, cs[k], schema, engine)[m];
    if k == cs.len() - 1 {
        assert((a + b)[a.len() + m] == x);
    } else {
        lemma_phase_all_contains(phase, cs.drop_last(), schema, engine, k, m);
        assert(cs.drop_last()[k] == cs[k]);
        let w = choose|w: int| 0 <= w < a.len() && a[w] == x;
        assert((a + b)[w] == x);
    }
}

/// The rollback drops everything that the changes add: each added table,
/// column, index, enum type and foreign key gets its drop statement.
pub proof fn lemma_rollback_drops_added(cs: Seq<ChangeV>, old_schema: SchemaV, engine: Engine)
    ensures
        forall|i: int|
            0 <= i < cs.len() ==> (#[trigger] drop_statement(cs[i], engine) matches Some(st)
                ==> rollback_spec(cs, old_schema, engine).contains(st)),
{
    let r = reverse_changes(cs);
    lemma_reverse_changes_index(cs);
    let p2 = phase_all(2, r, old_schema, engine);
    let p3 = phase_all(3, r, old_schema, engine);
    let p4 = phase_all(4, r, old_schema, engine);
    let p1 = phase_all(1, r, old_schema, engine);
    let all = rollback_spec(cs, old_schema, engine);
    assert(all == p2 + p3 + p4 + p1);
    assert forall|i: int| 0 <= i < cs.len() implies (#[trigger] drop_statement(cs[i], engine) matches Some(
        st,
    ) ==> all.contains(st)) by {
        let k = cs.len() - 1 - i;
        assert(r[k] == reverse_change(cs[i]));
        match drop_statement(cs[i], engine) {
            Some(st) => {
                if cs[i] is AddTable {
                    lemma_phase_all_contains(4, r, old_schema, engine, k, 0);
                    let w = choose|w: int| 0 <= w < p4.len() && p4[w] == st;
                    assert(all[p2.len() + p3.len() + w] == st);
                } else if cs[i] is AddEnum {
                    lemma_phase_all_contains(1, r, old_schema, engine, k, 0);
                    let w = choose|w: int| 0 <= w < p1.len() && p1[w] == st;
                    assert(all[p2.len() + p3.len() + p4.len() + w] == st);
                } else {
                    lemma_phase_all_contains(3, r, old_schema, engine, k, 0);
                    let w = choose|w: int| 0 <= w < p3.len() && p3[w] == st;
                    assert(all[p2.len() + w] == st);
                }
            },
            None => {},
        }
    }
}


/// The changes without the dropped tables, in order.
pub open spec fn without_table_drops(cs: Seq<ChangeV>) -> Seq<ChangeV>
    decreases cs.len(),
{
    if cs.len() == 0 {
        seq![]
    } else if cs.last() is DropTable {
        without_table_drops(cs.drop_last())
    } else {
        without_table_drops(cs.drop_last()).push(cs.last())
    }
}

/// One `DROP TABLE` statement per dropped table, in change order.
pub open spec fn table_drop_statements(cs: Seq<ChangeV>, engine: Engine) -> Seq<Seq<char>>
    decreases cs.len(),
{
    if cs.len() == 0 {
        seq![]
    } else {
        match cs.last() {
            ChangeV::DropTable(name) => table_drop_statements(cs.drop_last(), engine).push(
                "DROP TABLE "@ + quote(name, engine) + ";"@,
            ),
            _ => table_drop_statements(cs.drop_last(), engine),
        }
    }
}

proof fn lemma_phase_all_without_drops(phase: int, cs: Seq<ChangeV>, schema: SchemaV, engine: Engine)
    requires
        1 <= phase <= 4,
    ensures
        phase <= 3 ==> phase_all(phase, without_table_drops(cs), schema, engine) == phase_all(
            phase,
            cs,
            schema,
            engine,
        ),
        phase == 4 ==> phase_all(phase, without_table_drops(cs), schema, engine) =~= seq![],
        phase == 4 ==> phase_all(phase, cs, schema, engine) =~= table_drop_statements(cs, engine),
    decreases cs.len(),
{
    if cs.len() > 0 {
        let init = cs.drop_last();
        lemma_phase_all_without_drops(phase, init, schema, engine);
        let w = without_table_drops(init);
        if !(cs.last() is DropTable) {
            assert(without_table_drops(cs).drop_last() =~= w);
        }
    }
}

/// A forward migration drops tables last: its statements are those of the
/// same changes without the dropped tables, followed by one `DROP TABLE` per
/// dropped table in change order, so every statement inside a table (such as
/// dropping a foreign key that points at a dropped table) runs before any
/// table is dropped.
pub proof fn lemma_forward_drops_tables_last(cs: Seq<ChangeV>, schema: SchemaV, engine: Engine)
    ensures
        forward_spec(cs, schema, engine) == forward_spec(without_table_drops(cs), schema, engine)
            + table_drop_statements(cs, engine),
{
    lemma_phase_all_without_drops(1, cs, schema, engine);
    lemma_phase_all_without_drops(2, cs, schema, engine);
    lemma_phase_all_without_drops(3, cs, schema, engine);
    lemma_phase_all_without_drops(4, cs, schema, engine);
    let w = without_table_drops(cs);
    assert(forward_spec(w, schema, engine) =~= phase_all(1, cs, schema, engine) + phase_all(
        2,
        cs,
        schema,
        engine,
    ) + phase_all(3, cs, schema, engine));
}


/// Every body line of a `CREATE TABLE` statement occurs in it.
proof fn lemma_create_table_has_part(t: TableV, engine: Engine, k: int)
    requires
        0 <= k < create_table_parts(t, engine).len(),
    ensures
        contains(create_table_spec(t, engine), create_table_parts(t, engine)[k]),
{
    let parts = create_table_parts(t, engine);
    let head = "CREATE TABLE "@ + quote(t.name, engine) + " (\n"@;
    let tail = "\n)"@ + table_options_sql(t.options, engine) + ";"@;
    assert(create_table_spec(t, engine) =~= head + join(parts, ",\n"@) + tail);
    lemma_join_contains_part(head, parts, ",\n"@, tail, k);
}

/// A `CREATE TABLE` statement has one body line for each column, for the
/// primary key where there is one, and for each unique constraint, check
/// constraint and foreign key; the line of each of them occurs in the
/// statement, so none is left out.
pub proof fn lemma_create_table_complete(t: TableV, engine: Engine)
    ensures
        create_table_parts(t, engine).len() == t.columns.len() + (if t.primary_key is Some {
            1int
        } else {
            0int
        }) + t.unique_constraints.len() + t.check_constraints.len() + t.foreign_keys.len(),
        forall|j: int|
            0 <= j < t.columns.len() ==> contains(
                create_table_spec(t, engine),
                "  "@ + column_def_spec(#[trigger] t.columns[j], engine),
            ),
        t.primary_key matches Some(pk) ==> contains(
            create_table_spec(t, engine),
            "  "@ + constraint_name_part(pk.name, engine) + "PRIMARY KEY ("@ + quoted_list(
                pk.columns,
                engine,
            ) + ")"@,
        ),
        forall|j: int|
            0 <= j < t.unique_constraints.len() ==> contains(
                create_table_spec(t, engine),
                "  "@ + unique_constraint_spec(#[trigger] t.unique_constraints[j], engine),
            ),
        forall|j: int|
            0 <= j < t.check_constraints.len() ==> contains(
                create_table_spec(t, engine),
                "  "@ + check_constraint_spec(#[trigger] t.check_constraints[j], engine),
            ),
        forall|j: int|
            0 <= j < t.foreign_keys.len() ==> contains(
                create_table_spec(t, engine),
                "  "@ + fk_constraint_spec(#[trigger] t.foreign_keys[j], engine),
            ),
{
    let parts = create_table_parts(t, engine);
    let a = column_lines(t.columns, engine);
    let b = pk_lines(t.primary_key, engine);
    let c = unique_lines(t.unique_constraints, engine);
    let d = check_lines(t.check_constraints, engine);
    let e = fk_lines(t.foreign_keys, engine);
    assert(parts == a + b + c + d + e);
    assert forall|j: int| 0 <= j < t.columns.len() implies contains(
        create_table_spec(t, engine),
        "  "@ + column_def_spec(#[trigger] t.columns[j], engine),
    ) by {
        assert(parts[j] == a[j]);
        lemma_create_table_has_part(t, engine, j);
    }
    if t.primary_key is Some {
        let k = a.len() as int;
        assert(parts[k] == b[0]);
        lemma_create_table_has_part(t, engine, k);
    }
    assert forall|j: int| 0 <= j < t.unique_constraints.len() implies contains(
        create_table_spec(t, engine),
        "  "@ + unique_constraint_spec(#[trigger] t.unique_constraints[j], engine),
    ) by {
        let k = a.len() + b.len() + j;
        assert(parts[k] == c[j]);
        lemma_create_table_has_part(t, engine, k);
    }
    assert forall|j: int| 0 <= j < t.check_constraints.len() implies contains(
        create_table_spec(t, engine),
        "  "@ + check_constraint_spec(#[trigger] t.check_constraints[j], engine),
    ) by {
        let k = a.len() + b.len() + c.len() + j;
        assert(parts[k] == d[j]);
        lemma_create_table_has_part(t, engine, k);
    }
    assert forall|j: int| 0 <= j < t.foreign_keys.len() implies contains(
        create_table_spec(t, engine),
        "  "@ + fk_constraint_spec(#[trigger] t.foreign_keys[j], engine),
    ) by {
        let k = a.len() + b.len() + c.len() + d.len() + j;
        assert(parts[k] == e[j]);
        lemma_create_table_has_part(t, engine, k);
    }
}


/// The statement by which a forward migration carries out a change that
/// removes something, or that adds a table or column defined in the target
/// schema.
pub open spec fn forward_statement(c: ChangeV, schema: SchemaV, engine: Engine) -> Option<
    Seq<char>,
> {
    let pg = engine == Engine::Postgres;
    match c {
        ChangeV::AddTable(n) => match table_pos(schema.tables, n) {
            Some(k) => Some(create_table_spec(schema.tables[k], engine)),
            None => None,
        },
        ChangeV::DropTable(n) => Some("DROP TABLE "@ + quote(n, engine) + ";"@),
        ChangeV::AddColumn { table, column } => match table_pos(schema.tables, table) {
            Some(k) => match column_pos(schema.tables[k].columns, column) {
                Some(j) => Some(
                    "ALTER TABLE "@ + quote(table, engine) + " ADD COLUMN "@ + column_def_spec(
                        schema.tables[k].columns[j],
                        engine,
                    ) + ";"@,
                ),
                None => None,
            },
            None => None,
        },
        ChangeV::DropColumn { table, column } => Some(
            "ALTER TABLE "@ + quote(table, engine) + " DROP COLUMN "@ + quote(column, engine)
                + ";"@,
        ),
        ChangeV::DropIndex { table: _, index } => Some("DROP INDEX "@ + quote(index, engine) + ";"@),
        ChangeV::DropEnum { name } => Some("DROP TYPE "@ + quote(name, engine) + ";"@),
        ChangeV::DropForeignKey { table, name } => Some(
            "ALTER TABLE "@ + quote(table, engine) + if pg {
                " DROP CONSTRAINT "@
            } else {
                " DROP FOREIGN KEY "@
            } + quote(name, engine) + ";"@,
        ),
        ChangeV::DropCheckConstraint { table, name } => Some(
            "ALTER TABLE "@ + quote(table, engine) + " DROP CONSTRAINT "@ + quote(name, engine)
                + ";"@,
        ),
        ChangeV::DropUniqueConstraint { table, name } => Some(
            "ALTER TABLE "@ + quote(table, engine) + if pg {
                " DROP CONSTRAINT "@
            } else {
                " DROP INDEX "@
            } + quote(name, engine) + ";"@,
        ),
        _ => None,
    }
}

#[verifier::spinoff_prover]
#[verifier::rlimit(40)]
proof fn lemma_forward_statement_in(cs: Seq<ChangeV>, schema: SchemaV, engine: Engine, i: int)
    requires
        0 <= i < cs.len(),
        forward_statement(cs[i], schema, engine) is Some,
    ensures
        forward_spec(cs, schema, engine).contains(forward_statement(cs[i], schema, engine)->0),
{
    let st = forward_statement(cs[i], schema, engine)->0;
    let p1 = phase_all(1, cs, schema, engine);
    let p2 = phase_all(2, cs, schema, engine);
    let p3 = phase_all(3, cs, schema, engine);
    let p4 = phase_all(4, cs, schema, engine);
    let all = forward_spec(cs, schema, engine);
    assert(all == p1 + p2 + p3 + p4);
    if cs[i] is AddTable {
        lemma_phase_all_contains(2, cs, schema, engine, i, 0);
        let w = choose|w: int| 0 <= w < p2.len() && p2[w] == st;
        assert(all[p1.len() + w] == st);
    } else if cs[i] is DropTable {
        lemma_phase_all_contains(4, cs, schema, engine, i, 0);
        let w = choose|w: int| 0 <= w < p4.len() && p4[w] == st;
        assert(all[p1.len() + p2.len() + p3.len() + w] == st);
    } else if cs[i] is DropEnum {
        lemma_phase_all_contains(1, cs, schema, engine, i, 0);
        let w = choose|w: int| 0 <= w < p1.len() && p1[w] == st;
        assert(all[w] == st);
    } else {
        assert(phase_stmts(3, cs[i], schema, engine).len() > 0);
        assert(phase_stmts(3, cs[i], schema, engine)[0] =~= st);
        lemma_phase_all_contains(3, cs, schema, engine, i, 0);
        let w = choose|w: int| 0 <= w < p3.len() && p3[w] == st;
        assert(all[p1.len() + p2.len() + w] == st);
    }
}

/// A forward migration carries out every change that removes something
/// (table, column, index, enum type, foreign key, check or unique
/// constraint) and creates every added table and column that the target
/// schema defines: the statement for each such change is among its
/// statements.
pub proof fn lemma_forward_carries_out_changes(cs: Seq<ChangeV>, schema: SchemaV, engine: Engine)
    ensures
        forall|i: int|
            0 <= i < cs.len() ==> (#[trigger] forward_statement(cs[i], schema, engine) matches Some(
                st,
            ) ==> forward_spec(cs, schema, engine).contains(st)),
{
    assert forall|i: int| 0 <= i < cs.len() implies (#[trigger] forward_statement(
        cs[i],
        schema,
        engine,
    ) matches Some(st) ==> forward_spec(cs, schema, engine).contains(st)) by {
        if forward_statement(cs[i], schema, engine) is Some {
            lemma_forward_statement_in(cs, schema, engine, i);
        }
    }
}


/// A column definition starts with the quoted column name and its SQL type,
/// says `NOT NULL` for a column that is not nullable, and ends with the
/// `DEFAULT` clause for a column with a default: an expression as written,
/// a literal quoted.
pub proof fn lemma_column_def_shape(c: ColumnV, engine: Engine)
    ensures
        ({
            let head = quote(c.name, engine) + " "@ + type_sql_spec(c.data_type, engine);
            let d = column_def_spec(c, engine);
            &&& d.len() >= head.len()
            &&& d.subrange(0, head.len() as int) == head
            &&& !c.nullable ==> contains(d, " NOT NULL"@)
            &&& (c.default matches Some(ColumnDefaultV::Expression(e)) ==> d.subrange(
                d.len() - (" DEFAULT "@ + e).len(),
                d.len() as int,
            ) == " DEFAULT "@ + e)
            &&& (c.default matches Some(ColumnDefaultV::Literal(v)) ==> d.subrange(
                d.len() - (" DEFAULT "@ + sql_literal(v)).len(),
                d.len() as int,
            ) == " DEFAULT "@ + sql_literal(v))
        }),
{
    let head = quote(c.name, engine) + " "@ + type_sql_spec(c.data_type, engine);
    let u = if_then(c.unsigned && engine == Engine::Mysql, " UNSIGNED"@);
    let nn = if_then(!c.nullable, " NOT NULL"@);
    let ai = if_then(c.auto_increment && engine == Engine::Mysql, " AUTO_INCREMENT"@);
    let dc = default_clause(c.default);
    let d = column_def_spec(c, engine);
    assert(d == head + u + nn + ai + dc);
    assert(d.subrange(0, head.len() as int) =~= head);
    if !c.nullable {
        let i = (head.len() + u.len()) as int;
        assert(d.subrange(i, i + nn.len()) =~= nn);
        crate::text::lemma_contains_at(d, " NOT NULL"@, i);
    }
    assert(d.subrange(d.len() - dc.len(), d.len() as int) =~= dc);
}

} // verus!
