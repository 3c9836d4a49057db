//! Schema lint rules.
use vstd::prelude::*;
use crate::schema::{
    display, find_column, ColumnV, EnumTypeV, ForeignKeyAction, ForeignKeyV, IndexV, Schema,
    SchemaV, Table, TableV, UniqueConstraintV, column_pos,
};
use crate::text::{
    char_is_ws, decimal, is_ascii_digit, is_ascii_lower, is_ascii_alnum, is_ascii_upper, join,
    join_strings, str_to_chars, usize_to_string,
};

verus! {

/// Severity level for lint warnings.
#[derive(Debug, Clone, Copy, PartialEq, Eq, Structural)]
pub enum Severity {
    Error,
    Warning,
    Info,
}

pub open spec fn severity_text(s: Severity) -> Seq<char> {
    match s {
        Severity::Error => "error"@,
        Severity::Warning => "warning"@,
        Severity::Info => "info"@,
    }
}

impl Severity {
    /// Lower-case name of the severity.
    pub fn to_string(&self) -> (r: String)
        ensures
            r@ == severity_text(*self),
    {
        match self {
            Severity::Error => String::from_str("error"),
            Severity::Warning => String::from_str("warning"),
            Severity::Info => String::from_str("info"),
        }
    }
}

pub struct LintWarningV {
    pub rule: Seq<char>,
    pub severity: Severity,
    pub message: Seq<char>,
    pub table: Option<Seq<char>>,
    pub column: Option<Seq<char>>,
}

#[derive(Debug)]
pub struct LintWarning {
    pub rule: String,
    pub severity: Severity,
    pub message: String,
    pub table: Option<String>,
    pub column: Option<String>,
}

impl View for LintWarning {
    type V = LintWarningV;

    open spec fn view(&self) -> LintWarningV {
        LintWarningV {
            rule: self.rule@,
            severity: self.severity,
            message: self.message@,
            table: self.table.deep_view(),
            column: self.column.deep_view(),
        }
    }
}

impl DeepView for LintWarning {
    type V = LintWarningV;

    open spec fn deep_view(&self) -> LintWarningV {
        self@
    }
}

impl Clone for LintWarning {
    fn clone(&self) -> (r: Self)
        ensures
            r@ == self@,
    {
        LintWarning {
            rule: self.rule.clone(),
            severity: self.severity,
            message: self.message.clone(),
            table: crate::text::copy_opt_string(&self.table),
            column: crate::text::copy_opt_string(&self.column),
        }
    }
}

/// Configuration for the lint engine.
#[derive(Debug)]
pub struct LintConfig {
    /// Rules to disable by name.
    pub disabled_rules: Vec<String>,
    /// Naming convention: "snake_case" or "camelCase".
    pub naming_convention: String,
    /// Threshold for "too many enum values".
    pub enum_value_threshold: usize,
    /// Whether to require created_at/updated_at timestamps.
    pub require_timestamps: bool,
}

impl Default for LintConfig {
    /// No rule disabled, the default naming convention (`snake_case`), the
    /// default enum value threshold (20), timestamps not required.
    fn default() -> (r: Self)
        ensures
            r.disabled_rules@.len() == 0,
            r.naming_convention@ == "snake_case"@,
            r.enum_value_threshold == 20,
            !r.require_timestamps,
    {
        LintConfig {
            disabled_rules: Vec::new(),
            naming_convention: default_naming_convention(),
            enum_value_threshold: default_enum_threshold(),
            require_timestamps: false,
        }
    }
}

impl Clone for LintConfig {
    fn clone(&self) -> (r: Self)
        ensures
            r.disabled_rules.deep_view() == self.disabled_rules.deep_view(),
            r.naming_convention@ == self.naming_convention@,
            r.enum_value_threshold == self.enum_value_threshold,
            r.require_timestamps == self.require_timestamps,
    {
        LintConfig {
            disabled_rules: crate::text::copy_strings(&self.disabled_rules),
            naming_convention: self.naming_convention.clone(),
            enum_value_threshold: self.enum_value_threshold,
            require_timestamps: self.require_timestamps,
        }
    }
}

/// Naming convention used when a configuration file does not name one.
pub fn default_naming_convention() -> (r: String)
    ensures
        r@ == "snake_case"@,
{
    String::from_str("snake_case")
}

/// Enum value threshold used when a configuration file does not give one.
pub fn default_enum_threshold() -> (r: usize)
    ensures
        r == 20,
{
    20
}

// ---------------------------------------------------------------------------
// Naming conventions
// ---------------------------------------------------------------------------

/// Non-empty; lower-case ASCII letters, digits and `_`; no leading, trailing
/// or doubled `_`.
pub open spec fn snake_case(s: Seq<char>) -> bool {
    &&& s.len() > 0
    &&& forall|i: int|
        0 <= i < s.len() ==> is_ascii_lower(#[trigger] s[i]) || is_ascii_digit(s[i]) || s[i]
            == '_'
    &&& s[0] != '_'
    &&& s[s.len() - 1] != '_'
    &&& !(exists|i: int| 0 <= i < s.len() - 1 && #[trigger] s[i] == '_' && s[i + 1] == '_')
}

/// Non-empty; starts with a lower-case ASCII letter; only ASCII letters and digits.
pub open spec fn camel_case(s: Seq<char>) -> bool {
    &&& s.len() > 0
    &&& is_ascii_lower(s[0])
    &&& forall|i: int| 0 <= i < s.len() ==> is_ascii_alnum(#[trigger] s[i])
}

pub fn is_snake_case(s: &str) -> (r: bool)
    ensures
        r == snake_case(s@),
{
    let c = str_to_chars(s);
    let n = c.len();
    if n == 0 {
        return false;
    }
    let mut i: usize = 0;
    while i < n
        invariant
            i <= n,
            n == c@.len(),
            c@ == s@,
            forall|j: int|
                0 <= j < i ==> is_ascii_lower(#[trigger] c@[j]) || is_ascii_digit(c@[j]) || c@[j]
                    == '_',
            forall|j: int| 0 <= j < i && j + 1 < n ==> !(#[trigger] c@[j] == '_' && c@[j + 1] == '_'),
        decreases n - i,
    {
        let ch = c[i];
        if !(('a' <= ch && ch <= 'z') || ('0' <= ch && ch <= '9') || ch == '_') {
            return false;
        }
        if i + 1 < n && ch == '_' && c[i + 1] == '_' {
            return false;
        }
        i += 1;
    }
    c[0] != '_' && c[n - 1] != '_'
}

pub fn is_camel_case(s: &str) -> (r: bool)
    ensures
        r == camel_case(s@),
{
    let c = str_to_chars(s);
    let n = c.len();
    if n == 0 {
        return false;
    }
    if !('a' <= c[0] && c[0] <= 'z') {
        return false;
    }
    let mut i: usize = 0;
    while i < n
        invariant
            i <= n,
            n == c@.len(),
            c@ == s@,
            forall|j: int| 0 <= j < i ==> is_ascii_alnum(#[trigger] c@[j]),
        decreases n - i,
    {
        let ch = c[i];
        if !(('a' <= ch && ch <= 'z') || ('A' <= ch && ch <= 'Z') || ('0' <= ch && ch <= '9')) {
            assert(!is_ascii_alnum(c@[i as int]));
            return false;
        }
        i += 1;
    }
    true
}

// ---------------------------------------------------------------------------
// Indexed columns
// ---------------------------------------------------------------------------

/// Columns of the primary key, then of each index, in order (with repeats).
pub open spec fn key_and_index_columns(t: TableV) -> Seq<Seq<char>> {
    (match t.primary_key {
        Some(pk) => pk.columns,
        None => seq![],
    }) + index_columns(t.indexes)
}

pub open spec fn index_columns(ixs: Seq<IndexV>) -> Seq<Seq<char>>
    decreases ixs.len(),
{
    if ixs.len() == 0 {
        seq![]
    } else {
        index_columns(ixs.drop_last()) + ixs.last().columns
    }
}

/// `s` without repeats, keeping first occurrences in order.
pub open spec fn dedup(s: Seq<Seq<char>>) -> Seq<Seq<char>>
    decreases s.len(),
{
    if s.len() == 0 {
        seq![]
    } else if dedup(s.drop_last()).contains(s.last()) {
        dedup(s.drop_last())
    } else {
        dedup(s.drop_last()).push(s.last())
    }
}

pub proof fn lemma_dedup(s: Seq<Seq<char>>)
    ensures
        dedup(s).no_duplicates(),
        forall|x: Seq<char>| dedup(s).contains(x) <==> s.contains(x),
    decreases s.len(),
{
    if s.len() > 0 {
        lemma_dedup(s.drop_last());
        let d = dedup(s.drop_last());
        assert forall|x: Seq<char>| dedup(s).contains(x) <==> s.contains(x) by {
            assert(d.contains(x) == s.drop_last().contains(x));
            if s.drop_last().contains(x) {
                let i = choose|i: int| 0 <= i < s.drop_last().len() && s.drop_last()[i] == x;
                assert(s[i] == x);
            }
            if s.contains(x) {
                let i = choose|i: int| 0 <= i < s.len() && s[i] == x;
                if i < s.len() - 1 {
                    assert(s.drop_last()[i] == x);
                }
            }
            if dedup(s).contains(x) {
                let i = choose|i: int| 0 <= i < dedup(s).len() && dedup(s)[i] == x;
                if i < d.len() {
                    assert(d[i] == x);
                }
            }
            if d.contains(x) {
                let i = choose|i: int| 0 <= i < d.len() && d[i] == x;
                assert(dedup(s)[i] == x);
            }
            if x == s.last() && !d.contains(x) {
                assert(dedup(s)[d.len() as int] == x);
            }
        }
        if !d.contains(s.last()) {
            assert forall|i: int, j: int|
                0 <= i < dedup(s).len() && 0 <= j < dedup(s).len() && i != j implies dedup(s)[i]
                != dedup(s)[j] by {
                if i == d.len() as int {
                    assert(d.contains(dedup(s)[j]));
                } else if j == d.len() as int {
                    assert(d.contains(dedup(s)[i]));
                }
            }
        }
    }
}

fn contains_string(v: &Vec<String>, x: &String) -> (r: bool)
    ensures
        r == v.deep_view().contains(x@),
{
    let mut i: usize = 0;
    while i < v.len()
        invariant
            i <= v.len(),
            forall|j: int| 0 <= j < i ==> v.deep_view()[j] != x@,
        decreases v.len() - i,
    {
        if v[i] == *x {
            assert(v.deep_view()[i as int] == x@);
            return true;
        }
        i += 1;
    }
    false
}

fn push_dedup(out: &mut Vec<String>, src: &Vec<String>)
    requires
        old(out).deep_view() == dedup(old(out).deep_view()),
    ensures
        final(out).deep_view() == dedup(old(out).deep_view() + src.deep_view()),
{
    let ghost start = out.deep_view();
    let ghost sv = src.deep_view();
    let mut i: usize = 0;
    assert(start + sv.take(0) =~= start);
    while i < src.len()
        invariant
            i <= src.len(),
            sv == src.deep_view(),
            out.deep_view() == dedup(start + sv.take(i as int)),
        decreases src.len() - i,
    {
        assert((start + sv.take(i + 1)).drop_last() =~= start + sv.take(i as int));
        assert((start + sv.take(i + 1)).last() == sv[i as int]);
        if !contains_string(out, &src[i]) {
            let ghost before = out.deep_view();
            out.push(src[i].clone());
            assert(out.deep_view() =~= before.push(sv[i as int]));
        }
        i += 1;
    }
    assert(sv.take(src.len() as int) =~= sv);
}

/// The set of column names that are covered by at least one index or the
/// primary key, without repeats, in order of first appearance.
pub fn table_indexed_columns_set(table: &Table) -> (r: Vec<String>)
    ensures
        r.deep_view() == dedup(key_and_index_columns(table@)),
        r.deep_view().no_duplicates(),
        forall|c: Seq<char>|
            r.deep_view().contains(c) <==> key_and_index_columns(table@).contains(c),
{
    let mut cols: Vec<String> = Vec::new();
    assert(cols.deep_view() =~= seq![]);
    assert(dedup(seq![]) =~= seq![]);
    let ghost t = table@;
    match &table.primary_key {
        Some(pk) => {
            push_dedup(&mut cols, &pk.columns);
            assert(seq![] + pk.columns.deep_view() =~= pk.columns.deep_view());
        },
        None => {},
    }
    let ghost pkc = match t.primary_key {
        Some(pk) => pk.columns,
        None => seq![],
    };
    assert(cols.deep_view() == dedup(pkc));
    let mut i: usize = 0;
    while i < table.indexes.len()
        invariant
            i <= table.indexes.len(),
            t == table@,
            cols.deep_view() == dedup(pkc + index_columns(t.indexes.take(i as int))),
        decreases table.indexes.len() - i,
    {
        proof {
            lemma_dedup_idem(pkc + index_columns(t.indexes.take(i as int)));
        }
        push_dedup(&mut cols, &table.indexes[i].columns);
        assert(t.indexes.take(i + 1).drop_last() =~= t.indexes.take(i as int));
        assert(pkc + index_columns(t.indexes.take(i + 1)) =~= pkc + index_columns(
            t.indexes.take(i as int),
        ) + t.indexes[i as int].columns);
        proof {
            lemma_dedup_append(
                pkc + index_columns(t.indexes.take(i as int)),
                t.indexes[i as int].columns,
            );
        }
        i += 1;
    }
    assert(t.indexes.take(table.indexes.len() as int) =~= t.indexes);
    proof {
        lemma_dedup(key_and_index_columns(t));
    }
    cols
}

/// Deduplicating twice is deduplicating once.
proof fn lemma_dedup_idem(s: Seq<Seq<char>>)
    ensures
        dedup(dedup(s)) == dedup(s),
{
    lemma_dedup(s);
    lemma_dedup_of_distinct(dedup(s));
}

proof fn lemma_dedup_of_distinct(s: Seq<Seq<char>>)
    requires
        s.no_duplicates(),
    ensures
        dedup(s) == s,
    decreases s.len(),
{
    if s.len() > 0 {
        assert(s.drop_last().no_duplicates());
        lemma_dedup_of_distinct(s.drop_last());
        lemma_dedup(s.drop_last());
        if dedup(s.drop_last()).contains(s.last()) {
            let i = choose|i: int| 0 <= i < s.drop_last().len() && s.drop_last()[i] == s.last();
            assert(s[i] == s[s.len() - 1]);
        }
        assert(s.drop_last().push(s.last()) =~= s);
    }
}

/// Deduplicating a deduplicated prefix and then a tail is deduplicating the whole.
proof fn lemma_dedup_append(a: Seq<Seq<char>>, b: Seq<Seq<char>>)
    ensures
        dedup(dedup(a) + b) == dedup(a + b),
    decreases b.len(),
{
    if b.len() == 0 {
        assert(dedup(a) + b =~= dedup(a));
        assert(a + b =~= a);
        lemma_dedup_idem(a);
    } else {
        lemma_dedup_append(a, b.drop_last());
        assert((dedup(a) + b).drop_last() =~= dedup(a) + b.drop_last());
        assert((a + b).drop_last() =~= a + b.drop_last());
    }
}

// ---------------------------------------------------------------------------
// Rules
// ---------------------------------------------------------------------------

pub open spec fn warn(
    rule: Seq<char>,
    severity: Severity,
    message: Seq<char>,
    table: Option<Seq<char>>,
    column: Option<Seq<char>>,
) -> LintWarningV {
    LintWarningV { rule, severity, message, table, column }
}

/// Trait for individual lint rules.
pub trait LintRule {
    /// Rule identifier (e.g. "missing-primary-key").
    fn name(&self) -> &str;

    /// Human-readable description.
    fn description(&self) -> &str;

    /// Check the schema and return warnings.
    fn check(&self, schema: &Schema) -> Vec<LintWarning>;
}

fn make_warning(
    rule: &str,
    severity: Severity,
    message: String,
    table: Option<String>,
    column: Option<String>,
) -> (r: LintWarning)
    ensures
        r@ == warn(rule@, severity, message@, table.deep_view(), column.deep_view()),
{
    LintWarning { rule: String::from_str(rule), severity, message, table, column }
}

/// `"prefix" + a + "mid" + b + "suffix"` as a `String`.
fn msg3(prefix: &str, a: &str, mid: &str, b: &str, suffix: &str) -> (r: String)
    ensures
        r@ == prefix@ + a@ + mid@ + b@ + suffix@,
{
    let mut m = String::from_str(prefix);
    m.append(a);
    m.append(mid);
    m.append(b);
    m.append(suffix);
    m
}

/// Warnings of one rule for each table, in table order.
pub open spec fn per_tables(rule: int, ts: Seq<TableV>, convention: Seq<char>) -> Seq<
    LintWarningV,
>
    decreases ts.len(),
{
    if ts.len() == 0 {
        seq![]
    } else {
        per_tables(rule, ts.drop_last(), convention) + table_warnings(
            rule,
            ts.last(),
            convention,
        )
    }
}

/// Warnings of table rule `rule` (1-7, 9, 10 as numbered in `rule_name`) for one table.
pub open spec fn table_warnings(rule: int, t: TableV, convention: Seq<char>) -> Seq<LintWarningV> {
    if rule == 1 {
        missing_pk_warnings(t)
    } else if rule == 2 {
        fk_index_warnings(t, dedup(key_and_index_columns(t)), t.foreign_keys)
    } else if rule == 3 {
        nullable_unique_warnings(t, t.unique_constraints)
    } else if rule == 4 {
        unbounded_text_warnings(t.name, t.columns)
    } else if rule == 5 {
        fk_no_action_warnings(t.name, t.foreign_keys)
    } else if rule == 6 {
        naming_warnings(t, convention)
    } else if rule == 7 {
        duplicate_index_warnings(t.name, t.indexes, t.indexes.len() as int)
    } else if rule == 9 {
        timestamp_warnings(t)
    } else {
        boolean_index_warnings(t, t.indexes)
    }
}

// Rule 1 ---------------------------------------------------------------------

pub open spec fn missing_pk_warnings(t: TableV) -> Seq<LintWarningV> {
    if t.primary_key is None {
        seq![
            warn(
                "missing-primary-key"@,
                Severity::Error,
                "table '"@ + t.name + "' has no primary key"@,
                Some(t.name),
                None,
            ),
        ]
    } else {
        seq![]
    }
}

fn missing_pk_exec(t: &Table) -> (r: Vec<LintWarning>)
    ensures
        r.deep_view() == missing_pk_warnings(t@),
{
    let mut r: Vec<LintWarning> = Vec::new();
    if t.primary_key.is_none() {
        let mut m = String::from_str("table '");
        m.append(t.name.as_str());
        m.append("' has no primary key");
        r.push(
            make_warning("missing-primary-key", Severity::Error, m, Some(t.name.clone()), None),
        );
    }
    assert(r.deep_view() =~= missing_pk_warnings(t@));
    r
}

// Rule 2 ---------------------------------------------------------------------

pub open spec fn fk_col_warnings(t: Seq<char>, indexed: Seq<Seq<char>>, cols: Seq<Seq<char>>) -> Seq<
    LintWarningV,
>
    decreases cols.len(),
{
    if cols.len() == 0 {
        seq![]
    } else {
        fk_col_warnings(t, indexed, cols.drop_last()) + if indexed.contains(cols.last()) {
            seq![]
        } else {
            seq![
                warn(
                    "missing-fk-index"@,
                    Severity::Warning,
                    "column '"@ + t + "."@ + cols.last() + "' is a foreign key but has no index"@,
                    Some(t),
                    Some(cols.last()),
                ),
            ]
        }
    }
}

pub open spec fn fk_index_warnings(t: TableV, indexed: Seq<Seq<char>>, fks: Seq<ForeignKeyV>) -> Seq<
    LintWarningV,
>
    decreases fks.len(),
{
    if fks.len() == 0 {
        seq![]
    } else {
        fk_index_warnings(t, indexed, fks.drop_last()) + fk_col_warnings(
            t.name,
            indexed,
            fks.last().columns,
        )
    }
}

fn fk_index_exec(t: &Table) -> (r: Vec<LintWarning>)
    ensures
        r.deep_view() == fk_index_warnings(t@, dedup(key_and_index_columns(t@)), t@.foreign_keys),
{
    let indexed = table_indexed_columns_set(t);
    let ghost iv = indexed.deep_view();
    let ghost fks = t@.foreign_keys;
    let mut r: Vec<LintWarning> = Vec::new();
    let mut i: usize = 0;
    while i < t.foreign_keys.len()
        invariant
            i <= t.foreign_keys.len(),
            iv == indexed.deep_view(),
            fks == t@.foreign_keys,
            r.deep_view() == fk_index_warnings(t@, iv, fks.take(i as int)),
        decreases t.foreign_keys.len() - i,
    {
        assert(fks.take(i + 1).drop_last() =~= fks.take(i as int));
        let cols = &t.foreign_keys[i].columns;
        let ghost cv = cols.deep_view();
        let ghost start = r.deep_view();
        let mut j: usize = 0;
        while j < cols.len()
            invariant
                j <= cols.len(),
                cv == cols.deep_view(),
                iv == indexed.deep_view(),
                r.deep_view() == start + fk_col_warnings(t@.name, iv, cv.take(j as int)),
            decreases cols.len() - j,
        {
            assert(cv.take(j + 1).drop_last() =~= cv.take(j as int));
            let ghost before = r.deep_view();
            if !contains_string(&indexed, &cols[j]) {
                let m = msg3(
                    "column '",
                    t.name.as_str(),
                    ".",
                    cols[j].as_str(),
                    "' is a foreign key but has no index",
                );
                let w = make_warning(
                    "missing-fk-index",
                    Severity::Warning,
                    m,
                    Some(t.name.clone()),
                    Some(cols[j].clone()),
                );
                r.push(w);
                assert(r.deep_view() =~= before.push(w@));
            } else {
                assert(before + seq![] =~= before);
            }
            assert(r.deep_view() =~= start + fk_col_warnings(t@.name, iv, cv.take(j + 1)));
            j += 1;
        }
        assert(cv.take(cols.len() as int) =~= cv);
        i += 1;
    }
    assert(fks.take(t.foreign_keys.len() as int) =~= fks);
    r
}

// Rule 3 ---------------------------------------------------------------------

pub open spec fn nullable_col_warnings(t: TableV, names: Seq<Seq<char>>) -> Seq<LintWarningV>
    decreases names.len(),
{
    if names.len() == 0 {
        seq![]
    } else {
        nullable_col_warnings(t, names.drop_last()) + match column_pos(t.columns, names.last()) {
            Some(k) => if t.columns[k].nullable {
                seq![
                    warn(
                        "nullable-unique"@,
                        Severity::Warning,
                        "column '"@ + t.name + "."@ + names.last()
                            + "' is nullable but part of a unique constraint"@,
                        Some(t.name),
                        Some(names.last()),
                    ),
                ]
            } else {
                seq![]
            },
            None => seq![],
        }
    }
}

pub open spec fn nullable_unique_warnings(t: TableV, ucs: Seq<UniqueConstraintV>) -> Seq<
    LintWarningV,
>
    decreases ucs.len(),
{
    if ucs.len() == 0 {
        seq![]
    } else {
        nullable_unique_warnings(t, ucs.drop_last()) + nullable_col_warnings(t, ucs.last().columns)
    }
}

fn nullable_unique_exec(t: &Table) -> (r: Vec<LintWarning>)
    ensures
        r.deep_view() == nullable_unique_warnings(t@, t@.unique_constraints),
{
    let ghost ucs = t@.unique_constraints;
    let mut r: Vec<LintWarning> = Vec::new();
    let mut i: usize = 0;
    while i < t.unique_constraints.len()
        invariant
            i <= t.unique_constraints.len(),
            ucs == t@.unique_constraints,
            r.deep_view() == nullable_unique_warnings(t@, ucs.take(i as int)),
        decreases t.unique_constraints.len() - i,
    {
        assert(ucs.take(i + 1).drop_last() =~= ucs.take(i as int));
        let cols = &t.unique_constraints[i].columns;
        let ghost cv = cols.deep_view();
        let ghost start = r.deep_view();
        let mut j: usize = 0;
        while j < cols.len()
            invariant
                j <= cols.len(),
                cv == cols.deep_view(),
                r.deep_view() == start + nullable_col_warnings(t@, cv.take(j as int)),
            decreases cols.len() - j,
        {
            assert(cv.take(j + 1).drop_last() =~= cv.take(j as int));
            let ghost before = r.deep_view();
            let n = str_to_chars(cols[j].as_str());
            match find_column(&t.columns, n.as_slice()) {
                Some(k) => {
                    if t.columns[k].nullable {
                        let m = msg3(
                            "column '",
                            t.name.as_str(),
                            ".",
                            cols[j].as_str(),
                            "' is nullable but part of a unique constraint",
                        );
                        let w = make_warning(
                            "nullable-unique",
                            Severity::Warning,
                            m,
                            Some(t.name.clone()),
                            Some(cols[j].clone()),
                        );
                        r.push(w);
                        assert(r.deep_view() =~= before.push(w@));
                    } else {
                        assert(before + seq![] =~= before);
                    }
                },
                None => {
                    assert(before + seq![] =~= before);
                },
            }
            assert(r.deep_view() =~= start + nullable_col_warnings(t@, cv.take(j + 1)));
            j += 1;
        }
        assert(cv.take(cols.len() as int) =~= cv);
        i += 1;
    }
    assert(ucs.take(t.unique_constraints.len() as int) =~= ucs);
    r
}

// Rule 4 ---------------------------------------------------------------------

pub open spec fn unbounded_text_warnings(t: Seq<char>, cols: Seq<ColumnV>) -> Seq<LintWarningV>
    decreases cols.len(),
{
    if cols.len() == 0 {
        seq![]
    } else {
        unbounded_text_warnings(t, cols.drop_last()) + {
            let c = cols.last();
            if c.data_type is Text || c.data_type is MediumText || c.data_type is LongText {
                seq![
                    warn(
                        "unbounded-text"@,
                        Severity::Info,
                        "column '"@ + t + "."@ + c.name + "' uses unbounded text type '"@
                            + display(c.data_type)
                            + "'; consider varchar with a length limit"@,
                        Some(t),
                        Some(c.name),
                    ),
                ]
            } else {
                seq![]
            }
        }
    }
}

fn unbounded_text_exec(t: &Table) -> (r: Vec<LintWarning>)
    ensures
        r.deep_view() == unbounded_text_warnings(t@.name, t@.columns),
{
    let ghost cs = t@.columns;
    let mut r: Vec<LintWarning> = Vec::new();
    let mut i: usize = 0;
    while i < t.columns.len()
        invariant
            i <= t.columns.len(),
            cs == t@.columns,
            r.deep_view() == unbounded_text_warnings(t@.name, cs.take(i as int)),
        decreases t.columns.len() - i,
    {
        assert(cs.take(i + 1).drop_last() =~= cs.take(i as int));
        let ghost before = r.deep_view();
        let c = &t.columns[i];
        let unbounded = match c.data_type {
            crate::schema::DataType::Text | crate::schema::DataType::MediumText
            | crate::schema::DataType::LongText => true,
            _ => false,
        };
        if unbounded {
            let m = msg3(
                "column '",
                t.name.as_str(),
                ".",
                c.name.as_str(),
                "' uses unbounded text type '",
            );
            let mut m = m;
            m.append(c.data_type.to_string().as_str());
            m.append("'; consider varchar with a length limit");
            let w = make_warning(
                "unbounded-text",
                Severity::Info,
                m,
                Some(t.name.clone()),
                Some(c.name.clone()),
            );
            r.push(w);
            assert(r.deep_view() =~= before.push(w@));
        } else {
            assert(before + seq![] =~= before);
        }
        assert(r.deep_view() =~= unbounded_text_warnings(t@.name, cs.take(i + 1)));
        i += 1;
    }
    assert(cs.take(t.columns.len() as int) =~= cs);
    r
}

// Rule 5 ---------------------------------------------------------------------

pub open spec fn fk_no_action_warnings(t: Seq<char>, fks: Seq<ForeignKeyV>) -> Seq<LintWarningV>
    decreases fks.len(),
{
    if fks.len() == 0 {
        seq![]
    } else {
        fk_no_action_warnings(t, fks.drop_last()) + {
            let f = fks.last();
            if f.on_delete == ForeignKeyAction::NoAction {
                let desc = match f.name {
                    Some(n) => n,
                    None => join(f.columns, ","@),
                };
                seq![
                    warn(
                        "fk-no-action"@,
                        Severity::Warning,
                        "foreign key '"@ + desc + "' on table '"@ + t
                            + "' has no explicit ON DELETE action (defaults to NO ACTION)"@,
                        Some(t),
                        None,
                    ),
                ]
            } else {
                seq![]
            }
        }
    }
}

fn fk_no_action_exec(t: &Table) -> (r: Vec<LintWarning>)
    ensures
        r.deep_view() == fk_no_action_warnings(t@.name, t@.foreign_keys),
{
    let ghost fks = t@.foreign_keys;
    let mut r: Vec<LintWarning> = Vec::new();
    let mut i: usize = 0;
    while i < t.foreign_keys.len()
        invariant
            i <= t.foreign_keys.len(),
            fks == t@.foreign_keys,
            r.deep_view() == fk_no_action_warnings(t@.name, fks.take(i as int)),
        decreases t.foreign_keys.len() - i,
    {
        assert(fks.take(i + 1).drop_last() =~= fks.take(i as int));
        let ghost before = r.deep_view();
        let f = &t.foreign_keys[i];
        if f.on_delete == ForeignKeyAction::NoAction {
            let desc = match &f.name {
                Some(n) => n.clone(),
                None => join_strings(&f.columns, ","),
            };
            let m = msg3(
                "foreign key '",
                desc.as_str(),
                "' on table '",
                t.name.as_str(),
                "' has no explicit ON DELETE action (defaults to NO ACTION)",
            );
            let w = make_warning("fk-no-action", Severity::Warning, m, Some(t.name.clone()), None);
            r.push(w);
            assert(r.deep_view() =~= before.push(w@));
        } else {
            assert(before + seq![] =~= before);
        }
        assert(r.deep_view() =~= fk_no_action_warnings(t@.name, fks.take(i + 1)));
        i += 1;
    }
    assert(fks.take(t.foreign_keys.len() as int) =~= fks);
    r
}

// Rule 6 ---------------------------------------------------------------------

/// The name check selected by the convention: camelCase, else snake_case.
pub open spec fn follows(convention: Seq<char>, name: Seq<char>) -> bool {
    if convention == "camelCase"@ {
        camel_case(name)
    } else {
        snake_case(name)
    }
}

pub open spec fn naming_column_warnings(t: Seq<char>, cols: Seq<ColumnV>, convention: Seq<char>) -> Seq<
    LintWarningV,
>
    decreases cols.len(),
{
    if cols.len() == 0 {
        seq![]
    } else {
        naming_column_warnings(t, cols.drop_last(), convention) + if follows(
            convention,
            cols.last().name,
        ) {
            seq![]
        } else {
            seq![
                warn(
                    "naming-convention"@,
                    Severity::Warning,
                    "column name '"@ + t + "."@ + cols.last().name + "' does not follow "@
                        + convention + " convention"@,
                    Some(t),
                    Some(cols.last().name),
                ),
            ]
        }
    }
}

pub open spec fn naming_warnings(t: TableV, convention: Seq<char>) -> Seq<LintWarningV> {
    (if follows(convention, t.name) {
        seq![]
    } else {
        seq![
            warn(
                "naming-convention"@,
                Severity::Warning,
                "table name '"@ + t.name + "' does not follow "@ + convention + " convention"@,
                Some(t.name),
                None,
            ),
        ]
    }) + naming_column_warnings(t.name, t.columns, convention)
}

fn follows_exec(convention: &String, name: &String) -> (r: bool)
    ensures
        r == follows(convention@, name@),
{
    let camel = String::from_str("camelCase");
    if *convention == camel {
        is_camel_case(name.as_str())
    } else {
        is_snake_case(name.as_str())
    }
}

fn naming_exec(t: &Table, convention: &String) -> (r: Vec<LintWarning>)
    ensures
        r.deep_view() == naming_warnings(t@, convention@),
{
    let mut r: Vec<LintWarning> = Vec::new();
    if !follows_exec(convention, &t.name) {
        let m = msg3(
            "table name '",
            t.name.as_str(),
            "' does not follow ",
            convention.as_str(),
            " convention",
        );
        r.push(make_warning("naming-convention", Severity::Warning, m, Some(t.name.clone()), None));
    }
    let ghost start = r.deep_view();
    assert(start =~= if follows(convention@, t@.name) {
        seq![]
    } else {
        seq![
            warn(
                "naming-convention"@,
                Severity::Warning,
                "table name '"@ + t@.name + "' does not follow "@ + convention@ + " convention"@,
                Some(t@.name),
                None,
            ),
        ]
    });
    let ghost cs = t@.columns;
    let mut i: usize = 0;
    while i < t.columns.len()
        invariant
            i <= t.columns.len(),
            cs == t@.columns,
            r.deep_view() == start + naming_column_warnings(t@.name, cs.take(i as int), convention@),
        decreases t.columns.len() - i,
    {
        assert(cs.take(i + 1).drop_last() =~= cs.take(i as int));
        let ghost before = r.deep_view();
        let c = &t.columns[i];
        if !follows_exec(convention, &c.name) {
            let mut m = msg3("column name '", t.name.as_str(), ".", c.name.as_str(), "' does not follow ");
            m.append(convention.as_str());
            m.append(" convention");
            let w = make_warning(
                "naming-convention",
                Severity::Warning,
                m,
                Some(t.name.clone()),
                Some(c.name.clone()),
            );
            r.push(w);
            assert(r.deep_view() =~= before.push(w@));
        } else {
            assert(before + seq![] =~= before);
        }
        assert(r.deep_view() =~= start + naming_column_warnings(
            t@.name,
            cs.take(i + 1),
            convention@,
        ));
        i += 1;
    }
    assert(cs.take(t.columns.len() as int) =~= cs);
    r
}

// Rule 7 ---------------------------------------------------------------------

pub open spec fn index_label(n: Option<Seq<char>>) -> Seq<char> {
    match n {
        Some(x) => x,
        None => "unnamed"@,
    }
}

/// Warnings for pairs `(i, j)` with `i < j < end` and equal column lists.
pub open spec fn dup_row(t: Seq<char>, ixs: Seq<IndexV>, i: int, end: int) -> Seq<LintWarningV>
    decreases end - i,
{
    if end <= i + 1 {
        seq![]
    } else {
        dup_row(t, ixs, i, end - 1) + if ixs[i].columns == ixs[end - 1].columns {
            seq![
                warn(
                    "duplicate-index"@,
                    Severity::Warning,
                    "indexes '"@ + index_label(ixs[i].name) + "' and '"@ + index_label(
                        ixs[end - 1].name,
                    ) + "' on table '"@ + t + "' have the same columns"@,
                    Some(t),
                    None,
                ),
            ]
        } else {
            seq![]
        }
    }
}

/// Warnings for each pair of indexes with equal column lists, by first then
/// second index of the pair.
pub open spec fn duplicate_index_warnings(t: Seq<char>, ixs: Seq<IndexV>, n: int) -> Seq<
    LintWarningV,
>
    decreases n,
{
    if n <= 0 {
        seq![]
    } else {
        duplicate_index_warnings(t, ixs, n - 1) + dup_row(t, ixs, n - 1, ixs.len() as int)
    }
}

fn index_label_exec(n: &Option<String>) -> (r: String)
    ensures
        r@ == index_label(n.deep_view()),
{
    match n {
        Some(x) => x.clone(),
        None => String::from_str("unnamed"),
    }
}

fn duplicate_index_exec(t: &Table) -> (r: Vec<LintWarning>)
    ensures
        r.deep_view() == duplicate_index_warnings(t@.name, t@.indexes, t@.indexes.len() as int),
{
    let ghost ixs = t@.indexes;
    let n = t.indexes.len();
    let mut r: Vec<LintWarning> = Vec::new();
    let mut i: usize = 0;
    while i < n
        invariant
            i <= n,
            n == ixs.len(),
            ixs == t@.indexes,
            r.deep_view() == duplicate_index_warnings(t@.name, ixs, i as int),
        decreases n - i,
    {
        let ghost start = r.deep_view();
        let mut j: usize = i + 1;
        assert(dup_row(t@.name, ixs, i as int, j as int) =~= seq![]);
        while j < n
            invariant
                i < j <= n,
                n == ixs.len(),
                ixs == t@.indexes,
                r.deep_view() == start + dup_row(t@.name, ixs, i as int, j as int),
            decreases n - j,
        {
            let ghost before = r.deep_view();
            if crate::schema::strings_eq(&t.indexes[i].columns, &t.indexes[j].columns) {
                let a = index_label_exec(&t.indexes[i].name);
                let b = index_label_exec(&t.indexes[j].name);
                let m = msg3("indexes '", a.as_str(), "' and '", b.as_str(), "' on table '");
                let mut m = m;
                m.append(t.name.as_str());
                m.append("' have the same columns");
                let w = make_warning(
                    "duplicate-index",
                    Severity::Warning,
                    m,
                    Some(t.name.clone()),
                    None,
                );
                r.push(w);
                assert(r.deep_view() =~= before.push(w@));
            } else {
                assert(before + seq![] =~= before);
            }
            assert(r.deep_view() =~= start + dup_row(t@.name, ixs, i as int, j + 1));
            j += 1;
        }
        i += 1;
    }
    r
}

// Rule 8 ---------------------------------------------------------------------

pub open spec fn enum_warnings(es: Seq<EnumTypeV>, threshold: usize) -> Seq<LintWarningV>
    decreases es.len(),
{
    if es.len() == 0 {
        seq![]
    } else {
        enum_warnings(es.drop_last(), threshold) + {
            let e = es.last();
            if e.values.len() > threshold {
                seq![
                    warn(
                        "enum-too-many-values"@,
                        Severity::Warning,
                        "enum '"@ + e.name + "' has "@ + decimal(e.values.len()) + " values (threshold: "@
                            + decimal(threshold as nat) + "); consider using a lookup table"@,
                        None,
                        None,
                    ),
                ]
            } else {
                seq![]
            }
        }
    }
}

fn enum_warnings_exec(schema: &Schema, threshold: usize) -> (r: Vec<LintWarning>)
    ensures
        r.deep_view() == enum_warnings(schema@.enums, threshold),
{
    let ghost es = schema@.enums;
    let mut r: Vec<LintWarning> = Vec::new();
    let mut i: usize = 0;
    while i < schema.enums.len()
        invariant
            i <= schema.enums.len(),
            es == schema@.enums,
            r.deep_view() == enum_warnings(es.take(i as int), threshold),
        decreases schema.enums.len() - i,
    {
        assert(es.take(i + 1).drop_last() =~= es.take(i as int));
        let ghost before = r.deep_view();
        let e = &schema.enums[i];
        assert(e.values.deep_view().len() == e.values.len());
        if e.values.len() > threshold {
            let m = msg3(
                "enum '",
                e.name.as_str(),
                "' has ",
                usize_to_string(e.values.len()).as_str(),
                " values (threshold: ",
            );
            let mut m = m;
            m.append(usize_to_string(threshold).as_str());
            m.append("); consider using a lookup table");
            let w = make_warning("enum-too-many-values", Severity::Warning, m, None, None);
            r.push(w);
            assert(r.deep_view() =~= before.push(w@));
        } else {
            assert(before + seq![] =~= before);
        }
        assert(r.deep_view() =~= enum_warnings(es.take(i + 1), threshold));
        i += 1;
    }
    assert(es.take(schema.enums.len() as int) =~= es);
    r
}

// Rule 9 ---------------------------------------------------------------------

pub open spec fn timestamp_warnings(t: TableV) -> Seq<LintWarningV> {
    (if column_pos(t.columns, "created_at"@) is Some {
        seq![]
    } else {
        seq![
            warn(
                "missing-timestamps"@,
                Severity::Info,
                "table '"@ + t.name + "' is missing a 'created_at' column"@,
                Some(t.name),
                None,
            ),
        ]
    }) + (if column_pos(t.columns, "updated_at"@) is Some {
        seq![]
    } else {
        seq![
            warn(
                "missing-timestamps"@,
                Severity::Info,
                "table '"@ + t.name + "' is missing an 'updated_at' column"@,
                Some(t.name),
                None,
            ),
        ]
    })
}

fn timestamp_exec(t: &Table) -> (r: Vec<LintWarning>)
    ensures
        r.deep_view() == timestamp_warnings(t@),
{
    let mut r: Vec<LintWarning> = Vec::new();
    let created = str_to_chars("created_at");
    let updated = str_to_chars("updated_at");
    if find_column(&t.columns, created.as_slice()).is_none() {
        let mut m = String::from_str("table '");
        m.append(t.name.as_str());
        m.append("' is missing a 'created_at' column");
        r.push(make_warning("missing-timestamps", Severity::Info, m, Some(t.name.clone()), None));
    }
    let ghost p1 = r.deep_view();
    if find_column(&t.columns, updated.as_slice()).is_none() {
        let mut m = String::from_str("table '");
        m.append(t.name.as_str());
        m.append("' is missing an 'updated_at' column");
        r.push(make_warning("missing-timestamps", Severity::Info, m, Some(t.name.clone()), None));
    }
    assert(r.deep_view() =~= timestamp_warnings(t@));
    r
}

// Rule 10 --------------------------------------------------------------------

/// Some boolean column of `cols` is called `name`.
pub open spec fn has_bool_column(cols: Seq<ColumnV>, name: Seq<char>) -> bool {
    exists|k: int| 0 <= k < cols.len() && (#[trigger] cols[k]).data_type is Boolean && cols[k].name == name
}

pub open spec fn boolean_index_warnings(t: TableV, ixs: Seq<IndexV>) -> Seq<LintWarningV>
    decreases ixs.len(),
{
    if ixs.len() == 0 {
        seq![]
    } else {
        boolean_index_warnings(t, ixs.drop_last()) + {
            let idx = ixs.last();
            if idx.columns.len() == 1 && idx.predicate is None && has_bool_column(
                t.columns,
                idx.columns[0],
            ) {
                seq![
                    warn(
                        "boolean-index"@,
                        Severity::Info,
                        "index '"@ + index_label(idx.name) + "' on table '"@ + t.name
                            + "' indexes boolean column '"@ + idx.columns[0]
                            + "'; consider a partial index instead"@,
                        Some(t.name),
                        Some(idx.columns[0]),
                    ),
                ]
            } else {
                seq![]
            }
        }
    }
}

fn has_bool_column_exec(t: &Table, name: &String) -> (r: bool)
    ensures
        r == has_bool_column(t@.columns, name@),
{
    let mut k: usize = 0;
    while k < t.columns.len()
        invariant
            k <= t.columns.len(),
            forall|j: int|
                0 <= j < k ==> !((#[trigger] t@.columns[j]).data_type is Boolean
                    && t@.columns[j].name == name@),
        decreases t.columns.len() - k,
    {
        if t.columns[k].data_type.is_boolean() && t.columns[k].name == *name {
            assert(t@.columns[k as int].data_type is Boolean && t@.columns[k as int].name == name@);
            return true;
        }
        k += 1;
    }
    false
}

fn boolean_index_exec(t: &Table) -> (r: Vec<LintWarning>)
    ensures
        r.deep_view() == boolean_index_warnings(t@, t@.indexes),
{
    let ghost ixs = t@.indexes;
    let mut r: Vec<LintWarning> = Vec::new();
    let mut i: usize = 0;
    while i < t.indexes.len()
        invariant
            i <= t.indexes.len(),
            ixs == t@.indexes,
            r.deep_view() == boolean_index_warnings(t@, ixs.take(i as int)),
        decreases t.indexes.len() - i,
    {
        assert(ixs.take(i + 1).drop_last() =~= ixs.take(i as int));
        let ghost before = r.deep_view();
        let idx = &t.indexes[i];
        assert(idx.columns.deep_view().len() == idx.columns.len());
        if idx.columns.len() == 1 && idx.predicate.is_none() && has_bool_column_exec(
            t,
            &idx.columns[0],
        ) {
            let label = index_label_exec(&idx.name);
            let m = msg3("index '", label.as_str(), "' on table '", t.name.as_str(), "' indexes boolean column '");
            let mut m = m;
            m.append(idx.columns[0].as_str());
            m.append("'; consider a partial index instead");
            let w = make_warning(
                "boolean-index",
                Severity::Info,
                m,
                Some(t.name.clone()),
                Some(idx.columns[0].clone()),
            );
            r.push(w);
            assert(r.deep_view() =~= before.push(w@));
        } else {
            assert(before + seq![] =~= before);
        }
        assert(r.deep_view() =~= boolean_index_warnings(t@, ixs.take(i + 1)));
        i += 1;
    }
    assert(ixs.take(t.indexes.len() as int) =~= ixs);
    r
}

// ---------------------------------------------------------------------------
// Rule objects and the engine
// ---------------------------------------------------------------------------

/// Identifier of rule number `id` (1 to 10, in the order the engine runs them).
pub open spec fn rule_name(id: int) -> Seq<char> {
    if id == 1 {
        "missing-primary-key"@
    } else if id == 2 {
        "missing-fk-index"@
    } else if id == 3 {
        "nullable-unique"@
    } else if id == 4 {
        "unbounded-text"@
    } else if id == 5 {
        "fk-no-action"@
    } else if id == 6 {
        "naming-convention"@
    } else if id == 7 {
        "duplicate-index"@
    } else if id == 8 {
        "enum-too-many-values"@
    } else if id == 9 {
        "missing-timestamps"@
    } else {
        "boolean-index"@
    }
}

/// Warnings of rule `id` on a schema.
pub open spec fn rule_check(
    id: int,
    schema: SchemaV,
    convention: Seq<char>,
    threshold: usize,
    timestamps: bool,
) -> Seq<LintWarningV> {
    if id == 8 {
        enum_warnings(schema.enums, threshold)
    } else if id == 9 && !timestamps {
        seq![]
    } else {
        per_tables(
            id,
            schema.tables,
            if id == 6 {
                convention
            } else {
                seq![]
            },
        )
    }
}

fn per_tables_exec(id: u8, schema: &Schema, convention: &String) -> (r: Vec<LintWarning>)
    requires
        1 <= id <= 10,
        id != 8,
        id != 6 ==> convention@ == Seq::<char>::empty(),
    ensures
        r.deep_view() == per_tables(id as int, schema@.tables, convention@),
{
    let ghost ts = schema@.tables;
    let mut r: Vec<LintWarning> = Vec::new();
    let mut i: usize = 0;
    while i < schema.tables.len()
        invariant
            i <= schema.tables.len(),
            1 <= id <= 10,
            id != 8,
            id != 6 ==> convention@ == Seq::<char>::empty(),
            ts == schema@.tables,
            r.deep_view() == per_tables(id as int, ts.take(i as int), convention@),
        decreases schema.tables.len() - i,
    {
        assert(ts.take(i + 1).drop_last() =~= ts.take(i as int));
        let t = &schema.tables[i];
        let mut w = if id == 1 {
            missing_pk_exec(t)
        } else if id == 2 {
            fk_index_exec(t)
        } else if id == 3 {
            nullable_unique_exec(t)
        } else if id == 4 {
            unbounded_text_exec(t)
        } else if id == 5 {
            fk_no_action_exec(t)
        } else if id == 6 {
            naming_exec(t, convention)
        } else if id == 7 {
            duplicate_index_exec(t)
        } else if id == 9 {
            timestamp_exec(t)
        } else {
            boolean_index_exec(t)
        };
        let ghost before = r.deep_view();
        let ghost wv = w.deep_view();
        assert(wv == table_warnings(id as int, ts[i as int], convention@));
        r.append(&mut w);
        assert(r.deep_view() =~= before + wv);
        i += 1;
    }
    assert(ts.take(schema.tables.len() as int) =~= ts);
    r
}

/// Rule 1: Missing primary key on a table.
pub struct MissingPrimaryKey;

impl LintRule for MissingPrimaryKey {
    fn name(&self) -> (r: &str)
        ensures
            r@ == rule_name(1),
    {
        "missing-primary-key"
    }

    fn description(&self) -> (r: &str)
        ensures
            r@ == "Tables should have a primary key"@,
    {
        "Tables should have a primary key"
    }

    fn check(&self, schema: &Schema) -> (r: Vec<LintWarning>)
        ensures
            r.deep_view() == rule_check(1, schema@, seq![], 0, false),
    {
        let empty = String::new();
        per_tables_exec(1, schema, &empty)
    }
}

/// Rule 2: Missing index on foreign key columns.
pub struct MissingForeignKeyIndex;

impl LintRule for MissingForeignKeyIndex {
    fn name(&self) -> (r: &str)
        ensures
            r@ == rule_name(2),
    {
        "missing-fk-index"
    }

    fn description(&self) -> (r: &str)
        ensures
            r@ == "Foreign key columns should be indexed for join performance"@,
    {
        "Foreign key columns should be indexed for join performance"
    }

    fn check(&self, schema: &Schema) -> (r: Vec<LintWarning>)
        ensures
            r.deep_view() == rule_check(2, schema@, seq![], 0, false),
    {
        let empty = String::new();
        per_tables_exec(2, schema, &empty)
    }
}

/// Rule 3: Nullable column in a unique constraint.
pub struct NullableUniqueColumn;

impl LintRule for NullableUniqueColumn {
    fn name(&self) -> (r: &str)
        ensures
            r@ == rule_name(3),
    {
        "nullable-unique"
    }

    fn description(&self) -> (r: &str)
        ensures
            r@ == "Nullable columns in unique constraints can have multiple NULLs"@,
    {
        "Nullable columns in unique constraints can have multiple NULLs"
    }

    fn check(&self, schema: &Schema) -> (r: Vec<LintWarning>)
        ensures
            r.deep_view() == rule_check(3, schema@, seq![], 0, false),
    {
        let empty = String::new();
        per_tables_exec(3, schema, &empty)
    }
}

/// Rule 4: Text column without a length limit (prefer varchar).
pub struct UnboundedTextColumn;

impl LintRule for UnboundedTextColumn {
    fn name(&self) -> (r: &str)
        ensures
            r@ == rule_name(4),
    {
        "unbounded-text"
    }

    fn description(&self) -> (r: &str)
        ensures
            r@ == "Prefer varchar with a length limit over unbounded text types"@,
    {
        "Prefer varchar with a length limit over unbounded text types"
    }

    fn check(&self, schema: &Schema) -> (r: Vec<LintWarning>)
        ensures
            r.deep_view() == rule_check(4, schema@, seq![], 0, false),
    {
        let empty = String::new();
        per_tables_exec(4, schema, &empty)
    }
}

/// Rule 5: Foreign key without explicit ON DELETE action (implicit NO ACTION).
pub struct ForeignKeyWithoutAction;

impl LintRule for ForeignKeyWithoutAction {
    fn name(&self) -> (r: &str)
        ensures
            r@ == rule_name(5),
    {
        "fk-no-action"
    }

    fn description(&self) -> (r: &str)
        ensures
            r@ == "Foreign keys should have an explicit ON DELETE action"@,
    {
        "Foreign keys should have an explicit ON DELETE action"
    }

    fn check(&self, schema: &Schema) -> (r: Vec<LintWarning>)
        ensures
            r.deep_view() == rule_check(5, schema@, seq![], 0, false),
    {
        let empty = String::new();
        per_tables_exec(5, schema, &empty)
    }
}

/// Rule 6: Naming convention violations.
pub struct NamingConvention {
    pub convention: String,
}

impl LintRule for NamingConvention {
    fn name(&self) -> (r: &str)
        ensures
            r@ == rule_name(6),
    {
        "naming-convention"
    }

    fn description(&self) -> (r: &str)
        ensures
            r@ == "Table and column names should follow the configured naming convention"@,
    {
        "Table and column names should follow the configured naming convention"
    }

    fn check(&self, schema: &Schema) -> (r: Vec<LintWarning>)
        ensures
            r.deep_view() == rule_check(6, schema@, self.convention@, 0, false),
    {
        per_tables_exec(6, schema, &self.convention)
    }
}

/// Rule 7: Duplicate indexes (same columns, same order).
pub struct DuplicateIndex;

impl LintRule for DuplicateIndex {
    fn name(&self) -> (r: &str)
        ensures
            r@ == rule_name(7),
    {
        "duplicate-index"
    }

    fn description(&self) -> (r: &str)
        ensures
            r@ == "Duplicate indexes waste storage and slow down writes"@,
    {
        "Duplicate indexes waste storage and slow down writes"
    }

    fn check(&self, schema: &Schema) -> (r: Vec<LintWarning>)
        ensures
            r.deep_view() == rule_check(7, schema@, seq![], 0, false),
    {
        let empty = String::new();
        per_tables_exec(7, schema, &empty)
    }
}

/// Rule 8: Enum with too many values.
pub struct EnumTooManyValues {
    pub threshold: usize,
}

impl LintRule for EnumTooManyValues {
    fn name(&self) -> (r: &str)
        ensures
            r@ == rule_name(8),
    {
        "enum-too-many-values"
    }

    fn description(&self) -> (r: &str)
        ensures
            r@ == "Enums with too many values may indicate a modeling problem"@,
    {
        "Enums with too many values may indicate a modeling problem"
    }

    fn check(&self, schema: &Schema) -> (r: Vec<LintWarning>)
        ensures
            r.deep_view() == rule_check(8, schema@, seq![], self.threshold, false),
    {
        enum_warnings_exec(schema, self.threshold)
    }
}

/// Rule 9: Missing created_at/updated_at timestamps (optional).
pub struct MissingTimestamps {
    pub enabled: bool,
}

impl LintRule for MissingTimestamps {
    fn name(&self) -> (r: &str)
        ensures
            r@ == rule_name(9),
    {
        "missing-timestamps"
    }

    fn description(&self) -> (r: &str)
        ensures
            r@ == "Tables should have created_at and updated_at timestamp columns"@,
    {
        "Tables should have created_at and updated_at timestamp columns"
    }

    fn check(&self, schema: &Schema) -> (r: Vec<LintWarning>)
        ensures
            r.deep_view() == rule_check(9, schema@, seq![], 0, self.enabled),
    {
        if !self.enabled {
            let r: Vec<LintWarning> = Vec::new();
            assert(r.deep_view() =~= seq![]);
            return r;
        }
        per_tables_exec(9, schema, &String::new())
    }
}

/// Rule 10: Index on low-cardinality boolean column.
pub struct BooleanColumnIndex;

impl LintRule for BooleanColumnIndex {
    fn name(&self) -> (r: &str)
        ensures
            r@ == rule_name(10),
    {
        "boolean-index"
    }

    fn description(&self) -> (r: &str)
        ensures
            r@ == "Indexes on boolean columns are rarely useful due to low cardinality"@,
    {
        "Indexes on boolean columns are rarely useful due to low cardinality"
    }

    fn check(&self, schema: &Schema) -> (r: Vec<LintWarning>)
        ensures
            r.deep_view() == rule_check(10, schema@, seq![], 0, false),
    {
        let empty = String::new();
        per_tables_exec(10, schema, &empty)
    }
}

/// Warnings of rule `id` unless the configuration disables it.
pub open spec fn enabled_rule(
    id: int,
    schema: SchemaV,
    disabled: Seq<Seq<char>>,
    convention: Seq<char>,
    threshold: usize,
    timestamps: bool,
) -> Seq<LintWarningV> {
    if disabled.contains(rule_name(id)) {
        seq![]
    } else {
        rule_check(id, schema, convention, threshold, timestamps)
    }
}

pub open spec fn lint_upto(
    n: int,
    schema: SchemaV,
    disabled: Seq<Seq<char>>,
    convention: Seq<char>,
    threshold: usize,
    timestamps: bool,
) -> Seq<LintWarningV>
    decreases n,
{
    if n <= 0 {
        seq![]
    } else {
        lint_upto(n - 1, schema, disabled, convention, threshold, timestamps) + enabled_rule(
            n,
            schema,
            disabled,
            convention,
            threshold,
            timestamps,
        )
    }
}

/// All ten rules in order, each skipped when its name is disabled.
pub open spec fn lint_spec(
    schema: SchemaV,
    disabled: Seq<Seq<char>>,
    convention: Seq<char>,
    threshold: usize,
    timestamps: bool,
) -> Seq<LintWarningV> {
    lint_upto(10, schema, disabled, convention, threshold, timestamps)
}

fn rule_check_exec(id: u8, schema: &Schema, config: &LintConfig) -> (r: Vec<LintWarning>)
    requires
        1 <= id <= 10,
    ensures
        r.deep_view() == rule_check(
            id as int,
            schema@,
            config.naming_convention@,
            config.enum_value_threshold,
            config.require_timestamps,
        ),
{
    if id == 1 {
        MissingPrimaryKey.check(schema)
    } else if id == 2 {
        MissingForeignKeyIndex.check(schema)
    } else if id == 3 {
        NullableUniqueColumn.check(schema)
    } else if id == 4 {
        UnboundedTextColumn.check(schema)
    } else if id == 5 {
        ForeignKeyWithoutAction.check(schema)
    } else if id == 6 {
        NamingConvention { convention: config.naming_convention.clone() }.check(schema)
    } else if id == 7 {
        DuplicateIndex.check(schema)
    } else if id == 8 {
        EnumTooManyValues { threshold: config.enum_value_threshold }.check(schema)
    } else if id == 9 {
        MissingTimestamps { enabled: config.require_timestamps }.check(schema)
    } else {
        BooleanColumnIndex.check(schema)
    }
}

fn rule_name_exec(id: u8) -> (r: &'static str)
    requires
        1 <= id <= 10,
    ensures
        r@ == rule_name(id as int),
{
    if id == 1 {
        MissingPrimaryKey.name()
    } else if id == 2 {
        MissingForeignKeyIndex.name()
    } else if id == 3 {
        NullableUniqueColumn.name()
    } else if id == 4 {
        UnboundedTextColumn.name()
    } else if id == 5 {
        ForeignKeyWithoutAction.name()
    } else if id == 6 {
        "naming-convention"
    } else if id == 7 {
        DuplicateIndex.name()
    } else if id == 8 {
        "enum-too-many-values"
    } else if id == 9 {
        "missing-timestamps"
    } else {
        BooleanColumnIndex.name()
    }
}

fn lint_step(warnings: &mut Vec<LintWarning>, id: u8, schema: &Schema, config: &LintConfig)
    requires
        1 <= id <= 10,
    ensures
        final(warnings).deep_view() == old(warnings).deep_view() + enabled_rule(
            id as int,
            schema@,
            config.disabled_rules.deep_view(),
            config.naming_convention@,
            config.enum_value_threshold,
            config.require_timestamps,
        ),
{
    let name = String::from_str(rule_name_exec(id));
    let ghost before = warnings.deep_view();
    if !contains_string(&config.disabled_rules, &name) {
        let mut w = rule_check_exec(id, schema, config);
        let ghost wv = w.deep_view();
        warnings.append(&mut w);
        assert(warnings.deep_view() =~= before + wv);
    } else {
        assert(before + seq![] =~= before);
    }
}

/// Run all lint rules against a schema with the given configuration.
pub fn lint(schema: &Schema, config: &LintConfig) -> (r: Vec<LintWarning>)
    ensures
        r.deep_view() == lint_spec(
            schema@,
            config.disabled_rules.deep_view(),
            config.naming_convention@,
            config.enum_value_threshold,
            config.require_timestamps,
        ),
{
    let mut warnings: Vec<LintWarning> = Vec::new();
    assert(warnings.deep_view() =~= seq![]);
    let mut id: u8 = 1;
    while id <= 10
        invariant
            1 <= id <= 11,
            warnings.deep_view() == lint_upto(
                id - 1,
                schema@,
                config.disabled_rules.deep_view(),
                config.naming_convention@,
                config.enum_value_threshold,
                config.require_timestamps,
            ),
        decreases 11 - id,
    {
        lint_step(&mut warnings, id, schema, config);
        id += 1;
    }
    warnings
}

/// Run lint with default configuration.
pub fn lint_default(schema: &Schema) -> (r: Vec<LintWarning>)
    ensures
        r.deep_view() == lint_spec(schema@, seq![], "snake_case"@, 20, false),
{
    let config = LintConfig::default();
    proof {
        assert(config.disabled_rules.deep_view() =~= seq![]);
    }
    lint(schema, &config)
}

// ---------------------------------------------------------------------------
// Laws
// ---------------------------------------------------------------------------

/// Every warning of `ws` carries the rule name `name`.
pub open spec fn all_of_rule(ws: Seq<LintWarningV>, name: Seq<char>) -> bool {
    forall|k: int| 0 <= k < ws.len() ==> (#[trigger] ws[k]).rule == name
}

proof fn lemma_all_of_rule_concat(a: Seq<LintWarningV>, b: Seq<LintWarningV>, name: Seq<char>)
    requires
        all_of_rule(a, name),
        all_of_rule(b, name),
    ensures
        all_of_rule(a + b, name),
{
    assert forall|k: int| 0 <= k < (a + b).len() implies (#[trigger] (a + b)[k]).rule == name by {
        if k < a.len() {
            assert((a + b)[k] == a[k]);
        } else {
            assert((a + b)[k] == b[k - a.len()]);
        }
    }
}

proof fn lemma_fk_col_named(t: Seq<char>, indexed: Seq<Seq<char>>, cols: Seq<Seq<char>>)
    ensures
        all_of_rule(fk_col_warnings(t, indexed, cols), rule_name(2)),
    decreases cols.len(),
{
    if cols.len() > 0 {
        lemma_fk_col_named(t, indexed, cols.drop_last());
        let tail = if indexed.contains(cols.last()) {
            Seq::<LintWarningV>::empty()
        } else {
            seq![
                warn(
                    "missing-fk-index"@,
                    Severity::Warning,
                    "column '"@ + t + "."@ + cols.last() + "' is a foreign key but has no index"@,
                    Some(t),
                    Some(cols.last()),
                ),
            ]
        };
        lemma_all_of_rule_concat(fk_col_warnings(t, indexed, cols.drop_last()), tail, rule_name(2));
    }
}

proof fn lemma_fk_index_named(t: TableV, indexed: Seq<Seq<char>>, fks: Seq<ForeignKeyV>)
    ensures
        all_of_rule(fk_index_warnings(t, indexed, fks), rule_name(2)),
    decreases fks.len(),
{
    if fks.len() > 0 {
        lemma_fk_index_named(t, indexed, fks.drop_last());
        lemma_fk_col_named(t.name, indexed, fks.last().columns);
        lemma_all_of_rule_concat(
            fk_index_warnings(t, indexed, fks.drop_last()),
            fk_col_warnings(t.name, indexed, fks.last().columns),
            rule_name(2),
        );
    }
}

proof fn lemma_nullable_col_named(t: TableV, names: Seq<Seq<char>>)
    ensures
        all_of_rule(nullable_col_warnings(t, names), rule_name(3)),
    decreases names.len(),
{
    if names.len() > 0 {
        lemma_nullable_col_named(t, names.drop_last());
        let w = nullable_col_warnings(t, names);
        let d = nullable_col_warnings(t, names.drop_last());
        assert forall|k: int| 0 <= k < w.len() implies (#[trigger] w[k]).rule == rule_name(3) by {
            if k < d.len() {
                assert(w[k] == d[k]);
            }
        }
    }
}

proof fn lemma_nullable_unique_named(t: TableV, ucs: Seq<UniqueConstraintV>)
    ensures
        all_of_rule(nullable_unique_warnings(t, ucs), rule_name(3)),
    decreases ucs.len(),
{
    if ucs.len() > 0 {
        lemma_nullable_unique_named(t, ucs.drop_last());
        lemma_nullable_col_named(t, ucs.last().columns);
        lemma_all_of_rule_concat(
            nullable_unique_warnings(t, ucs.drop_last()),
            nullable_col_warnings(t, ucs.last().columns),
            rule_name(3),
        );
    }
}

proof fn lemma_unbounded_named(t: Seq<char>, cols: Seq<ColumnV>)
    ensures
        all_of_rule(unbounded_text_warnings(t, cols), rule_name(4)),
    decreases cols.len(),
{
    if cols.len() > 0 {
        lemma_unbounded_named(t, cols.drop_last());
        let w = unbounded_text_warnings(t, cols);
        let d = unbounded_text_warnings(t, cols.drop_last());
        assert forall|k: int| 0 <= k < w.len() implies (#[trigger] w[k]).rule == rule_name(4) by {
            if k < d.len() {
                assert(w[k] == d[k]);
            }
        }
    }
}

proof fn lemma_fk_no_action_named(t: Seq<char>, fks: Seq<ForeignKeyV>)
    ensures
        all_of_rule(fk_no_action_warnings(t, fks), rule_name(5)),
    decreases fks.len(),
{
    if fks.len() > 0 {
        lemma_fk_no_action_named(t, fks.drop_last());
        let w = fk_no_action_warnings(t, fks);
        let d = fk_no_action_warnings(t, fks.drop_last());
        assert forall|k: int| 0 <= k < w.len() implies (#[trigger] w[k]).rule == rule_name(5) by {
            if k < d.len() {
                assert(w[k] == d[k]);
            }
        }
    }
}

proof fn lemma_naming_column_named(t: Seq<char>, cols: Seq<ColumnV>, convention: Seq<char>)
    ensures
        all_of_rule(naming_column_warnings(t, cols, convention), rule_name(6)),
    decreases cols.len(),
{
    if cols.len() > 0 {
        lemma_naming_column_named(t, cols.drop_last(), convention);
        let w = naming_column_warnings(t, cols, convention);
        let d = naming_column_warnings(t, cols.drop_last(), convention);
        assert forall|k: int| 0 <= k < w.len() implies (#[trigger] w[k]).rule == rule_name(6) by {
            if k < d.len() {
                assert(w[k] == d[k]);
            }
        }
    }
}

proof fn lemma_dup_row_named(t: Seq<char>, ixs: Seq<IndexV>, i: int, end: int)
    ensures
        all_of_rule(dup_row(t, ixs, i, end), rule_name(7)),
    decreases end - i,
{
    if end > i + 1 {
        lemma_dup_row_named(t, ixs, i, end - 1);
        let w = dup_row(t, ixs, i, end);
        let d = dup_row(t, ixs, i, end - 1);
        assert forall|k: int| 0 <= k < w.len() implies (#[trigger] w[k]).rule == rule_name(7) by {
            if k < d.len() {
                assert(w[k] == d[k]);
            }
        }
    }
}

proof fn lemma_duplicate_index_named(t: Seq<char>, ixs: Seq<IndexV>, n: int)
    ensures
        all_of_rule(duplicate_index_warnings(t, ixs, n), rule_name(7)),
    decreases n,
{
    if n > 0 {
        lemma_duplicate_index_named(t, ixs, n - 1);
        lemma_dup_row_named(t, ixs, n - 1, ixs.len() as int);
        lemma_all_of_rule_concat(
            duplicate_index_warnings(t, ixs, n - 1),
            dup_row(t, ixs, n - 1, ixs.len() as int),
            rule_name(7),
        );
    }
}

proof fn lemma_enum_named(es: Seq<EnumTypeV>, threshold: usize)
    ensures
        all_of_rule(enum_warnings(es, threshold), rule_name(8)),
    decreases es.len(),
{
    if es.len() > 0 {
        lemma_enum_named(es.drop_last(), threshold);
        let w = enum_warnings(es, threshold);
        let d = enum_warnings(es.drop_last(), threshold);
        assert forall|k: int| 0 <= k < w.len() implies (#[trigger] w[k]).rule == rule_name(8) by {
            if k < d.len() {
                assert(w[k] == d[k]);
            }
        }
    }
}

proof fn lemma_boolean_index_named(t: TableV, ixs: Seq<IndexV>)
    ensures
        all_of_rule(boolean_index_warnings(t, ixs), rule_name(10)),
    decreases ixs.len(),
{
    if ixs.len() > 0 {
        lemma_boolean_index_named(t, ixs.drop_last());
        let w = boolean_index_warnings(t, ixs);
        let d = boolean_index_warnings(t, ixs.drop_last());
        assert forall|k: int| 0 <= k < w.len() implies (#[trigger] w[k]).rule == rule_name(10) by {
            if k < d.len() {
                assert(w[k] == d[k]);
            }
        }
    }
}

proof fn lemma_table_warnings_named(rule: int, t: TableV, convention: Seq<char>)
    requires
        1 <= rule <= 10,
        rule != 8,
    ensures
        all_of_rule(table_warnings(rule, t, convention), rule_name(rule)),
{
    let w = table_warnings(rule, t, convention);
    if rule == 1 {
    } else if rule == 2 {
        lemma_fk_index_named(t, dedup(key_and_index_columns(t)), t.foreign_keys);
    } else if rule == 3 {
        lemma_nullable_unique_named(t, t.unique_constraints);
    } else if rule == 4 {
        lemma_unbounded_named(t.name, t.columns);
    } else if rule == 5 {
        lemma_fk_no_action_named(t.name, t.foreign_keys);
    } else if rule == 6 {
        lemma_naming_column_named(t.name, t.columns, convention);
        let head = if follows(convention, t.name) {
            Seq::<LintWarningV>::empty()
        } else {
            seq![
                warn(
                    "naming-convention"@,
                    Severity::Warning,
                    "table name '"@ + t.name + "' does not follow "@ + convention + " convention"@,
                    Some(t.name),
                    None,
                ),
            ]
        };
        lemma_all_of_rule_concat(
            head,
            naming_column_warnings(t.name, t.columns, convention),
            rule_name(6),
        );
    } else if rule == 7 {
        lemma_duplicate_index_named(t.name, t.indexes, t.indexes.len() as int);
    } else if rule == 9 {
    } else {
        lemma_boolean_index_named(t, t.indexes);
    }
}

proof fn lemma_per_tables_named(rule: int, ts: Seq<TableV>, convention: Seq<char>)
    requires
        1 <= rule <= 10,
        rule != 8,
    ensures
        all_of_rule(per_tables(rule, ts, convention), rule_name(rule)),
    decreases ts.len(),
{
    if ts.len() > 0 {
        lemma_per_tables_named(rule, ts.drop_last(), convention);
        lemma_table_warnings_named(rule, ts.last(), convention);
        lemma_all_of_rule_concat(
            per_tables(rule, ts.drop_last(), convention),
            table_warnings(rule, ts.last(), convention),
            rule_name(rule),
        );
    }
}

/// Every warning of a rule carries that rule's name.
pub proof fn lemma_rule_check_named(
    id: int,
    schema: SchemaV,
    convention: Seq<char>,
    threshold: usize,
    timestamps: bool,
)
    requires
        1 <= id <= 10,
    ensures
        all_of_rule(rule_check(id, schema, convention, threshold, timestamps), rule_name(id)),
{
    if id == 8 {
        lemma_enum_named(schema.enums, threshold);
    } else if id == 9 && !timestamps {
    } else {
        lemma_per_tables_named(
            id,
            schema.tables,
            if id == 6 {
                convention
            } else {
                seq![]
            },
        );
    }
}

/// The warnings of the first `n` rules come from rules that are not
/// disabled.
proof fn lemma_lint_upto_enabled(
    n: int,
    schema: SchemaV,
    disabled: Seq<Seq<char>>,
    convention: Seq<char>,
    threshold: usize,
    timestamps: bool,
)
    requires
        n <= 10,
    ensures
        forall|k: int|
            0 <= k < lint_upto(n, schema, disabled, convention, threshold, timestamps).len()
                ==> #[trigger] enabled_warning(
                lint_upto(n, schema, disabled, convention, threshold, timestamps)[k],
                disabled,
            ),
    decreases n,
{
    if n > 0 {
        lemma_lint_upto_enabled(n - 1, schema, disabled, convention, threshold, timestamps);
        let a = lint_upto(n - 1, schema, disabled, convention, threshold, timestamps);
        let b = enabled_rule(n, schema, disabled, convention, threshold, timestamps);
        let w = lint_upto(n, schema, disabled, convention, threshold, timestamps);
        if !disabled.contains(rule_name(n)) {
            lemma_rule_check_named(n, schema, convention, threshold, timestamps);
        }
        assert forall|k: int| 0 <= k < w.len() implies #[trigger] enabled_warning(w[k], disabled) by {
            if k < a.len() {
                assert(w[k] == a[k]);
            } else {
                assert(w[k] == b[k - a.len()]);
                assert(w[k].rule == rule_name(n));
            }
        }
    }
}

/// The warning comes from one of the ten rules, under its name, and that
/// rule is not disabled.
pub open spec fn enabled_warning(w: LintWarningV, disabled: Seq<Seq<char>>) -> bool {
    (exists|id: int| 1 <= id <= 10 && w.rule == rule_name(id)) && !disabled.contains(w.rule)
}

/// Lint reports only warnings of rules that are not disabled, each under
/// its rule's name; with every rule disabled it reports nothing.
pub proof fn lemma_lint_respects_disabled(
    schema: SchemaV,
    disabled: Seq<Seq<char>>,
    convention: Seq<char>,
    threshold: usize,
    timestamps: bool,
)
    ensures
        forall|k: int|
            0 <= k < lint_spec(schema, disabled, convention, threshold, timestamps).len()
                ==> #[trigger] enabled_warning(
                lint_spec(schema, disabled, convention, threshold, timestamps)[k],
                disabled,
            ),
        (forall|id: int| 1 <= id <= 10 ==> disabled.contains(#[trigger] rule_name(id)))
            ==> lint_spec(schema, disabled, convention, threshold, timestamps).len() == 0,
{
    lemma_lint_upto_enabled(10, schema, disabled, convention, threshold, timestamps);
    let w = lint_spec(schema, disabled, convention, threshold, timestamps);
    if (forall|id: int| 1 <= id <= 10 ==> disabled.contains(#[trigger] rule_name(id))) && w.len()
        > 0 {
        assert(enabled_warning(w[0], disabled));
        let id = choose|id: int| 1 <= id <= 10 && w[0].rule == rule_name(id);
        assert(disabled.contains(rule_name(id)));
    }
}

/// The warnings whose rule is not among `disabled`, in order.
pub open spec fn without_rules(ws: Seq<LintWarningV>, disabled: Seq<Seq<char>>) -> Seq<LintWarningV>
    decreases ws.len(),
{
    if ws.len() == 0 {
        seq![]
    } else {
        without_rules(ws.drop_last(), disabled) + if disabled.contains(ws.last().rule) {
            Seq::<LintWarningV>::empty()
        } else {
            seq![ws.last()]
        }
    }
}

proof fn lemma_without_rules_concat(a: Seq<LintWarningV>, b: Seq<LintWarningV>, d: Seq<Seq<char>>)
    ensures
        without_rules(a + b, d) == without_rules(a, d) + without_rules(b, d),
    decreases b.len(),
{
    if b.len() == 0 {
        assert(a + b =~= a);
        assert(without_rules(a, d) + without_rules(b, d) =~= without_rules(a, d));
    } else {
        lemma_without_rules_concat(a, b.drop_last(), d);
        assert((a + b).drop_last() =~= a + b.drop_last());
        assert((a + b).last() == b.last());
        let tail = if d.contains(b.last().rule) {
            Seq::<LintWarningV>::empty()
        } else {
            seq![b.last()]
        };
        assert(without_rules(a, d) + without_rules(b.drop_last(), d) + tail =~= without_rules(a, d)
            + (without_rules(b.drop_last(), d) + tail));
    }
}

proof fn lemma_without_rules_one_rule(ws: Seq<LintWarningV>, name: Seq<char>, d: Seq<Seq<char>>)
    requires
        all_of_rule(ws, name),
    ensures
        without_rules(ws, d) == if d.contains(name) {
            Seq::<LintWarningV>::empty()
        } else {
            ws
        },
    decreases ws.len(),
{
    if ws.len() > 0 {
        let p = ws.drop_last();
        assert(all_of_rule(p, name)) by {
            assert forall|k: int| 0 <= k < p.len() implies (#[trigger] p[k]).rule == name by {
                assert(p[k] == ws[k]);
            }
        }
        lemma_without_rules_one_rule(p, name, d);
        assert(ws.last() == ws[ws.len() - 1]);
        if d.contains(name) {
            assert(without_rules(ws, d) =~= Seq::<LintWarningV>::empty());
        } else {
            assert(without_rules(ws, d) =~= ws);
        }
    }
}

proof fn lemma_lint_upto_filtered(
    n: int,
    schema: SchemaV,
    d: Seq<Seq<char>>,
    convention: Seq<char>,
    threshold: usize,
    timestamps: bool,
)
    requires
        n <= 10,
    ensures
        lint_upto(n, schema, d, convention, threshold, timestamps) == without_rules(
            lint_upto(n, schema, seq![], convention, threshold, timestamps),
            d,
        ),
    decreases n,
{
    if n > 0 {
        lemma_lint_upto_filtered(n - 1, schema, d, convention, threshold, timestamps);
        let full = rule_check(n, schema, convention, threshold, timestamps);
        let none: Seq<Seq<char>> = seq![];
        assert(!none.contains(rule_name(n)));
        assert(enabled_rule(n, schema, none, convention, threshold, timestamps) == full);
        lemma_rule_check_named(n, schema, convention, threshold, timestamps);
        lemma_without_rules_one_rule(full, rule_name(n), d);
        lemma_without_rules_concat(
            lint_upto(n - 1, schema, none, convention, threshold, timestamps),
            full,
            d,
        );
    } else {
        assert(without_rules(Seq::<LintWarningV>::empty(), d) =~= Seq::<LintWarningV>::empty());
    }
}

/// Linting with some rules disabled gives the full list of warnings without
/// those of the disabled rules, in the same order.
pub proof fn lemma_lint_is_filtered(
    schema: SchemaV,
    disabled: Seq<Seq<char>>,
    convention: Seq<char>,
    threshold: usize,
    timestamps: bool,
)
    ensures
        lint_spec(schema, disabled, convention, threshold, timestamps) == without_rules(
            lint_spec(schema, seq![], convention, threshold, timestamps),
            disabled,
        ),
{
    lemma_lint_upto_filtered(10, schema, disabled, convention, threshold, timestamps);
}


proof fn lemma_concat_contains<A>(a: Seq<A>, b: Seq<A>, x: A)
    ensures
        (a + b).contains(x) <==> (a.contains(x) || b.contains(x)),
{
    if a.contains(x) {
        let k = choose|k: int| 0 <= k < a.len() && a[k] == x;
        assert((a + b)[k] == x);
    }
    if b.contains(x) {
        let k = choose|k: int| 0 <= k < b.len() && b[k] == x;
        assert((a + b)[a.len() + k] == x);
    }
    if (a + b).contains(x) {
        let k = choose|k: int| 0 <= k < (a + b).len() && (a + b)[k] == x;
        if k < a.len() {
            assert(a[k] == x);
        } else {
            assert(b[k - a.len()] == x);
        }
    }
}

/// The warning that a column of table `tn` has a text type without a length
/// limit.
pub open spec fn unbounded_text_warning(tn: Seq<char>, c: ColumnV) -> LintWarningV {
    LintWarningV {
        rule: "unbounded-text"@,
        severity: Severity::Info,
        message: "column '"@ + tn + "."@ + c.name + "' uses unbounded text type '"@ + display(
            c.data_type,
        ) + "'; consider varchar with a length limit"@,
        table: Some(tn),
        column: Some(c.name),
    }
}

/// The number of columns of a text type without a length limit.
pub open spec fn unbounded_text_count(cols: Seq<ColumnV>) -> nat
    decreases cols.len(),
{
    if cols.len() == 0 {
        0
    } else {
        unbounded_text_count(cols.drop_last()) + if cols.last().data_type is Text
            || cols.last().data_type is MediumText || cols.last().data_type is LongText {
            1nat
        } else {
            0nat
        }
    }
}

/// The number of such columns over all tables.
pub open spec fn unbounded_text_total(ts: Seq<TableV>) -> nat
    decreases ts.len(),
{
    if ts.len() == 0 {
        0
    } else {
        unbounded_text_total(ts.drop_last()) + unbounded_text_count(ts.last().columns)
    }
}

proof fn lemma_unbounded_table(tn: Seq<char>, cols: Seq<ColumnV>)
    ensures
        unbounded_text_warnings(tn, cols).len() == unbounded_text_count(cols),
        forall|j: int|
            0 <= j < cols.len() && (cols[j].data_type is Text || cols[j].data_type is MediumText
                || cols[j].data_type is LongText) ==> unbounded_text_warnings(tn, cols).contains(
                unbounded_text_warning(tn, #[trigger] cols[j]),
            ),
        forall|x: LintWarningV|
            #[trigger] unbounded_text_warnings(tn, cols).contains(x) ==> exists|j: int|
                0 <= j < cols.len() && (cols[j].data_type is Text || cols[j].data_type is MediumText
                    || cols[j].data_type is LongText) && x == unbounded_text_warning(
                    tn,
                    #[trigger] cols[j],
                ),
    decreases cols.len(),
{
    if cols.len() > 0 {
        let init = cols.drop_last();
        lemma_unbounded_table(tn, init);
        let a = unbounded_text_warnings(tn, init);
        let c = cols.last();
        let b = if c.data_type is Text || c.data_type is MediumText || c.data_type is LongText {
            seq![unbounded_text_warning(tn, c)]
        } else {
            seq![]
        };
        assert(unbounded_text_warnings(tn, cols) == a + b);
        assert forall|j: int|
            0 <= j < cols.len() && (cols[j].data_type is Text || cols[j].data_type is MediumText
                || cols[j].data_type is LongText) implies unbounded_text_warnings(tn, cols).contains(
            unbounded_text_warning(tn, #[trigger] cols[j]),
        ) by {
            lemma_concat_contains(a, b, unbounded_text_warning(tn, cols[j]));
            if j < init.len() {
                assert(init[j] == cols[j]);
            } else {
                assert(b[0] == unbounded_text_warning(tn, cols[j]));
            }
        }
        assert forall|x: LintWarningV| #[trigger]
            unbounded_text_warnings(tn, cols).contains(x) implies exists|j: int|
            0 <= j < cols.len() && (cols[j].data_type is Text || cols[j].data_type is MediumText
                || cols[j].data_type is LongText) && x == unbounded_text_warning(
                tn,
                #[trigger] cols[j],
            ) by {
            lemma_concat_contains(a, b, x);
            if a.contains(x) {
                let j = choose|j: int|
                    0 <= j < init.len() && (init[j].data_type is Text || init[j].data_type
                        is MediumText || init[j].data_type is LongText) && x
                        == unbounded_text_warning(tn, #[trigger] init[j]);
                assert(cols[j] == init[j]);
            } else {
                assert(b[0] == x);
                assert(cols[cols.len() - 1] == c);
            }
        }
    }
}

proof fn lemma_rule4_tables(ts: Seq<TableV>)
    ensures
        per_tables(4, ts, seq![]).len() == unbounded_text_total(ts),
        forall|i: int, j: int|
            0 <= i < ts.len() && 0 <= j < ts[i].columns.len() && (ts[i].columns[j].data_type is Text
                || ts[i].columns[j].data_type is MediumText || ts[i].columns[j].data_type
                is LongText) ==> per_tables(4, ts, seq![]).contains(
                unbounded_text_warning(ts[i].name, #[trigger] ts[i].columns[j]),
            ),
        forall|x: LintWarningV|
            #[trigger] per_tables(4, ts, seq![]).contains(x) ==> exists|i: int, j: int|
                0 <= i < ts.len() && 0 <= j < ts[i].columns.len() && (ts[i].columns[j].data_type
                    is Text || ts[i].columns[j].data_type is MediumText
                    || ts[i].columns[j].data_type is LongText) && x == unbounded_text_warning(
                    ts[i].name,
                    #[trigger] ts[i].columns[j],
                ),
    decreases ts.len(),
{
    if ts.len() > 0 {
        let init = ts.drop_last();
        lemma_rule4_tables(init);
        let t = ts.last();
        lemma_unbounded_table(t.name, t.columns);
        let a = per_tables(4, init, seq![]);
        let b = unbounded_text_warnings(t.name, t.columns);
        assert(per_tables(4, ts, seq![]) == a + b);
        assert forall|i: int, j: int|
            0 <= i < ts.len() && 0 <= j < ts[i].columns.len() && (ts[i].columns[j].data_type is Text
                || ts[i].columns[j].data_type is MediumText || ts[i].columns[j].data_type
                is LongText) implies per_tables(4, ts, seq![]).contains(
            unbounded_text_warning(ts[i].name, #[trigger] ts[i].columns[j]),
        ) by {
            lemma_concat_contains(a, b, unbounded_text_warning(ts[i].name, ts[i].columns[j]));
            if i < init.len() {
                assert(init[i] == ts[i]);
                assert(init[i].columns[j] == ts[i].columns[j]);
            } else {
                assert(ts[i] == t);
                assert(t.columns[j] == ts[i].columns[j]);
            }
        }
        assert forall|x: LintWarningV| #[trigger]
            per_tables(4, ts, seq![]).contains(x) implies exists|i: int, j: int|
            0 <= i < ts.len() && 0 <= j < ts[i].columns.len() && (ts[i].columns[j].data_type
                is Text || ts[i].columns[j].data_type is MediumText
                || ts[i].columns[j].data_type is LongText) && x == unbounded_text_warning(
                ts[i].name,
                #[trigger] ts[i].columns[j],
            ) by {
            lemma_concat_contains(a, b, x);
            if a.contains(x) {
                let (i, j) = choose|i: int, j: int|
                    0 <= i < init.len() && 0 <= j < init[i].columns.len() && (
                    init[i].columns[j].data_type is Text || init[i].columns[j].data_type
                        is MediumText || init[i].columns[j].data_type is LongText) && x
                        == unbounded_text_warning(init[i].name, #[trigger] init[i].columns[j]);
                assert(ts[i] == init[i]);
            } else {
                let j = choose|j: int|
                    0 <= j < t.columns.len() && (t.columns[j].data_type is Text
                        || t.columns[j].data_type is MediumText || t.columns[j].data_type
                        is LongText) && x == unbounded_text_warning(t.name, #[trigger] t.columns[j]);
                assert(ts[ts.len() - 1] == t);
                assert(ts[ts.len() - 1].columns[j] == t.columns[j]);
            }
        }
    }
}


proof fn lemma_lint_upto_members(
    n: int,
    schema: SchemaV,
    disabled: Seq<Seq<char>>,
    convention: Seq<char>,
    threshold: usize,
    timestamps: bool,
    x: LintWarningV,
)
    ensures
        lint_upto(n, schema, disabled, convention, threshold, timestamps).contains(x) <==> exists|
            id: int,
        |
            1 <= id <= n && #[trigger] enabled_rule(
                id,
                schema,
                disabled,
                convention,
                threshold,
                timestamps,
            ).contains(x),
    decreases n,
{
    if n > 0 {
        lemma_lint_upto_members(n - 1, schema, disabled, convention, threshold, timestamps, x);
        let a = lint_upto(n - 1, schema, disabled, convention, threshold, timestamps);
        let b = enabled_rule(n, schema, disabled, convention, threshold, timestamps);
        lemma_concat_contains(a, b, x);
        if exists|id: int|
            1 <= id <= n && #[trigger] enabled_rule(
                id,
                schema,
                disabled,
                convention,
                threshold,
                timestamps,
            ).contains(x) {
            let id = choose|id: int|
                1 <= id <= n && #[trigger] enabled_rule(
                    id,
                    schema,
                    disabled,
                    convention,
                    threshold,
                    timestamps,
                ).contains(x);
            if id < n {
                assert(a.contains(x));
            }
        }
        if b.contains(x) {
            assert(enabled_rule(n, schema, disabled, convention, threshold, timestamps).contains(x));
        }
    }
}

/// The unbounded-text rule reports each column whose type is a text type
/// without a length limit (`TEXT`, `MEDIUMTEXT`, `LONGTEXT`) exactly once,
/// naming its table and column, and nothing else: its warnings are as many
/// as such columns; lint, unless the rule is disabled, reports the warning
/// of every such column; and every `unbounded-text` warning that lint
/// reports is the warning of such a column.
pub proof fn lemma_unbounded_text_reported(
    schema: SchemaV,
    disabled: Seq<Seq<char>>,
    convention: Seq<char>,
    threshold: usize,
    timestamps: bool,
)
    ensures
        rule_check(4, schema, convention, threshold, timestamps).len() == unbounded_text_total(
            schema.tables,
        ),
        !disabled.contains("unbounded-text"@) ==> forall|i: int, j: int|
            0 <= i < schema.tables.len() && 0 <= j < schema.tables[i].columns.len() && (
            schema.tables[i].columns[j].data_type is Text || schema.tables[i].columns[j].data_type
                is MediumText || schema.tables[i].columns[j].data_type is LongText) ==> lint_spec(
                schema,
                disabled,
                convention,
                threshold,
                timestamps,
            ).contains(
                unbounded_text_warning(schema.tables[i].name, #[trigger] schema.tables[i].columns[j]),
            ),
        forall|x: LintWarningV|
            #[trigger] lint_spec(schema, disabled, convention, threshold, timestamps).contains(x)
                && x.rule == "unbounded-text"@ ==> exists|i: int, j: int|
                0 <= i < schema.tables.len() && 0 <= j < schema.tables[i].columns.len() && (
                schema.tables[i].columns[j].data_type is Text
                    || schema.tables[i].columns[j].data_type is MediumText
                    || schema.tables[i].columns[j].data_type is LongText) && x
                    == unbounded_text_warning(
                    schema.tables[i].name,
                    #[trigger] schema.tables[i].columns[j],
                ),
{
    let ts = schema.tables;
    lemma_rule4_tables(ts);
    assert(rule_check(4, schema, convention, threshold, timestamps) == per_tables(4, ts, seq![]));
    if !disabled.contains("unbounded-text"@) {
        assert forall|i: int, j: int|
            0 <= i < ts.len() && 0 <= j < ts[i].columns.len() && (ts[i].columns[j].data_type
                is Text || ts[i].columns[j].data_type is MediumText || ts[i].columns[j].data_type
                is LongText) implies lint_spec(
            schema,
            disabled,
            convention,
            threshold,
            timestamps,
        ).contains(unbounded_text_warning(ts[i].name, #[trigger] ts[i].columns[j])) by {
            let x = unbounded_text_warning(ts[i].name, ts[i].columns[j]);
            assert(enabled_rule(4, schema, disabled, convention, threshold, timestamps).contains(x));
            lemma_lint_upto_members(10, schema, disabled, convention, threshold, timestamps, x);
        }
    }
    assert forall|x: LintWarningV|
        #[trigger] lint_spec(schema, disabled, convention, threshold, timestamps).contains(x)
            && x.rule == "unbounded-text"@ implies exists|i: int, j: int|
        0 <= i < ts.len() && 0 <= j < ts[i].columns.len() && (ts[i].columns[j].data_type is Text
            || ts[i].columns[j].data_type is MediumText || ts[i].columns[j].data_type is LongText)
            && x == unbounded_text_warning(ts[i].name, #[trigger] ts[i].columns[j]) by {
        lemma_lint_upto_members(10, schema, disabled, convention, threshold, timestamps, x);
        let id = choose|id: int|
            1 <= id <= 10 && #[trigger] enabled_rule(
                id,
                schema,
                disabled,
                convention,
                threshold,
                timestamps,
            ).contains(x);
        let r = rule_check(id, schema, convention, threshold, timestamps);
        assert(r.contains(x));
        lemma_rule_check_named(id, schema, convention, threshold, timestamps);
        let k = choose|k: int| 0 <= k < r.len() && r[k] == x;
        assert(x.rule == rule_name(id));
        reveal_strlit("missing-primary-key");
        reveal_strlit("missing-fk-index");
        reveal_strlit("nullable-unique");
        reveal_strlit("unbounded-text");
        reveal_strlit("fk-no-action");
        reveal_strlit("naming-convention");
        reveal_strlit("duplicate-index");
        reveal_strlit("enum-too-many-values");
        reveal_strlit("missing-timestamps");
        reveal_strlit("boolean-index");
        assert(id == 4);
    }
}


proof fn lemma_per_tables_members(rule: int, ts: Seq<TableV>, convention: Seq<char>, x: LintWarningV)
    ensures
        per_tables(rule, ts, convention).contains(x) <==> exists|i: int|
            0 <= i < ts.len() && #[trigger] table_warnings(rule, ts[i], convention).contains(x),
    decreases ts.len(),
{
    if ts.len() > 0 {
        let init = ts.drop_last();
        lemma_per_tables_members(rule, init, convention, x);
        lemma_concat_contains(
            per_tables(rule, init, convention),
            table_warnings(rule, ts.last(), convention),
            x,
        );
        if exists|i: int|
            0 <= i < ts.len() && #[trigger] table_warnings(rule, ts[i], convention).contains(x) {
            let i = choose|i: int|
                0 <= i < ts.len() && #[trigger] table_warnings(rule, ts[i], convention).contains(x);
            if i < init.len() {
                assert(init[i] == ts[i]);
            }
        }
        if table_warnings(rule, ts.last(), convention).contains(x) {
            assert(ts[ts.len() - 1] == ts.last());
        }
        if per_tables(rule, init, convention).contains(x) {
            let i = choose|i: int|
                0 <= i < init.len() && #[trigger] table_warnings(rule, init[i], convention).contains(
                    x,
                );
            assert(ts[i] == init[i]);
        }
    }
}

/// Two rules with the same name are the same rule.
proof fn lemma_rule_names_distinct(a: int, b: int)
    requires
        1 <= a <= 10,
        1 <= b <= 10,
        rule_name(a) == rule_name(b),
    ensures
        a == b,
{
    reveal_strlit("missing-primary-key");
    reveal_strlit("missing-fk-index");
    reveal_strlit("nullable-unique");
    reveal_strlit("unbounded-text");
    reveal_strlit("fk-no-action");
    reveal_strlit("naming-convention");
    reveal_strlit("duplicate-index");
    reveal_strlit("enum-too-many-values");
    reveal_strlit("missing-timestamps");
    reveal_strlit("boolean-index");
    assert("missing-primary-key"@.len() == 19);
    assert("missing-fk-index"@.len() == 16);
    assert("nullable-unique"@.len() == 15);
    assert("unbounded-text"@.len() == 14);
    assert("fk-no-action"@.len() == 12);
    assert("naming-convention"@.len() == 17);
    assert("duplicate-index"@.len() == 15);
    assert("enum-too-many-values"@.len() == 20);
    assert("missing-timestamps"@.len() == 18);
    assert("boolean-index"@.len() == 13);
    assert(rule_number(rule_name(1)) == 1);
    assert(rule_number(rule_name(2)) == 2);
    assert(rule_number(rule_name(3)) == 3);
    assert(rule_number(rule_name(4)) == 4);
    assert(rule_number(rule_name(5)) == 5);
    assert(rule_number(rule_name(6)) == 6);
    assert(rule_name(7) != "nullable-unique"@) by {
        assert(rule_name(7)[0] != "nullable-unique"@[0]);
    }
    assert(rule_number(rule_name(7)) == 7);
    assert(rule_number(rule_name(8)) == 8);
    assert(rule_number(rule_name(9)) == 9);
    assert(rule_number(rule_name(10)) == 10);
    assert(rule_number(rule_name(a)) == a);
    assert(rule_number(rule_name(b)) == b);
}

/// The number of the rule of the given name (0 for none).
spec fn rule_number(name: Seq<char>) -> int {
    if name == "missing-primary-key"@ {
        1
    } else if name == "missing-fk-index"@ {
        2
    } else if name == "nullable-unique"@ {
        3
    } else if name == "unbounded-text"@ {
        4
    } else if name == "fk-no-action"@ {
        5
    } else if name == "naming-convention"@ {
        6
    } else if name == "duplicate-index"@ {
        7
    } else if name == "enum-too-many-values"@ {
        8
    } else if name == "missing-timestamps"@ {
        9
    } else if name == "boolean-index"@ {
        10
    } else {
        0
    }
}

/// A warning under the name of rule `id` is in the lint result exactly when
/// the rule is not disabled and reports it.
proof fn lemma_lint_rule_members(
    id: int,
    schema: SchemaV,
    disabled: Seq<Seq<char>>,
    convention: Seq<char>,
    threshold: usize,
    timestamps: bool,
    x: LintWarningV,
)
    requires
        1 <= id <= 10,
        x.rule == rule_name(id),
    ensures
        lint_spec(schema, disabled, convention, threshold, timestamps).contains(x) <==> (
        !disabled.contains(rule_name(id)) && rule_check(
            id,
            schema,
            convention,
            threshold,
            timestamps,
        ).contains(x)),
{
    lemma_lint_upto_members(10, schema, disabled, convention, threshold, timestamps, x);
    if lint_spec(schema, disabled, convention, threshold, timestamps).contains(x) {
        let j = choose|j: int|
            1 <= j <= 10 && #[trigger] enabled_rule(
                j,
                schema,
                disabled,
                convention,
                threshold,
                timestamps,
            ).contains(x);
        let r = rule_check(j, schema, convention, threshold, timestamps);
        assert(r.contains(x));
        lemma_rule_check_named(j, schema, convention, threshold, timestamps);
        let k = choose|k: int| 0 <= k < r.len() && r[k] == x;
        assert(x.rule == rule_name(j));
        lemma_rule_names_distinct(id, j);
    }
    if !disabled.contains(rule_name(id)) && rule_check(
        id,
        schema,
        convention,
        threshold,
        timestamps,
    ).contains(x) {
        assert(enabled_rule(id, schema, disabled, convention, threshold, timestamps).contains(x));
    }
}


/// The warning that table `tn` has no primary key.
pub open spec fn missing_pk_warning(tn: Seq<char>) -> LintWarningV {
    LintWarningV {
        rule: "missing-primary-key"@,
        severity: Severity::Error,
        message: "table '"@ + tn + "' has no primary key"@,
        table: Some(tn),
        column: None,
    }
}

/// Lint, unless the rule is disabled, reports every table without a primary
/// key, and every `missing-primary-key` warning it reports names a table
/// without one.
pub proof fn lemma_missing_pk_reported(
    schema: SchemaV,
    disabled: Seq<Seq<char>>,
    convention: Seq<char>,
    threshold: usize,
    timestamps: bool,
)
    ensures
        !disabled.contains("missing-primary-key"@) ==> forall|i: int|
            0 <= i < schema.tables.len() && (#[trigger] schema.tables[i]).primary_key is None
                ==> lint_spec(schema, disabled, convention, threshold, timestamps).contains(
                missing_pk_warning(schema.tables[i].name),
            ),
        forall|x: LintWarningV|
            #[trigger] lint_spec(schema, disabled, convention, threshold, timestamps).contains(x)
                && x.rule == "missing-primary-key"@ ==> exists|i: int|
                0 <= i < schema.tables.len() && (#[trigger] schema.tables[i]).primary_key is None
                    && x == missing_pk_warning(schema.tables[i].name),
{
    let ts = schema.tables;
    assert(rule_check(1, schema, convention, threshold, timestamps) == per_tables(1, ts, seq![]));
    if !disabled.contains("missing-primary-key"@) {
        assert forall|i: int|
            0 <= i < ts.len() && (#[trigger] ts[i]).primary_key is None implies lint_spec(
            schema,
            disabled,
            convention,
            threshold,
            timestamps,
        ).contains(missing_pk_warning(ts[i].name)) by {
            let x = missing_pk_warning(ts[i].name);
            assert(table_warnings(1, ts[i], seq![])[0] == x);
            assert(table_warnings(1, ts[i], seq![]).contains(x));
            lemma_per_tables_members(1, ts, seq![], x);
            lemma_lint_rule_members(1, schema, disabled, convention, threshold, timestamps, x);
        }
    }
    assert forall|x: LintWarningV|
        #[trigger] lint_spec(schema, disabled, convention, threshold, timestamps).contains(x)
            && x.rule == "missing-primary-key"@ implies exists|i: int|
        0 <= i < ts.len() && (#[trigger] ts[i]).primary_key is None && x == missing_pk_warning(
            ts[i].name,
        ) by {
        lemma_lint_rule_members(1, schema, disabled, convention, threshold, timestamps, x);
        lemma_per_tables_members(1, ts, seq![], x);
        let i = choose|i: int|
            0 <= i < ts.len() && #[trigger] table_warnings(1, ts[i], seq![]).contains(x);
        assert(table_warnings(1, ts[i], seq![]).len() > 0);
        assert(table_warnings(1, ts[i], seq![])[0] == x);
    }
}

/// The warning that an enum type has more values than the threshold.
pub open spec fn enum_values_warning(e: EnumTypeV, threshold: usize) -> LintWarningV {
    LintWarningV {
        rule: "enum-too-many-values"@,
        severity: Severity::Warning,
        message: "enum '"@ + e.name + "' has "@ + decimal(e.values.len()) + " values (threshold: "@
            + decimal(threshold as nat) + "); consider using a lookup table"@,
        table: None,
        column: None,
    }
}

proof fn lemma_enum_warnings_members(es: Seq<EnumTypeV>, threshold: usize, x: LintWarningV)
    ensures
        enum_warnings(es, threshold).contains(x) <==> exists|i: int|
            0 <= i < es.len() && (#[trigger] es[i]).values.len() > threshold && x
                == enum_values_warning(es[i], threshold),
    decreases es.len(),
{
    if es.len() > 0 {
        let init = es.drop_last();
        lemma_enum_warnings_members(init, threshold, x);
        let e = es.last();
        let b = if e.values.len() > threshold {
            seq![enum_values_warning(e, threshold)]
        } else {
            seq![]
        };
        assert(enum_warnings(es, threshold) == enum_warnings(init, threshold) + b);
        lemma_concat_contains(enum_warnings(init, threshold), b, x);
        if exists|i: int|
            0 <= i < es.len() && (#[trigger] es[i]).values.len() > threshold && x
                == enum_values_warning(es[i], threshold) {
            let i = choose|i: int|
                0 <= i < es.len() && (#[trigger] es[i]).values.len() > threshold && x
                    == enum_values_warning(es[i], threshold);
            if i < init.len() {
                assert(init[i] == es[i]);
            } else {
                assert(b[0] == x);
            }
        }
        if enum_warnings(init, threshold).contains(x) {
            let i = choose|i: int|
                0 <= i < init.len() && (#[trigger] init[i]).values.len() > threshold && x
                    == enum_values_warning(init[i], threshold);
            assert(es[i] == init[i]);
        }
        if b.contains(x) {
            assert(es[es.len() - 1] == e);
        }
    }
}

/// Lint, unless the rule is disabled, reports every enum type with more
/// values than the threshold, and every `enum-too-many-values` warning it
/// reports is about such an enum type.
pub proof fn lemma_enum_values_reported(
    schema: SchemaV,
    disabled: Seq<Seq<char>>,
    convention: Seq<char>,
    threshold: usize,
    timestamps: bool,
)
    ensures
        !disabled.contains("enum-too-many-values"@) ==> forall|i: int|
            0 <= i < schema.enums.len() && (#[trigger] schema.enums[i]).values.len() > threshold
                ==> lint_spec(schema, disabled, convention, threshold, timestamps).contains(
                enum_values_warning(schema.enums[i], threshold),
            ),
        forall|x: LintWarningV|
            #[trigger] lint_spec(schema, disabled, convention, threshold, timestamps).contains(x)
                && x.rule == "enum-too-many-values"@ ==> exists|i: int|
                0 <= i < schema.enums.len() && (#[trigger] schema.enums[i]).values.len()
                    > threshold && x == enum_values_warning(schema.enums[i], threshold),
{
    let es = schema.enums;
    if !disabled.contains("enum-too-many-values"@) {
        assert forall|i: int|
            0 <= i < es.len() && (#[trigger] es[i]).values.len() > threshold implies lint_spec(
            schema,
            disabled,
            convention,
            threshold,
            timestamps,
        ).contains(enum_values_warning(es[i], threshold)) by {
            let x = enum_values_warning(es[i], threshold);
            lemma_enum_warnings_members(es, threshold, x);
            lemma_lint_rule_members(8, schema, disabled, convention, threshold, timestamps, x);
        }
    }
    assert forall|x: LintWarningV|
        #[trigger] lint_spec(schema, disabled, convention, threshold, timestamps).contains(x)
            && x.rule == "enum-too-many-values"@ implies exists|i: int|
        0 <= i < es.len() && (#[trigger] es[i]).values.len() > threshold && x
            == enum_values_warning(es[i], threshold) by {
        lemma_lint_rule_members(8, schema, disabled, convention, threshold, timestamps, x);
        lemma_enum_warnings_members(es, threshold, x);
    }
}


/// The warning that a foreign key of table `tn` has no explicit ON DELETE
/// action.
pub open spec fn fk_no_action_warning(tn: Seq<char>, f: ForeignKeyV) -> LintWarningV {
    LintWarningV {
        rule: "fk-no-action"@,
        severity: Severity::Warning,
        message: "foreign key '"@ + match f.name {
            Some(n) => n,
            None => join(f.columns, ","@),
        } + "' on table '"@ + tn + "' has no explicit ON DELETE action (defaults to NO ACTION)"@,
        table: Some(tn),
        column: None,
    }
}

proof fn lemma_fk_no_action_members(tn: Seq<char>, fks: Seq<ForeignKeyV>, x: LintWarningV)
    ensures
        fk_no_action_warnings(tn, fks).contains(x) <==> exists|j: int|
            0 <= j < fks.len() && (#[trigger] fks[j]).on_delete == ForeignKeyAction::NoAction && x
                == fk_no_action_warning(tn, fks[j]),
    decreases fks.len(),
{
    if fks.len() > 0 {
        let init = fks.drop_last();
        lemma_fk_no_action_members(tn, init, x);
        let f = fks.last();
        let b = if f.on_delete == ForeignKeyAction::NoAction {
            seq![fk_no_action_warning(tn, f)]
        } else {
            seq![]
        };
        assert(fk_no_action_warnings(tn, fks) == fk_no_action_warnings(tn, init) + b);
        lemma_concat_contains(fk_no_action_warnings(tn, init), b, x);
        if exists|j: int|
            0 <= j < fks.len() && (#[trigger] fks[j]).on_delete == ForeignKeyAction::NoAction && x
                == fk_no_action_warning(tn, fks[j]) {
            let j = choose|j: int|
                0 <= j < fks.len() && (#[trigger] fks[j]).on_delete == ForeignKeyAction::NoAction
                    && x == fk_no_action_warning(tn, fks[j]);
            if j < init.len() {
                assert(init[j] == fks[j]);
            } else {
                assert(b[0] == x);
            }
        }
        if fk_no_action_warnings(tn, init).contains(x) {
            let j = choose|j: int|
                0 <= j < init.len() && (#[trigger] init[j]).on_delete == ForeignKeyAction::NoAction
                    && x == fk_no_action_warning(tn, init[j]);
            assert(fks[j] == init[j]);
        }
        if b.contains(x) {
            assert(fks[fks.len() - 1] == f);
        }
    }
}

/// Lint, unless the rule is disabled, reports every foreign key whose ON
/// DELETE action is left at NO ACTION, under its table, and every
/// `fk-no-action` warning it reports is about such a foreign key.
pub proof fn lemma_fk_no_action_reported(
    schema: SchemaV,
    disabled: Seq<Seq<char>>,
    convention: Seq<char>,
    threshold: usize,
    timestamps: bool,
)
    ensures
        !disabled.contains("fk-no-action"@) ==> forall|i: int, j: int|
            0 <= i < schema.tables.len() && 0 <= j < schema.tables[i].foreign_keys.len() && (
            #[trigger] schema.tables[i].foreign_keys[j]).on_delete == ForeignKeyAction::NoAction
                ==> lint_spec(schema, disabled, convention, threshold, timestamps).contains(
                fk_no_action_warning(schema.tables[i].name, schema.tables[i].foreign_keys[j]),
            ),
        forall|x: LintWarningV|
            #[trigger] lint_spec(schema, disabled, convention, threshold, timestamps).contains(x)
                && x.rule == "fk-no-action"@ ==> exists|i: int, j: int|
                0 <= i < schema.tables.len() && 0 <= j < schema.tables[i].foreign_keys.len() && (
                #[trigger] schema.tables[i].foreign_keys[j]).on_delete
                    == ForeignKeyAction::NoAction && x == fk_no_action_warning(
                    schema.tables[i].name,
                    schema.tables[i].foreign_keys[j],
                ),
{
    let ts = schema.tables;
    assert(rule_check(5, schema, convention, threshold, timestamps) == per_tables(5, ts, seq![]));
    if !disabled.contains("fk-no-action"@) {
        assert forall|i: int, j: int|
            0 <= i < ts.len() && 0 <= j < ts[i].foreign_keys.len() && (
            #[trigger] ts[i].foreign_keys[j]).on_delete == ForeignKeyAction::NoAction implies lint_spec(
            schema,
            disabled,
            convention,
            threshold,
            timestamps,
        ).contains(fk_no_action_warning(ts[i].name, ts[i].foreign_keys[j])) by {
            let x = fk_no_action_warning(ts[i].name, ts[i].foreign_keys[j]);
            lemma_fk_no_action_members(ts[i].name, ts[i].foreign_keys, x);
            assert(table_warnings(5, ts[i], seq![]).contains(x));
            lemma_per_tables_members(5, ts, seq![], x);
            lemma_lint_rule_members(5, schema, disabled, convention, threshold, timestamps, x);
        }
    }
    assert forall|x: LintWarningV|
        #[trigger] lint_spec(schema, disabled, convention, threshold, timestamps).contains(x)
            && x.rule == "fk-no-action"@ implies exists|i: int, j: int|
        0 <= i < ts.len() && 0 <= j < ts[i].foreign_keys.len() && (
        #[trigger] ts[i].foreign_keys[j]).on_delete == ForeignKeyAction::NoAction && x
            == fk_no_action_warning(ts[i].name, ts[i].foreign_keys[j]) by {
        lemma_lint_rule_members(5, schema, disabled, convention, threshold, timestamps, x);
        lemma_per_tables_members(5, ts, seq![], x);
        let i = choose|i: int|
            0 <= i < ts.len() && #[trigger] table_warnings(5, ts[i], seq![]).contains(x);
        lemma_fk_no_action_members(ts[i].name, ts[i].foreign_keys, x);
        let j = choose|j: int|
            0 <= j < ts[i].foreign_keys.len() && (#[trigger] ts[i].foreign_keys[j]).on_delete
                == ForeignKeyAction::NoAction && x == fk_no_action_warning(
                ts[i].name,
                ts[i].foreign_keys[j],
            );
    }
}


proof fn lemma_has_column(cs: Seq<ColumnV>, name: Seq<char>)
    ensures
        column_pos(cs, name) is Some <==> exists|k: int| 0 <= k < cs.len() && #[trigger] cs[k].name
            == name,
{
    let h = crate::schema::column_hits(cs, name);
    crate::text::lemma_first_true_from(h, 0);
    if exists|k: int| 0 <= k < cs.len() && #[trigger] cs[k].name == name {
        let k = choose|k: int| 0 <= k < cs.len() && #[trigger] cs[k].name == name;
        assert(h[k]);
    }
}

/// The warning that table `tn` lacks a `created_at` column.
pub open spec fn missing_created_warning(tn: Seq<char>) -> LintWarningV {
    LintWarningV {
        rule: "missing-timestamps"@,
        severity: Severity::Info,
        message: "table '"@ + tn + "' is missing a 'created_at' column"@,
        table: Some(tn),
        column: None,
    }
}

/// The warning that table `tn` lacks an `updated_at` column.
pub open spec fn missing_updated_warning(tn: Seq<char>) -> LintWarningV {
    LintWarningV {
        rule: "missing-timestamps"@,
        severity: Severity::Info,
        message: "table '"@ + tn + "' is missing an 'updated_at' column"@,
        table: Some(tn),
        column: None,
    }
}

/// With the timestamp check on and its rule not disabled, lint reports every
/// table that has no `created_at` column and every table that has no
/// `updated_at` column; every `missing-timestamps` warning it reports is one
/// of these, and with the check off it reports none.
pub proof fn lemma_timestamps_reported(
    schema: SchemaV,
    disabled: Seq<Seq<char>>,
    convention: Seq<char>,
    threshold: usize,
    timestamps: bool,
)
    ensures
        timestamps && !disabled.contains("missing-timestamps"@) ==> forall|i: int|
            0 <= i < schema.tables.len() ==> ((forall|k: int|
                0 <= k < (#[trigger] schema.tables[i]).columns.len()
                    ==> schema.tables[i].columns[k].name != "created_at"@) ==> lint_spec(
                schema,
                disabled,
                convention,
                threshold,
                timestamps,
            ).contains(missing_created_warning(schema.tables[i].name))) && ((forall|k: int|
                0 <= k < schema.tables[i].columns.len() ==> schema.tables[i].columns[k].name
                    != "updated_at"@) ==> lint_spec(
                schema,
                disabled,
                convention,
                threshold,
                timestamps,
            ).contains(missing_updated_warning(schema.tables[i].name))),
        forall|x: LintWarningV|
            #[trigger] lint_spec(schema, disabled, convention, threshold, timestamps).contains(x)
                && x.rule == "missing-timestamps"@ ==> timestamps && exists|i: int|
                0 <= i < schema.tables.len() && ((x == missing_created_warning(
                    (#[trigger] schema.tables[i]).name,
                ) && forall|k: int|
                    0 <= k < schema.tables[i].columns.len() ==> schema.tables[i].columns[k].name
                        != "created_at"@) || (x == missing_updated_warning(schema.tables[i].name)
                    && forall|k: int|
                    0 <= k < schema.tables[i].columns.len() ==> schema.tables[i].columns[k].name
                        != "updated_at"@)),
{
    let ts = schema.tables;
    if timestamps {
        assert(rule_check(9, schema, convention, threshold, timestamps) == per_tables(
            9,
            ts,
            seq![],
        ));
    }
    if timestamps && !disabled.contains("missing-timestamps"@) {
        assert forall|i: int| 0 <= i < ts.len() implies ((forall|k: int|
            0 <= k < (#[trigger] ts[i]).columns.len() ==> ts[i].columns[k].name != "created_at"@)
            ==> lint_spec(schema, disabled, convention, threshold, timestamps).contains(
            missing_created_warning(ts[i].name),
        )) && ((forall|k: int|
            0 <= k < ts[i].columns.len() ==> ts[i].columns[k].name != "updated_at"@) ==> lint_spec(
            schema,
            disabled,
            convention,
            threshold,
            timestamps,
        ).contains(missing_updated_warning(ts[i].name))) by {
            lemma_has_column(ts[i].columns, "created_at"@);
            lemma_has_column(ts[i].columns, "updated_at"@);
            let w = table_warnings(9, ts[i], seq![]);
            if forall|k: int|
                0 <= k < ts[i].columns.len() ==> ts[i].columns[k].name != "created_at"@ {
                let x = missing_created_warning(ts[i].name);
                assert(w[0] == x);
                assert(w.contains(x));
                lemma_per_tables_members(9, ts, seq![], x);
                lemma_lint_rule_members(9, schema, disabled, convention, threshold, timestamps, x);
            }
            if forall|k: int|
                0 <= k < ts[i].columns.len() ==> ts[i].columns[k].name != "updated_at"@ {
                let x = missing_updated_warning(ts[i].name);
                assert(w[w.len() - 1] == x);
                assert(w.contains(x));
                lemma_per_tables_members(9, ts, seq![], x);
                lemma_lint_rule_members(9, schema, disabled, convention, threshold, timestamps, x);
            }
        }
    }
    assert forall|x: LintWarningV|
        #[trigger] lint_spec(schema, disabled, convention, threshold, timestamps).contains(x)
            && x.rule == "missing-timestamps"@ implies timestamps && exists|i: int|
        0 <= i < ts.len() && ((x == missing_created_warning((#[trigger] ts[i]).name) && forall|
            k: int,
        | 0 <= k < ts[i].columns.len() ==> ts[i].columns[k].name != "created_at"@) || (x
            == missing_updated_warning(ts[i].name) && forall|k: int|
            0 <= k < ts[i].columns.len() ==> ts[i].columns[k].name != "updated_at"@)) by {
        lemma_lint_rule_members(9, schema, disabled, convention, threshold, timestamps, x);
        assert(timestamps);
        lemma_per_tables_members(9, ts, seq![], x);
        let i = choose|i: int|
            0 <= i < ts.len() && #[trigger] table_warnings(9, ts[i], seq![]).contains(x);
        lemma_has_column(ts[i].columns, "created_at"@);
        lemma_has_column(ts[i].columns, "updated_at"@);
        let w = table_warnings(9, ts[i], seq![]);
        let j = choose|j: int| 0 <= j < w.len() && w[j] == x;
        if column_pos(ts[i].columns, "created_at"@) is None && j == 0 {
            assert(x == missing_created_warning(ts[i].name));
        } else {
            assert(x == missing_updated_warning(ts[i].name));
            assert(column_pos(ts[i].columns, "updated_at"@) is None);
        }
    }
}


/// The warning that index `ix` of table `tn` covers one boolean column.
pub open spec fn boolean_index_warning(tn: Seq<char>, ix: IndexV) -> LintWarningV {
    LintWarningV {
        rule: "boolean-index"@,
        severity: Severity::Info,
        message: "index '"@ + index_label(ix.name) + "' on table '"@ + tn
            + "' indexes boolean column '"@ + ix.columns[0] + "'; consider a partial index instead"@,
        table: Some(tn),
        column: Some(ix.columns[0]),
    }
}

proof fn lemma_boolean_index_members(t: TableV, ixs: Seq<IndexV>, x: LintWarningV)
    ensures
        boolean_index_warnings(t, ixs).contains(x) <==> exists|j: int|
            0 <= j < ixs.len() && ixs[j].columns.len() == 1 && ixs[j].predicate is None && (exists|c: int|
                0 <= c < t.columns.len() && t.columns[c].data_type is Boolean && t.columns[c].name
                    == ixs[j].columns[0]) && x == boolean_index_warning(t.name, #[trigger] ixs[j]),
    decreases ixs.len(),
{
    if ixs.len() > 0 {
        let init = ixs.drop_last();
        lemma_boolean_index_members(t, init, x);
        let ix = ixs.last();
        let b = if ix.columns.len() == 1 && ix.predicate is None && has_bool_column(
            t.columns,
            ix.columns[0],
        ) {
            seq![boolean_index_warning(t.name, ix)]
        } else {
            seq![]
        };
        assert(boolean_index_warnings(t, ixs) == boolean_index_warnings(t, init) + b);
        lemma_concat_contains(boolean_index_warnings(t, init), b, x);
        if exists|j: int|
            0 <= j < ixs.len() && ixs[j].columns.len() == 1 && ixs[j].predicate is None && (exists|c: int|
                0 <= c < t.columns.len() && t.columns[c].data_type is Boolean && t.columns[c].name
                    == ixs[j].columns[0]) && x == boolean_index_warning(t.name, #[trigger] ixs[j]) {
            let j = choose|j: int|
                0 <= j < ixs.len() && ixs[j].columns.len() == 1 && ixs[j].predicate is None && (exists|c: int|
                0 <= c < t.columns.len() && t.columns[c].data_type is Boolean && t.columns[c].name
                    == ixs[j].columns[0]) && x == boolean_index_warning(t.name, #[trigger] ixs[j]);
            if j < init.len() {
                assert(init[j] == ixs[j]);
            } else {
                assert(ixs[j] == ix);
                assert(b[0] == x);
            }
        }
        if boolean_index_warnings(t, init).contains(x) {
            let j = choose|j: int|
                0 <= j < init.len() && init[j].columns.len() == 1 && init[j].predicate is None && (exists|c: int|
                0 <= c < t.columns.len() && t.columns[c].data_type is Boolean && t.columns[c].name
                    == init[j].columns[0]) && x == boolean_index_warning(t.name, #[trigger] init[j]);
            assert(ixs[j] == init[j]);
        }
        if b.contains(x) {
            assert(ixs[ixs.len() - 1] == ix);
        }
    }
}

/// Lint, unless the rule is disabled, reports every index without a
/// predicate on exactly one column where that column is boolean, and every
/// `boolean-index` warning it reports is about such an index.
pub proof fn lemma_boolean_index_reported(
    schema: SchemaV,
    disabled: Seq<Seq<char>>,
    convention: Seq<char>,
    threshold: usize,
    timestamps: bool,
)
    ensures
        !disabled.contains("boolean-index"@) ==> forall|i: int, j: int|
            0 <= i < schema.tables.len() && 0 <= j < schema.tables[i].indexes.len() && schema.tables[i].indexes[j].columns.len() == 1 && schema.tables[i].indexes[j].predicate is None && (exists|c: int|
                0 <= c < schema.tables[i].columns.len() && schema.tables[i].columns[c].data_type is Boolean && schema.tables[i].columns[c].name
                    == schema.tables[i].indexes[j].columns[0]) ==> lint_spec(
                schema,
                disabled,
                convention,
                threshold,
                timestamps,
            ).contains(
                boolean_index_warning(schema.tables[i].name, #[trigger] schema.tables[i].indexes[j]),
            ),
        forall|x: LintWarningV|
            #[trigger] lint_spec(schema, disabled, convention, threshold, timestamps).contains(x)
                && x.rule == "boolean-index"@ ==> exists|i: int, j: int|
                0 <= i < schema.tables.len() && 0 <= j < schema.tables[i].indexes.len() && schema.tables[i].indexes[j].columns.len() == 1 && schema.tables[i].indexes[j].predicate is None && (exists|c: int|
                0 <= c < schema.tables[i].columns.len() && schema.tables[i].columns[c].data_type is Boolean && schema.tables[i].columns[c].name
                    == schema.tables[i].indexes[j].columns[0]) && x
                    == boolean_index_warning(
                    schema.tables[i].name,
                    #[trigger] schema.tables[i].indexes[j],
                ),
{
    let ts = schema.tables;
    assert(rule_check(10, schema, convention, threshold, timestamps) == per_tables(10, ts, seq![]));
    if !disabled.contains("boolean-index"@) {
        assert forall|i: int, j: int|
            0 <= i < ts.len() && 0 <= j < ts[i].indexes.len() && ts[i].indexes[j].columns.len() == 1 && ts[i].indexes[j].predicate is None && (exists|c: int|
                0 <= c < ts[i].columns.len() && ts[i].columns[c].data_type is Boolean && ts[i].columns[c].name
                    == ts[i].indexes[j].columns[0]) implies lint_spec(
            schema,
            disabled,
            convention,
            threshold,
            timestamps,
        ).contains(boolean_index_warning(ts[i].name, #[trigger] ts[i].indexes[j])) by {
            let x = boolean_index_warning(ts[i].name, ts[i].indexes[j]);
            lemma_boolean_index_members(ts[i], ts[i].indexes, x);
            assert(table_warnings(10, ts[i], seq![]).contains(x));
            lemma_per_tables_members(10, ts, seq![], x);
            lemma_lint_rule_members(10, schema, disabled, convention, threshold, timestamps, x);
        }
    }
    assert forall|x: LintWarningV|
        #[trigger] lint_spec(schema, disabled, convention, threshold, timestamps).contains(x)
            && x.rule == "boolean-index"@ implies exists|i: int, j: int|
        0 <= i < ts.len() && 0 <= j < ts[i].indexes.len() && ts[i].indexes[j].columns.len() == 1 && ts[i].indexes[j].predicate is None && (exists|c: int|
                0 <= c < ts[i].columns.len() && ts[i].columns[c].data_type is Boolean && ts[i].columns[c].name
                    == ts[i].indexes[j].columns[0]) && x == boolean_index_warning(
            ts[i].name,
            #[trigger] ts[i].indexes[j],
        ) by {
        lemma_lint_rule_members(10, schema, disabled, convention, threshold, timestamps, x);
        lemma_per_tables_members(10, ts, seq![], x);
        let i = choose|i: int|
            0 <= i < ts.len() && #[trigger] table_warnings(10, ts[i], seq![]).contains(x);
        lemma_boolean_index_members(ts[i], ts[i].indexes, x);
        let j = choose|j: int|
            0 <= j < ts[i].indexes.len() && ts[i].indexes[j].columns.len() == 1 && ts[i].indexes[j].predicate is None && (exists|c: int|
                0 <= c < ts[i].columns.len() && ts[i].columns[c].data_type is Boolean && ts[i].columns[c].name
                    == ts[i].indexes[j].columns[0]) && x == boolean_index_warning(
                ts[i].name,
                #[trigger] ts[i].indexes[j],
            );
    }
}


proof fn lemma_index_columns_contains(ixs: Seq<IndexV>, c: Seq<char>)
    ensures
        index_columns(ixs).contains(c) <==> exists|m: int|
            0 <= m < ixs.len() && #[trigger] ixs[m].columns.contains(c),
    decreases ixs.len(),
{
    if ixs.len() > 0 {
        let init = ixs.drop_last();
        lemma_index_columns_contains(init, c);
        lemma_concat_contains(index_columns(init), ixs.last().columns, c);
        if exists|m: int| 0 <= m < ixs.len() && #[trigger] ixs[m].columns.contains(c) {
            let m = choose|m: int| 0 <= m < ixs.len() && #[trigger] ixs[m].columns.contains(c);
            if m < init.len() {
                assert(init[m] == ixs[m]);
            }
        }
        if index_columns(init).contains(c) {
            let m = choose|m: int| 0 <= m < init.len() && #[trigger] init[m].columns.contains(c);
            assert(ixs[m] == init[m]);
        }
        if ixs.last().columns.contains(c) {
            assert(ixs[ixs.len() - 1] == ixs.last());
        }
    }
}

/// The columns that count as indexed for a table: those of its primary key
/// and of its indexes.
proof fn lemma_indexed_set(t: TableV, c: Seq<char>)
    ensures
        dedup(key_and_index_columns(t)).contains(c) <==> ((t.primary_key matches Some(pk) && pk.columns.contains(c)) || exists|m: int|
                0 <= m < t.indexes.len() && #[trigger] t.indexes[m].columns.contains(c)),
{
    lemma_dedup(key_and_index_columns(t));
    let pkc = match t.primary_key {
        Some(pk) => pk.columns,
        None => seq![],
    };
    lemma_concat_contains(pkc, index_columns(t.indexes), c);
    lemma_index_columns_contains(t.indexes, c);
}

/// The warning that column `c` of table `tn` is in a foreign key but not
/// indexed.
pub open spec fn missing_fk_index_warning(tn: Seq<char>, c: Seq<char>) -> LintWarningV {
    LintWarningV {
        rule: "missing-fk-index"@,
        severity: Severity::Warning,
        message: "column '"@ + tn + "."@ + c + "' is a foreign key but has no index"@,
        table: Some(tn),
        column: Some(c),
    }
}

proof fn lemma_fk_col_members(tn: Seq<char>, indexed: Seq<Seq<char>>, cols: Seq<Seq<char>>, x: LintWarningV)
    ensures
        fk_col_warnings(tn, indexed, cols).contains(x) <==> exists|k: int|
            0 <= k < cols.len() && !indexed.contains(#[trigger] cols[k]) && x
                == missing_fk_index_warning(tn, cols[k]),
    decreases cols.len(),
{
    if cols.len() > 0 {
        let init = cols.drop_last();
        lemma_fk_col_members(tn, indexed, init, x);
        let c = cols.last();
        let b = if indexed.contains(c) {
            seq![]
        } else {
            seq![missing_fk_index_warning(tn, c)]
        };
        assert(fk_col_warnings(tn, indexed, cols) == fk_col_warnings(tn, indexed, init) + b);
        lemma_concat_contains(fk_col_warnings(tn, indexed, init), b, x);
        if exists|k: int|
            0 <= k < cols.len() && !indexed.contains(#[trigger] cols[k]) && x
                == missing_fk_index_warning(tn, cols[k]) {
            let k = choose|k: int|
                0 <= k < cols.len() && !indexed.contains(#[trigger] cols[k]) && x
                    == missing_fk_index_warning(tn, cols[k]);
            if k < init.len() {
                assert(init[k] == cols[k]);
            } else {
                assert(b[0] == x);
            }
        }
        if fk_col_warnings(tn, indexed, init).contains(x) {
            let k = choose|k: int|
                0 <= k < init.len() && !indexed.contains(#[trigger] init[k]) && x
                    == missing_fk_index_warning(tn, init[k]);
            assert(cols[k] == init[k]);
        }
        if b.contains(x) {
            assert(cols[cols.len() - 1] == c);
        }
    }
}

proof fn lemma_fk_index_members(t: TableV, indexed: Seq<Seq<char>>, fks: Seq<ForeignKeyV>, x: LintWarningV)
    ensures
        fk_index_warnings(t, indexed, fks).contains(x) <==> exists|f: int, k: int|
            0 <= f < fks.len() && 0 <= k < fks[f].columns.len() && !indexed.contains(
                #[trigger] fks[f].columns[k],
            ) && x == missing_fk_index_warning(t.name, fks[f].columns[k]),
    decreases fks.len(),
{
    if fks.len() > 0 {
        let init = fks.drop_last();
        lemma_fk_index_members(t, indexed, init, x);
        let fk = fks.last();
        lemma_fk_col_members(t.name, indexed, fk.columns, x);
        lemma_concat_contains(
            fk_index_warnings(t, indexed, init),
            fk_col_warnings(t.name, indexed, fk.columns),
            x,
        );
        if exists|f: int, k: int|
            0 <= f < fks.len() && 0 <= k < fks[f].columns.len() && !indexed.contains(
                #[trigger] fks[f].columns[k],
            ) && x == missing_fk_index_warning(t.name, fks[f].columns[k]) {
            let (f, k) = choose|f: int, k: int|
                0 <= f < fks.len() && 0 <= k < fks[f].columns.len() && !indexed.contains(
                    #[trigger] fks[f].columns[k],
                ) && x == missing_fk_index_warning(t.name, fks[f].columns[k]);
            if f < init.len() {
                assert(init[f] == fks[f]);
                assert(init[f].columns[k] == fks[f].columns[k]);
            } else {
                assert(fks[f] == fk);
                assert(fk.columns[k] == fks[f].columns[k]);
            }
        }
        if fk_index_warnings(t, indexed, init).contains(x) {
            let (f, k) = choose|f: int, k: int|
                0 <= f < init.len() && 0 <= k < init[f].columns.len() && !indexed.contains(
                    #[trigger] init[f].columns[k],
                ) && x == missing_fk_index_warning(t.name, init[f].columns[k]);
            assert(fks[f] == init[f]);
        }
        if fk_col_warnings(t.name, indexed, fk.columns).contains(x) {
            let k = choose|k: int|
                0 <= k < fk.columns.len() && !indexed.contains(#[trigger] fk.columns[k]) && x
                    == missing_fk_index_warning(t.name, fk.columns[k]);
            assert(fks[fks.len() - 1] == fk);
            assert(fks[fks.len() - 1].columns[k] == fk.columns[k]);
        }
    }
}

/// Lint, unless the rule is disabled, reports every column of a foreign key
/// that is neither in the table's primary key nor in any of its indexes, and
/// every `missing-fk-index` warning it reports is about such a column.
pub proof fn lemma_missing_fk_index_reported(
    schema: SchemaV,
    disabled: Seq<Seq<char>>,
    convention: Seq<char>,
    threshold: usize,
    timestamps: bool,
)
    ensures
        !disabled.contains("missing-fk-index"@) ==> forall|i: int, f: int, k: int|
            0 <= i < schema.tables.len() && 0 <= f < schema.tables[i].foreign_keys.len() && 0 <= k
                < schema.tables[i].foreign_keys[f].columns.len() && !((schema.tables[i].primary_key matches Some(pk) && pk.columns.contains(schema.tables[i].foreign_keys[f].columns[k])) || exists|m: int|
                0 <= m < schema.tables[i].indexes.len() && #[trigger] schema.tables[i].indexes[m].columns.contains(schema.tables[i].foreign_keys[f].columns[k])) ==> lint_spec(
                schema,
                disabled,
                convention,
                threshold,
                timestamps,
            ).contains(
                missing_fk_index_warning(
                    schema.tables[i].name,
                    #[trigger] schema.tables[i].foreign_keys[f].columns[k],
                ),
            ),
        forall|x: LintWarningV|
            #[trigger] lint_spec(schema, disabled, convention, threshold, timestamps).contains(x)
                && x.rule == "missing-fk-index"@ ==> exists|i: int, f: int, k: int|
                0 <= i < schema.tables.len() && 0 <= f < schema.tables[i].foreign_keys.len() && 0
                    <= k < schema.tables[i].foreign_keys[f].columns.len() && !((schema.tables[i].primary_key matches Some(pk) && pk.columns.contains(schema.tables[i].foreign_keys[f].columns[k])) || exists|m: int|
                0 <= m < schema.tables[i].indexes.len() && #[trigger] schema.tables[i].indexes[m].columns.contains(schema.tables[i].foreign_keys[f].columns[k])) && x
                    == missing_fk_index_warning(
                    schema.tables[i].name,
                    #[trigger] schema.tables[i].foreign_keys[f].columns[k],
                ),
{
    let ts = schema.tables;
    assert(rule_check(2, schema, convention, threshold, timestamps) == per_tables(2, ts, seq![]));
    if !disabled.contains("missing-fk-index"@) {
        assert forall|i: int, f: int, k: int|
            0 <= i < ts.len() && 0 <= f < ts[i].foreign_keys.len() && 0 <= k
                < ts[i].foreign_keys[f].columns.len() && !((ts[i].primary_key matches Some(pk) && pk.columns.contains(ts[i].foreign_keys[f].columns[k])) || exists|m: int|
                0 <= m < ts[i].indexes.len() && #[trigger] ts[i].indexes[m].columns.contains(ts[i].foreign_keys[f].columns[k])) implies lint_spec(
            schema,
            disabled,
            convention,
            threshold,
            timestamps,
        ).contains(
            missing_fk_index_warning(ts[i].name, #[trigger] ts[i].foreign_keys[f].columns[k]),
        ) by {
            let c = ts[i].foreign_keys[f].columns[k];
            let x = missing_fk_index_warning(ts[i].name, c);
            lemma_indexed_set(ts[i], c);
            let ind = dedup(key_and_index_columns(ts[i]));
            lemma_fk_index_members(ts[i], ind, ts[i].foreign_keys, x);
            assert(table_warnings(2, ts[i], seq![]).contains(x));
            lemma_per_tables_members(2, ts, seq![], x);
            lemma_lint_rule_members(2, schema, disabled, convention, threshold, timestamps, x);
        }
    }
    assert forall|x: LintWarningV|
        #[trigger] lint_spec(schema, disabled, convention, threshold, timestamps).contains(x)
            && x.rule == "missing-fk-index"@ implies exists|i: int, f: int, k: int|
        0 <= i < ts.len() && 0 <= f < ts[i].foreign_keys.len() && 0 <= k
            < ts[i].foreign_keys[f].columns.len() && !((ts[i].primary_key matches Some(pk) && pk.columns.contains(ts[i].foreign_keys[f].columns[k])) || exists|m: int|
                0 <= m < ts[i].indexes.len() && #[trigger] ts[i].indexes[m].columns.contains(ts[i].foreign_keys[f].columns[k])) && x == missing_fk_index_warning(
            ts[i].name,
            #[trigger] ts[i].foreign_keys[f].columns[k],
        ) by {
        lemma_lint_rule_members(2, schema, disabled, convention, threshold, timestamps, x);
        lemma_per_tables_members(2, ts, seq![], x);
        let i = choose|i: int|
            0 <= i < ts.len() && #[trigger] table_warnings(2, ts[i], seq![]).contains(x);
        let ind = dedup(key_and_index_columns(ts[i]));
        lemma_fk_index_members(ts[i], ind, ts[i].foreign_keys, x);
        let (f, k) = choose|f: int, k: int|
            0 <= f < ts[i].foreign_keys.len() && 0 <= k < ts[i].foreign_keys[f].columns.len()
                && !ind.contains(#[trigger] ts[i].foreign_keys[f].columns[k]) && x
                == missing_fk_index_warning(ts[i].name, ts[i].foreign_keys[f].columns[k]);
        lemma_indexed_set(ts[i], ts[i].foreign_keys[f].columns[k]);
    }
}


/// The warning that nullable column `c` of table `tn` is in a unique
/// constraint.
pub open spec fn nullable_unique_warning(tn: Seq<char>, c: Seq<char>) -> LintWarningV {
    LintWarningV {
        rule: "nullable-unique"@,
        severity: Severity::Warning,
        message: "column '"@ + tn + "."@ + c + "' is nullable but part of a unique constraint"@,
        table: Some(tn),
        column: Some(c),
    }
}

proof fn lemma_first_column_named(cs: Seq<ColumnV>, n: Seq<char>)
    ensures
        column_pos(cs, n) matches Some(c) ==> 0 <= c < cs.len() && cs[c].name == n && forall|d: int|
            0 <= d < c ==> cs[d].name != n,
        column_pos(cs, n) is None ==> forall|d: int| 0 <= d < cs.len() ==> cs[d].name != n,
{
    let h = crate::schema::column_hits(cs, n);
    crate::text::lemma_first_true_from(h, 0);
    if column_pos(cs, n) is None {
        assert forall|d: int| 0 <= d < cs.len() implies cs[d].name != n by {
            assert(!h[d]);
        }
    } else {
        let c = column_pos(cs, n)->0;
        assert forall|d: int| 0 <= d < c implies cs[d].name != n by {
            assert(!h[d]);
        }
    }
}

/// Whether the first column of `t` named `n` is nullable.
proof fn lemma_nullable_named(t: TableV, n: Seq<char>)
    ensures
        (match column_pos(t.columns, n) {
            Some(k) => t.columns[k].nullable,
            None => false,
        }) <==> (exists|c: int|
                0 <= c < t.columns.len() && t.columns[c].name == n && t.columns[c].nullable
                    && forall|d: int| 0 <= d < c ==> t.columns[d].name != n),
{
    lemma_first_column_named(t.columns, n);
    if (exists|c: int|
                0 <= c < t.columns.len() && t.columns[c].name == n && t.columns[c].nullable
                    && forall|d: int| 0 <= d < c ==> t.columns[d].name != n) {
        let c = choose|c: int|
            0 <= c < t.columns.len() && t.columns[c].name == n && t.columns[c].nullable && forall|
                d: int,
            | 0 <= d < c ==> t.columns[d].name != n;
        match column_pos(t.columns, n) {
            Some(k) => {
                if k < c {
                } else if c < k {
                }
            },
            None => {
                assert(t.columns[c].name != n);
            },
        }
    }
}

proof fn lemma_nullable_col_members(t: TableV, names: Seq<Seq<char>>, x: LintWarningV)
    ensures
        nullable_col_warnings(t, names).contains(x) <==> exists|k: int|
            0 <= k < names.len() && (exists|c: int|
                0 <= c < t.columns.len() && t.columns[c].name == names[k] && t.columns[c].nullable
                    && forall|d: int| 0 <= d < c ==> t.columns[d].name != names[k]) && x == nullable_unique_warning(t.name, #[trigger] names[k]),
    decreases names.len(),
{
    if names.len() > 0 {
        let init = names.drop_last();
        lemma_nullable_col_members(t, init, x);
        let n = names.last();
        lemma_nullable_named(t, n);
        let b = match column_pos(t.columns, n) {
            Some(k) => if t.columns[k].nullable {
                seq![nullable_unique_warning(t.name, n)]
            } else {
                seq![]
            },
            None => seq![],
        };
        assert(nullable_col_warnings(t, names) == nullable_col_warnings(t, init) + b);
        lemma_concat_contains(nullable_col_warnings(t, init), b, x);
        if exists|k: int|
            0 <= k < names.len() && (exists|c: int|
                0 <= c < t.columns.len() && t.columns[c].name == names[k] && t.columns[c].nullable
                    && forall|d: int| 0 <= d < c ==> t.columns[d].name != names[k]) && x == nullable_unique_warning(t.name, #[trigger] names[k]) {
            let k = choose|k: int|
                0 <= k < names.len() && (exists|c: int|
                0 <= c < t.columns.len() && t.columns[c].name == names[k] && t.columns[c].nullable
                    && forall|d: int| 0 <= d < c ==> t.columns[d].name != names[k]) && x == nullable_unique_warning(
                    t.name,
                    #[trigger] names[k],
                );
            if k < init.len() {
                assert(init[k] == names[k]);
            } else {
                assert(names[k] == n);
                assert(b[0] == x);
            }
        }
        if nullable_col_warnings(t, init).contains(x) {
            let k = choose|k: int|
                0 <= k < init.len() && (exists|c: int|
                0 <= c < t.columns.len() && t.columns[c].name == init[k] && t.columns[c].nullable
                    && forall|d: int| 0 <= d < c ==> t.columns[d].name != init[k]) && x == nullable_unique_warning(
                    t.name,
                    #[trigger] init[k],
                );
            assert(names[k] == init[k]);
        }
        if b.contains(x) {
            assert(names[names.len() - 1] == n);
        }
    }
}

proof fn lemma_nullable_unique_members(t: TableV, ucs: Seq<UniqueConstraintV>, x: LintWarningV)
    ensures
        nullable_unique_warnings(t, ucs).contains(x) <==> exists|u: int, k: int|
            0 <= u < ucs.len() && 0 <= k < ucs[u].columns.len() && (exists|c: int|
                0 <= c < t.columns.len() && t.columns[c].name == ucs[u].columns[k] && t.columns[c].nullable
                    && forall|d: int| 0 <= d < c ==> t.columns[d].name != ucs[u].columns[k]) && x
                == nullable_unique_warning(t.name, #[trigger] ucs[u].columns[k]),
    decreases ucs.len(),
{
    if ucs.len() > 0 {
        let init = ucs.drop_last();
        lemma_nullable_unique_members(t, init, x);
        let uc = ucs.last();
        lemma_nullable_col_members(t, uc.columns, x);
        lemma_concat_contains(nullable_unique_warnings(t, init), nullable_col_warnings(t, uc.columns), x);
        if exists|u: int, k: int|
            0 <= u < ucs.len() && 0 <= k < ucs[u].columns.len() && (exists|c: int|
                0 <= c < t.columns.len() && t.columns[c].name == ucs[u].columns[k] && t.columns[c].nullable
                    && forall|d: int| 0 <= d < c ==> t.columns[d].name != ucs[u].columns[k]) && x
                == nullable_unique_warning(t.name, #[trigger] ucs[u].columns[k]) {
            let (u, k) = choose|u: int, k: int|
                0 <= u < ucs.len() && 0 <= k < ucs[u].columns.len() && (exists|c: int|
                0 <= c < t.columns.len() && t.columns[c].name == ucs[u].columns[k] && t.columns[c].nullable
                    && forall|d: int| 0 <= d < c ==> t.columns[d].name != ucs[u].columns[k]) && x
                    == nullable_unique_warning(t.name, #[trigger] ucs[u].columns[k]);
            if u < init.len() {
                assert(init[u] == ucs[u]);
                assert(init[u].columns[k] == ucs[u].columns[k]);
            } else {
                assert(ucs[u] == uc);
                assert(uc.columns[k] == ucs[u].columns[k]);
            }
        }
        if nullable_unique_warnings(t, init).contains(x) {
            let (u, k) = choose|u: int, k: int|
                0 <= u < init.len() && 0 <= k < init[u].columns.len() && (exists|c: int|
                0 <= c < t.columns.len() && t.columns[c].name == init[u].columns[k] && t.columns[c].nullable
                    && forall|d: int| 0 <= d < c ==> t.columns[d].name != init[u].columns[k]) && x
                    == nullable_unique_warning(t.name, #[trigger] init[u].columns[k]);
            assert(ucs[u] == init[u]);
        }
        if nullable_col_warnings(t, uc.columns).contains(x) {
            let k = choose|k: int|
                0 <= k < uc.columns.len() && (exists|c: int|
                0 <= c < t.columns.len() && t.columns[c].name == uc.columns[k] && t.columns[c].nullable
                    && forall|d: int| 0 <= d < c ==> t.columns[d].name != uc.columns[k]) && x == nullable_unique_warning(
                    t.name,
                    #[trigger] uc.columns[k],
                );
            assert(ucs[ucs.len() - 1] == uc);
            assert(ucs[ucs.len() - 1].columns[k] == uc.columns[k]);
        }
    }
}

/// Lint, unless the rule is disabled, reports every column named in a
/// unique constraint whose (first) column of that name is nullable, and
/// every `nullable-unique` warning it reports is about such a column.
pub proof fn lemma_nullable_unique_reported(
    schema: SchemaV,
    disabled: Seq<Seq<char>>,
    convention: Seq<char>,
    threshold: usize,
    timestamps: bool,
)
    ensures
        !disabled.contains("nullable-unique"@) ==> forall|i: int, u: int, k: int|
            0 <= i < schema.tables.len() && 0 <= u < schema.tables[i].unique_constraints.len() && 0
                <= k < schema.tables[i].unique_constraints[u].columns.len() && (exists|c: int|
                0 <= c < schema.tables[i].columns.len() && schema.tables[i].columns[c].name == schema.tables[i].unique_constraints[u].columns[k] && schema.tables[i].columns[c].nullable
                    && forall|d: int| 0 <= d < c ==> schema.tables[i].columns[d].name != schema.tables[i].unique_constraints[u].columns[k]) ==> lint_spec(
                schema,
                disabled,
                convention,
                threshold,
                timestamps,
            ).contains(
                nullable_unique_warning(
                    schema.tables[i].name,
                    #[trigger] schema.tables[i].unique_constraints[u].columns[k],
                ),
            ),
        forall|x: LintWarningV|
            #[trigger] lint_spec(schema, disabled, convention, threshold, timestamps).contains(x)
                && x.rule == "nullable-unique"@ ==> exists|i: int, u: int, k: int|
                0 <= i < schema.tables.len() && 0 <= u < schema.tables[i].unique_constraints.len()
                    && 0 <= k < schema.tables[i].unique_constraints[u].columns.len() && (exists|c: int|
                0 <= c < schema.tables[i].columns.len() && schema.tables[i].columns[c].name == schema.tables[i].unique_constraints[u].columns[k] && schema.tables[i].columns[c].nullable
                    && forall|d: int| 0 <= d < c ==> schema.tables[i].columns[d].name != schema.tables[i].unique_constraints[u].columns[k]) && x
                    == nullable_unique_warning(
                    schema.tables[i].name,
                    #[trigger] schema.tables[i].unique_constraints[u].columns[k],
                ),
{
    let ts = schema.tables;
    assert(rule_check(3, schema, convention, threshold, timestamps) == per_tables(3, ts, seq![]));
    if !disabled.contains("nullable-unique"@) {
        assert forall|i: int, u: int, k: int|
            0 <= i < ts.len() && 0 <= u < ts[i].unique_constraints.len() && 0 <= k
                < ts[i].unique_constraints[u].columns.len() && (exists|c: int|
                0 <= c < ts[i].columns.len() && ts[i].columns[c].name == ts[i].unique_constraints[u].columns[k] && ts[i].columns[c].nullable
                    && forall|d: int| 0 <= d < c ==> ts[i].columns[d].name != ts[i].unique_constraints[u].columns[k]) implies lint_spec(
            schema,
            disabled,
            convention,
            threshold,
            timestamps,
        ).contains(
            nullable_unique_warning(ts[i].name, #[trigger] ts[i].unique_constraints[u].columns[k]),
        ) by {
            let x = nullable_unique_warning(ts[i].name, ts[i].unique_constraints[u].columns[k]);
            lemma_nullable_unique_members(ts[i], ts[i].unique_constraints, x);
            assert(table_warnings(3, ts[i], seq![]).contains(x));
            lemma_per_tables_members(3, ts, seq![], x);
            lemma_lint_rule_members(3, schema, disabled, convention, threshold, timestamps, x);
        }
    }
    assert forall|x: LintWarningV|
        #[trigger] lint_spec(schema, disabled, convention, threshold, timestamps).contains(x)
            && x.rule == "nullable-unique"@ implies exists|i: int, u: int, k: int|
        0 <= i < ts.len() && 0 <= u < ts[i].unique_constraints.len() && 0 <= k
            < ts[i].unique_constraints[u].columns.len() && (exists|c: int|
                0 <= c < ts[i].columns.len() && ts[i].columns[c].name == ts[i].unique_constraints[u].columns[k] && ts[i].columns[c].nullable
                    && forall|d: int| 0 <= d < c ==> ts[i].columns[d].name != ts[i].unique_constraints[u].columns[k]) && x == nullable_unique_warning(
            ts[i].name,
            #[trigger] ts[i].unique_constraints[u].columns[k],
        ) by {
        lemma_lint_rule_members(3, schema, disabled, convention, threshold, timestamps, x);
        lemma_per_tables_members(3, ts, seq![], x);
        let i = choose|i: int|
            0 <= i < ts.len() && #[trigger] table_warnings(3, ts[i], seq![]).contains(x);
        lemma_nullable_unique_members(ts[i], ts[i].unique_constraints, x);
    }
}


/// The warning that indexes `a` and `b` of table `tn` have the same columns.
pub open spec fn duplicate_index_warning(tn: Seq<char>, a: IndexV, b: IndexV) -> LintWarningV {
    LintWarningV {
        rule: "duplicate-index"@,
        severity: Severity::Warning,
        message: "indexes '"@ + index_label(a.name) + "' and '"@ + index_label(b.name)
            + "' on table '"@ + tn + "' have the same columns"@,
        table: Some(tn),
        column: None,
    }
}

proof fn lemma_dup_row_members(tn: Seq<char>, ixs: Seq<IndexV>, i: int, end: int, x: LintWarningV)
    requires
        0 <= i,
        end <= ixs.len(),
    ensures
        dup_row(tn, ixs, i, end).contains(x) <==> exists|j: int|
            i < j < end && ixs[i].columns == #[trigger] ixs[j].columns && x
                == duplicate_index_warning(tn, ixs[i], ixs[j]),
    decreases end - i,
{
    if end > i + 1 {
        lemma_dup_row_members(tn, ixs, i, end - 1, x);
        let b = if ixs[i].columns == ixs[end - 1].columns {
            seq![duplicate_index_warning(tn, ixs[i], ixs[end - 1])]
        } else {
            seq![]
        };
        assert(dup_row(tn, ixs, i, end) == dup_row(tn, ixs, i, end - 1) + b);
        lemma_concat_contains(dup_row(tn, ixs, i, end - 1), b, x);
        if exists|j: int|
            i < j < end && ixs[i].columns == #[trigger] ixs[j].columns && x
                == duplicate_index_warning(tn, ixs[i], ixs[j]) {
            let j = choose|j: int|
                i < j < end && ixs[i].columns == #[trigger] ixs[j].columns && x
                    == duplicate_index_warning(tn, ixs[i], ixs[j]);
            if j == end - 1 {
                assert(b[0] == x);
            }
        }
    }
}

proof fn lemma_duplicate_index_members(tn: Seq<char>, ixs: Seq<IndexV>, n: int, x: LintWarningV)
    requires
        n <= ixs.len(),
    ensures
        duplicate_index_warnings(tn, ixs, n).contains(x) <==> exists|i: int, j: int|
            0 <= i < n && i < j < ixs.len() && #[trigger] ixs[i].columns == #[trigger] ixs[j].columns
                && x == duplicate_index_warning(tn, ixs[i], ixs[j]),
    decreases n,
{
    if n > 0 {
        lemma_duplicate_index_members(tn, ixs, n - 1, x);
        lemma_dup_row_members(tn, ixs, n - 1, ixs.len() as int, x);
        lemma_concat_contains(
            duplicate_index_warnings(tn, ixs, n - 1),
            dup_row(tn, ixs, n - 1, ixs.len() as int),
            x,
        );
    }
}

/// Lint, unless the rule is disabled, reports every pair of indexes of a
/// table with the same column list, and every `duplicate-index` warning it
/// reports is about such a pair.
pub proof fn lemma_duplicate_index_reported(
    schema: SchemaV,
    disabled: Seq<Seq<char>>,
    convention: Seq<char>,
    threshold: usize,
    timestamps: bool,
)
    ensures
        !disabled.contains("duplicate-index"@) ==> forall|t: int, i: int, j: int|
            0 <= t < schema.tables.len() && 0 <= i < j < schema.tables[t].indexes.len()
                && #[trigger] schema.tables[t].indexes[i].columns
                == #[trigger] schema.tables[t].indexes[j].columns ==> lint_spec(
                schema,
                disabled,
                convention,
                threshold,
                timestamps,
            ).contains(
                duplicate_index_warning(
                    schema.tables[t].name,
                    schema.tables[t].indexes[i],
                    schema.tables[t].indexes[j],
                ),
            ),
        forall|x: LintWarningV|
            #[trigger] lint_spec(schema, disabled, convention, threshold, timestamps).contains(x)
                && x.rule == "duplicate-index"@ ==> exists|t: int, i: int, j: int|
                0 <= t < schema.tables.len() && 0 <= i < j < schema.tables[t].indexes.len()
                    && #[trigger] schema.tables[t].indexes[i].columns
                    == #[trigger] schema.tables[t].indexes[j].columns && x
                    == duplicate_index_warning(
                    schema.tables[t].name,
                    schema.tables[t].indexes[i],
                    schema.tables[t].indexes[j],
                ),
{
    let ts = schema.tables;
    assert(rule_check(7, schema, convention, threshold, timestamps) == per_tables(7, ts, seq![]));
    if !disabled.contains("duplicate-index"@) {
        assert forall|t: int, i: int, j: int|
            0 <= t < ts.len() && 0 <= i < j < ts[t].indexes.len() && #[trigger] ts[t].indexes[i].columns
                == #[trigger] ts[t].indexes[j].columns implies lint_spec(
            schema,
            disabled,
            convention,
            threshold,
            timestamps,
        ).contains(duplicate_index_warning(ts[t].name, ts[t].indexes[i], ts[t].indexes[j])) by {
            let x = duplicate_index_warning(ts[t].name, ts[t].indexes[i], ts[t].indexes[j]);
            lemma_duplicate_index_members(ts[t].name, ts[t].indexes, ts[t].indexes.len() as int, x);
            assert(table_warnings(7, ts[t], seq![]).contains(x));
            lemma_per_tables_members(7, ts, seq![], x);
            lemma_lint_rule_members(7, schema, disabled, convention, threshold, timestamps, x);
        }
    }
    assert forall|x: LintWarningV|
        #[trigger] lint_spec(schema, disabled, convention, threshold, timestamps).contains(x)
            && x.rule == "duplicate-index"@ implies exists|t: int, i: int, j: int|
        0 <= t < ts.len() && 0 <= i < j < ts[t].indexes.len() && #[trigger] ts[t].indexes[i].columns
            == #[trigger] ts[t].indexes[j].columns && x == duplicate_index_warning(
            ts[t].name,
            ts[t].indexes[i],
            ts[t].indexes[j],
        ) by {
        lemma_lint_rule_members(7, schema, disabled, convention, threshold, timestamps, x);
        lemma_per_tables_members(7, ts, seq![], x);
        let t = choose|t: int|
            0 <= t < ts.len() && #[trigger] table_warnings(7, ts[t], seq![]).contains(x);
        lemma_duplicate_index_members(ts[t].name, ts[t].indexes, ts[t].indexes.len() as int, x);
    }
}

} // verus!
