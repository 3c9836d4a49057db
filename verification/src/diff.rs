//! Schema differences.
use vstd::prelude::*;
use crate::migrate::sql_literal;
use crate::schema::{
    check_eq, column_hits, column_match, column_pos, count_true, data_type_eq, display,
    enum_hits, enum_match, enum_pos, find_column, find_enum, find_table, fk_eq, index_eq,
    lemma_match_self, nth_true_from,
    opt_default_eq, opt_pk_eq, strings_eq, table_hits, table_match, table_pos, unique_eq,
    CheckConstraint, CheckConstraintV, Column, ColumnDefault, ColumnDefaultV, ColumnV, EnumType,
    EnumTypeV, ForeignKey, ForeignKeyV, Index, IndexV, Schema, SchemaV, Table, TableV,
    UniqueConstraint, UniqueConstraintV,
};
use crate::text::{chars_eq, join, join_strings, lemma_first_true_from, opt_int, str_to_chars};

verus! {

/// Model of one schema change.
pub enum ChangeV {
    AddTable(Seq<char>),
    DropTable(Seq<char>),
    AddColumn { table: Seq<char>, column: Seq<char> },
    DropColumn { table: Seq<char>, column: Seq<char> },
    AlterColumn { table: Seq<char>, column: Seq<char>, description: Seq<char> },
    AddIndex { table: Seq<char>, index: Seq<char> },
    DropIndex { table: Seq<char>, index: Seq<char> },
    AddForeignKey { table: Seq<char>, name: Seq<char> },
    DropForeignKey { table: Seq<char>, name: Seq<char> },
    AddCheckConstraint { table: Seq<char>, name: Seq<char> },
    DropCheckConstraint { table: Seq<char>, name: Seq<char> },
    AddUniqueConstraint { table: Seq<char>, name: Seq<char> },
    DropUniqueConstraint { table: Seq<char>, name: Seq<char> },
    AddEnum { name: Seq<char> },
    DropEnum { name: Seq<char> },
    AlterEnum { name: Seq<char>, description: Seq<char> },
    ChangePrimaryKey { table: Seq<char> },
}

/// Represents the difference between two schemas.
#[derive(Debug)]
pub struct SchemaDiff {
    pub changes: Vec<Change>,
}

#[derive(Debug)]
pub enum Change {
    AddTable(String),
    DropTable(String),
    AddColumn { table: String, column: String },
    DropColumn { table: String, column: String },
    AlterColumn { table: String, column: String, description: String },
    AddIndex { table: String, index: String },
    DropIndex { table: String, index: String },
    AddForeignKey { table: String, name: String },
    DropForeignKey { table: String, name: String },
    AddCheckConstraint { table: String, name: String },
    DropCheckConstraint { table: String, name: String },
    AddUniqueConstraint { table: String, name: String },
    DropUniqueConstraint { table: String, name: String },
    AddEnum { name: String },
    DropEnum { name: String },
    AlterEnum { name: String, description: String },
    ChangePrimaryKey { table: String },
}

impl View for Change {
    type V = ChangeV;

    open spec fn view(&self) -> ChangeV {
        match self {
            Change::AddTable(n) => ChangeV::AddTable(n@),
            Change::DropTable(n) => ChangeV::DropTable(n@),
            Change::AddColumn { table, column } => ChangeV::AddColumn {
                table: table@,
                column: column@,
            },
            Change::DropColumn { table, column } => ChangeV::DropColumn {
                table: table@,
                column: column@,
            },
            Change::AlterColumn { table, column, description } => ChangeV::AlterColumn {
                table: table@,
                column: column@,
                description: description@,
            },
            Change::AddIndex { table, index } => ChangeV::AddIndex {
                table: table@,
                index: index@,
            },
            Change::DropIndex { table, index } => ChangeV::DropIndex {
                table: table@,
                index: index@,
            },
            Change::AddForeignKey { table, name } => ChangeV::AddForeignKey {
                table: table@,
                name: name@,
            },
            Change::DropForeignKey { table, name } => ChangeV::DropForeignKey {
                table: table@,
                name: name@,
            },
            Change::AddCheckConstraint { table, name } => ChangeV::AddCheckConstraint {
                table: table@,
                name: name@,
            },
            Change::DropCheckConstraint { table, name } => ChangeV::DropCheckConstraint {
                table: table@,
                name: name@,
            },
            Change::AddUniqueConstraint { table, name } => ChangeV::AddUniqueConstraint {
                table: table@,
                name: name@,
            },
            Change::DropUniqueConstraint { table, name } => ChangeV::DropUniqueConstraint {
                table: table@,
                name: name@,
            },
            Change::AddEnum { name } => ChangeV::AddEnum { name: name@ },
            Change::DropEnum { name } => ChangeV::DropEnum { name: name@ },
            Change::AlterEnum { name, description } => ChangeV::AlterEnum {
                name: name@,
                description: description@,
            },
            Change::ChangePrimaryKey { table } => ChangeV::ChangePrimaryKey { table: table@ },
        }
    }
}

impl DeepView for Change {
    type V = ChangeV;

    open spec fn deep_view(&self) -> ChangeV {
        self@
    }
}

impl View for SchemaDiff {
    type V = Seq<ChangeV>;

    open spec fn view(&self) -> Seq<ChangeV> {
        self.changes.deep_view()
    }
}

impl Clone for Change {
    fn clone(&self) -> (r: Self)
        ensures
            r@ == self@,
    {
        match self {
            Change::AddTable(n) => Change::AddTable(n.clone()),
            Change::DropTable(n) => Change::DropTable(n.clone()),
            Change::AddColumn { table, column } => Change::AddColumn {
                table: table.clone(),
                column: column.clone(),
            },
            Change::DropColumn { table, column } => Change::DropColumn {
                table: table.clone(),
                column: column.clone(),
            },
            Change::AlterColumn { table, column, description } => Change::AlterColumn {
                table: table.clone(),
                column: column.clone(),
                description: description.clone(),
            },
            Change::AddIndex { table, index } => Change::AddIndex {
                table: table.clone(),
                index: index.clone(),
            },
            Change::DropIndex { table, index } => Change::DropIndex {
                table: table.clone(),
                index: index.clone(),
            },
            Change::AddForeignKey { table, name } => Change::AddForeignKey {
                table: table.clone(),
                name: name.clone(),
            },
            Change::DropForeignKey { table, name } => Change::DropForeignKey {
                table: table.clone(),
                name: name.clone(),
            },
            Change::AddCheckConstraint { table, name } => Change::AddCheckConstraint {
                table: table.clone(),
                name: name.clone(),
            },
            Change::DropCheckConstraint { table, name } => Change::DropCheckConstraint {
                table: table.clone(),
                name: name.clone(),
            },
            Change::AddUniqueConstraint { table, name } => Change::AddUniqueConstraint {
                table: table.clone(),
                name: name.clone(),
            },
            Change::DropUniqueConstraint { table, name } => Change::DropUniqueConstraint {
                table: table.clone(),
                name: name.clone(),
            },
            Change::AddEnum { name } => Change::AddEnum { name: name.clone() },
            Change::DropEnum { name } => Change::DropEnum { name: name.clone() },
            Change::AlterEnum { name, description } => Change::AlterEnum {
                name: name.clone(),
                description: description.clone(),
            },
            Change::ChangePrimaryKey { table } => Change::ChangePrimaryKey { table: table.clone() },
        }
    }
}

impl Clone for SchemaDiff {
    fn clone(&self) -> (r: Self)
        ensures
            r@ == self@,
    {
        let mut changes: Vec<Change> = Vec::new();
        let mut i: usize = 0;
        while i < self.changes.len()
            invariant
                i <= self.changes.len(),
                changes.deep_view() == self@.take(i as int),
            decreases self.changes.len() - i,
        {
            changes.push(self.changes[i].clone());
            assert(self@.take(i + 1) =~= self@.take(i as int).push(self.changes[i as int]@));
            i += 1;
        }
        assert(self@.take(self.changes.len() as int) =~= self@);
        SchemaDiff { changes }
    }
}

fn match_table(prev: &Vec<Table>, new: &Vec<Table>, j: usize) -> (r: Option<usize>)
    requires
        j < new.len(),
    ensures
        opt_int(r) == table_match(prev.deep_view(), new.deep_view(), j as int),
        r matches Some(m) ==> m < prev.len(),
{
    let ghost x = new.deep_view()[j as int].name;
    let ghost hn = table_hits(new.deep_view(), x);
    let ghost ho = table_hits(prev.deep_view(), x);
    let name = str_to_chars(new[j].name.as_str());
    let mut c: usize = 0;
    let mut i: usize = 0;
    while i < j
        invariant
            i <= j,
            j < new.len(),
            name@ == x,
            hn == table_hits(new.deep_view(), x),
            c == count_true(hn, 0, i as int),
            c <= i,
        decreases j - i,
    {
        let ni = str_to_chars(new[i].name.as_str());
        assert(new.deep_view()[i as int] == new[i as int]@);
        if chars_eq(ni.as_slice(), name.as_slice()) {
            c += 1;
        }
        i += 1;
    }
    let mut m: usize = 0;
    let mut left: usize = c;
    while m < prev.len()
        invariant
            m <= prev.len(),
            name@ == x,
            ho == table_hits(prev.deep_view(), x),
            ho.len() == prev.len(),
            j < new.len(),
            x == new.deep_view()[j as int].name,
            c == count_true(table_hits(new.deep_view(), x), 0, j as int),
            nth_true_from(ho, 0, c as nat) == nth_true_from(ho, m as int, left as nat),
        decreases prev.len() - m,
    {
        let nm = str_to_chars(prev[m].name.as_str());
        assert(prev.deep_view()[m as int] == prev[m as int]@);
        if chars_eq(nm.as_slice(), name.as_slice()) {
            assert(ho[m as int]);
            if left == 0 {
                assert(nth_true_from(ho, m as int, left as nat) == Some(m as int));
                return Some(m);
            }
            left -= 1;
        }
        m += 1;
    }
    None
}

fn match_enum(prev: &Vec<EnumType>, new: &Vec<EnumType>, j: usize) -> (r: Option<usize>)
    requires
        j < new.len(),
    ensures
        opt_int(r) == enum_match(prev.deep_view(), new.deep_view(), j as int),
        r matches Some(m) ==> m < prev.len(),
{
    let ghost x = new.deep_view()[j as int].name;
    let ghost hn = enum_hits(new.deep_view(), x);
    let ghost ho = enum_hits(prev.deep_view(), x);
    let name = str_to_chars(new[j].name.as_str());
    let mut c: usize = 0;
    let mut i: usize = 0;
    while i < j
        invariant
            i <= j,
            j < new.len(),
            name@ == x,
            hn == enum_hits(new.deep_view(), x),
            c == count_true(hn, 0, i as int),
            c <= i,
        decreases j - i,
    {
        let ni = str_to_chars(new[i].name.as_str());
        assert(new.deep_view()[i as int] == new[i as int]@);
        if chars_eq(ni.as_slice(), name.as_slice()) {
            c += 1;
        }
        i += 1;
    }
    let mut m: usize = 0;
    let mut left: usize = c;
    while m < prev.len()
        invariant
            m <= prev.len(),
            name@ == x,
            ho == enum_hits(prev.deep_view(), x),
            ho.len() == prev.len(),
            j < new.len(),
            x == new.deep_view()[j as int].name,
            c == count_true(enum_hits(new.deep_view(), x), 0, j as int),
            nth_true_from(ho, 0, c as nat) == nth_true_from(ho, m as int, left as nat),
        decreases prev.len() - m,
    {
        let nm = str_to_chars(prev[m].name.as_str());
        assert(prev.deep_view()[m as int] == prev[m as int]@);
        if chars_eq(nm.as_slice(), name.as_slice()) {
            assert(ho[m as int]);
            if left == 0 {
                assert(nth_true_from(ho, m as int, left as nat) == Some(m as int));
                return Some(m);
            }
            left -= 1;
        }
        m += 1;
    }
    None
}

fn match_column(prev: &Vec<Column>, new: &Vec<Column>, j: usize) -> (r: Option<usize>)
    requires
        j < new.len(),
    ensures
        opt_int(r) == column_match(prev.deep_view(), new.deep_view(), j as int),
        r matches Some(m) ==> m < prev.len(),
{
    let ghost x = new.deep_view()[j as int].name;
    let ghost hn = column_hits(new.deep_view(), x);
    let ghost ho = column_hits(prev.deep_view(), x);
    let name = str_to_chars(new[j].name.as_str());
    let mut c: usize = 0;
    let mut i: usize = 0;
    while i < j
        invariant
            i <= j,
            j < new.len(),
            name@ == x,
            hn == column_hits(new.deep_view(), x),
            c == count_true(hn, 0, i as int),
            c <= i,
        decreases j - i,
    {
        let ni = str_to_chars(new[i].name.as_str());
        assert(new.deep_view()[i as int] == new[i as int]@);
        if chars_eq(ni.as_slice(), name.as_slice()) {
            c += 1;
        }
        i += 1;
    }
    let mut m: usize = 0;
    let mut left: usize = c;
    while m < prev.len()
        invariant
            m <= prev.len(),
            name@ == x,
            ho == column_hits(prev.deep_view(), x),
            ho.len() == prev.len(),
            j < new.len(),
            x == new.deep_view()[j as int].name,
            c == count_true(column_hits(new.deep_view(), x), 0, j as int),
            nth_true_from(ho, 0, c as nat) == nth_true_from(ho, m as int, left as nat),
        decreases prev.len() - m,
    {
        let nm = str_to_chars(prev[m].name.as_str());
        assert(prev.deep_view()[m as int] == prev[m as int]@);
        if chars_eq(nm.as_slice(), name.as_slice()) {
            assert(ho[m as int]);
            if left == 0 {
                assert(nth_true_from(ho, m as int, left as nat) == Some(m as int));
                return Some(m);
            }
            left -= 1;
        }
        m += 1;
    }
    None
}

// ---------------------------------------------------------------------------
// Keys by which changes name constraints and indexes
// ---------------------------------------------------------------------------

/// The name, or else the columns joined with `,`.
pub open spec fn name_or_columns(name: Option<Seq<char>>, cols: Seq<Seq<char>>) -> Seq<char> {
    match name {
        Some(n) => n,
        None => join(cols, ","@),
    }
}

pub open spec fn check_key(c: CheckConstraintV) -> Seq<char> {
    match c.name {
        Some(n) => n,
        None => c.expression,
    }
}

fn name_or_columns_exec(name: &Option<String>, cols: &Vec<String>) -> (r: String)
    ensures
        r@ == name_or_columns(name.deep_view(), cols.deep_view()),
{
    match name {
        Some(n) => n.clone(),
        None => join_strings(cols, ","),
    }
}

// ---------------------------------------------------------------------------
// Items present on one side only
// ---------------------------------------------------------------------------

/// For each index of `src` that `other` does not hold: AddIndex (`add`) or
/// DropIndex, in `src` order.
pub open spec fn index_missing(t: Seq<char>, src: Seq<IndexV>, other: Seq<IndexV>, add: bool) -> Seq<
    ChangeV,
>
    decreases src.len(),
{
    if src.len() == 0 {
        seq![]
    } else {
        index_missing(t, src.drop_last(), other, add) + if other.contains(src.last()) {
            seq![]
        } else {
            let k = name_or_columns(src.last().name, src.last().columns);
            seq![
                if add {
                    ChangeV::AddIndex { table: t, index: k }
                } else {
                    ChangeV::DropIndex { table: t, index: k }
                },
            ]
        }
    }
}

pub open spec fn fk_missing(t: Seq<char>, src: Seq<ForeignKeyV>, other: Seq<ForeignKeyV>, add: bool) -> Seq<
    ChangeV,
>
    decreases src.len(),
{
    if src.len() == 0 {
        seq![]
    } else {
        fk_missing(t, src.drop_last(), other, add) + if other.contains(src.last()) {
            seq![]
        } else {
            let k = name_or_columns(src.last().name, src.last().columns);
            seq![
                if add {
                    ChangeV::AddForeignKey { table: t, name: k }
                } else {
                    ChangeV::DropForeignKey { table: t, name: k }
                },
            ]
        }
    }
}

pub open spec fn check_missing(
    t: Seq<char>,
    src: Seq<CheckConstraintV>,
    other: Seq<CheckConstraintV>,
    add: bool,
) -> Seq<ChangeV>
    decreases src.len(),
{
    if src.len() == 0 {
        seq![]
    } else {
        check_missing(t, src.drop_last(), other, add) + if other.contains(src.last()) {
            seq![]
        } else {
            let k = check_key(src.last());
            seq![
                if add {
                    ChangeV::AddCheckConstraint { table: t, name: k }
                } else {
                    ChangeV::DropCheckConstraint { table: t, name: k }
                },
            ]
        }
    }
}

pub open spec fn unique_missing(
    t: Seq<char>,
    src: Seq<UniqueConstraintV>,
    other: Seq<UniqueConstraintV>,
    add: bool,
) -> Seq<ChangeV>
    decreases src.len(),
{
    if src.len() == 0 {
        seq![]
    } else {
        unique_missing(t, src.drop_last(), other, add) + if other.contains(src.last()) {
            seq![]
        } else {
            let k = name_or_columns(src.last().name, src.last().columns);
            seq![
                if add {
                    ChangeV::AddUniqueConstraint { table: t, name: k }
                } else {
                    ChangeV::DropUniqueConstraint { table: t, name: k }
                },
            ]
        }
    }
}

/// For each column of `src` whose name `other` lacks: AddColumn or DropColumn.
pub open spec fn column_missing(t: Seq<char>, src: Seq<ColumnV>, other: Seq<ColumnV>, add: bool) -> Seq<
    ChangeV,
>
    decreases src.len(),
{
    if src.len() == 0 {
        seq![]
    } else {
        column_missing(t, src.drop_last(), other, add) + if column_pos(
            other,
            src.last().name,
        ) is Some {
            seq![]
        } else {
            seq![
                if add {
                    ChangeV::AddColumn { table: t, column: src.last().name }
                } else {
                    ChangeV::DropColumn { table: t, column: src.last().name }
                },
            ]
        }
    }
}

fn contains_index(v: &Vec<Index>, x: &Index) -> (r: bool)
    ensures
        r == v.deep_view().contains(x@),
{
    let mut i: usize = 0;
    while i < v.len()
        invariant
            i <= v.len(),
            forall|j: int| 0 <= j < i ==> v.deep_view()[j] != x@,
        decreases v.len() - i,
    {
        if index_eq(&v[i], x) {
            assert(v.deep_view()[i as int] == x@);
            return true;
        }
        i += 1;
    }
    false
}

fn contains_fk(v: &Vec<ForeignKey>, x: &ForeignKey) -> (r: bool)
    ensures
        r == v.deep_view().contains(x@),
{
    let mut i: usize = 0;
    while i < v.len()
        invariant
            i <= v.len(),
            forall|j: int| 0 <= j < i ==> v.deep_view()[j] != x@,
        decreases v.len() - i,
    {
        if fk_eq(&v[i], x) {
            assert(v.deep_view()[i as int] == x@);
            return true;
        }
        i += 1;
    }
    false
}

fn contains_check(v: &Vec<CheckConstraint>, x: &CheckConstraint) -> (r: bool)
    ensures
        r == v.deep_view().contains(x@),
{
    let mut i: usize = 0;
    while i < v.len()
        invariant
            i <= v.len(),
            forall|j: int| 0 <= j < i ==> v.deep_view()[j] != x@,
        decreases v.len() - i,
    {
        if check_eq(&v[i], x) {
            assert(v.deep_view()[i as int] == x@);
            return true;
        }
        i += 1;
    }
    false
}

fn contains_unique(v: &Vec<UniqueConstraint>, x: &UniqueConstraint) -> (r: bool)
    ensures
        r == v.deep_view().contains(x@),
{
    let mut i: usize = 0;
    while i < v.len()
        invariant
            i <= v.len(),
            forall|j: int| 0 <= j < i ==> v.deep_view()[j] != x@,
        decreases v.len() - i,
    {
        if unique_eq(&v[i], x) {
            assert(v.deep_view()[i as int] == x@);
            return true;
        }
        i += 1;
    }
    false
}

fn push_index_missing(
    out: &mut Vec<Change>,
    t: &String,
    src: &Vec<Index>,
    other: &Vec<Index>,
    add: bool,
)
    ensures
        final(out).deep_view() == old(out).deep_view() + index_missing(
            t@,
            src.deep_view(),
            other.deep_view(),
            add,
        ),
{
    let ghost start = out.deep_view();
    let ghost sv = src.deep_view();
    let mut i: usize = 0;
    while i < src.len()
        invariant
            i <= src.len(),
            sv == src.deep_view(),
            out.deep_view() == start + index_missing(t@, sv.take(i as int), other.deep_view(), add),
        decreases src.len() - i,
    {
        let ghost before = out.deep_view();
        assert(sv.take(i + 1).drop_last() =~= sv.take(i as int));
        if !contains_index(other, &src[i]) {
            let k = name_or_columns_exec(&src[i].name, &src[i].columns);
            let c = if add {
                Change::AddIndex { table: t.clone(), index: k }
            } else {
                Change::DropIndex { table: t.clone(), index: k }
            };
            out.push(c);
            assert(out.deep_view() =~= before.push(c@));
        } else {
            assert(before + seq![] =~= before);
        }
        assert(out.deep_view() =~= start + index_missing(
            t@,
            sv.take(i + 1),
            other.deep_view(),
            add,
        ));
        i += 1;
    }
    assert(sv.take(src.len() as int) =~= sv);
}

fn push_fk_missing(
    out: &mut Vec<Change>,
    t: &String,
    src: &Vec<ForeignKey>,
    other: &Vec<ForeignKey>,
    add: bool,
)
    ensures
        final(out).deep_view() == old(out).deep_view() + fk_missing(
            t@,
            src.deep_view(),
            other.deep_view(),
            add,
        ),
{
    let ghost start = out.deep_view();
    let ghost sv = src.deep_view();
    let mut i: usize = 0;
    while i < src.len()
        invariant
            i <= src.len(),
            sv == src.deep_view(),
            out.deep_view() == start + fk_missing(t@, sv.take(i as int), other.deep_view(), add),
        decreases src.len() - i,
    {
        let ghost before = out.deep_view();
        assert(sv.take(i + 1).drop_last() =~= sv.take(i as int));
        if !contains_fk(other, &src[i]) {
            let k = name_or_columns_exec(&src[i].name, &src[i].columns);
            let c = if add {
                Change::AddForeignKey { table: t.clone(), name: k }
            } else {
                Change::DropForeignKey { table: t.clone(), name: k }
            };
            out.push(c);
            assert(out.deep_view() =~= before.push(c@));
        } else {
            assert(before + seq![] =~= before);
        }
        assert(out.deep_view() =~= start + fk_missing(t@, sv.take(i + 1), other.deep_view(), add));
        i += 1;
    }
    assert(sv.take(src.len() as int) =~= sv);
}

fn push_check_missing(
    out: &mut Vec<Change>,
    t: &String,
    src: &Vec<CheckConstraint>,
    other: &Vec<CheckConstraint>,
    add: bool,
)
    ensures
        final(out).deep_view() == old(out).deep_view() + check_missing(
            t@,
            src.deep_view(),
            other.deep_view(),
            add,
        ),
{
    let ghost start = out.deep_view();
    let ghost sv = src.deep_view();
    let mut i: usize = 0;
    while i < src.len()
        invariant
            i <= src.len(),
            sv == src.deep_view(),
            out.deep_view() == start + check_missing(t@, sv.take(i as int), other.deep_view(), add),
        decreases src.len() - i,
    {
        let ghost before = out.deep_view();
        assert(sv.take(i + 1).drop_last() =~= sv.take(i as int));
        if !contains_check(other, &src[i]) {
            let k = match &src[i].name {
                Some(n) => n.clone(),
                None => src[i].expression.clone(),
            };
            let c = if add {
                Change::AddCheckConstraint { table: t.clone(), name: k }
            } else {
                Change::DropCheckConstraint { table: t.clone(), name: k }
            };
            out.push(c);
            assert(out.deep_view() =~= before.push(c@));
        } else {
            assert(before + seq![] =~= before);
        }
        assert(out.deep_view() =~= start + check_missing(
            t@,
            sv.take(i + 1),
            other.deep_view(),
            add,
        ));
        i += 1;
    }
    assert(sv.take(src.len() as int) =~= sv);
}

fn push_unique_missing(
    out: &mut Vec<Change>,
    t: &String,
    src: &Vec<UniqueConstraint>,
    other: &Vec<UniqueConstraint>,
    add: bool,
)
    ensures
        final(out).deep_view() == old(out).deep_view() + unique_missing(
            t@,
            src.deep_view(),
            other.deep_view(),
            add,
        ),
{
    let ghost start = out.deep_view();
    let ghost sv = src.deep_view();
    let mut i: usize = 0;
    while i < src.len()
        invariant
            i <= src.len(),
            sv == src.deep_view(),
            out.deep_view() == start + unique_missing(t@, sv.take(i as int), other.deep_view(), add),
        decreases src.len() - i,
    {
        let ghost before = out.deep_view();
        assert(sv.take(i + 1).drop_last() =~= sv.take(i as int));
        if !contains_unique(other, &src[i]) {
            let k = name_or_columns_exec(&src[i].name, &src[i].columns);
            let c = if add {
                Change::AddUniqueConstraint { table: t.clone(), name: k }
            } else {
                Change::DropUniqueConstraint { table: t.clone(), name: k }
            };
            out.push(c);
            assert(out.deep_view() =~= before.push(c@));
        } else {
            assert(before + seq![] =~= before);
        }
        assert(out.deep_view() =~= start + unique_missing(
            t@,
            sv.take(i + 1),
            other.deep_view(),
            add,
        ));
        i += 1;
    }
    assert(sv.take(src.len() as int) =~= sv);
}

fn push_column_missing(
    out: &mut Vec<Change>,
    t: &String,
    src: &Vec<Column>,
    other: &Vec<Column>,
    add: bool,
)
    ensures
        final(out).deep_view() == old(out).deep_view() + column_missing(
            t@,
            src.deep_view(),
            other.deep_view(),
            add,
        ),
{
    let ghost start = out.deep_view();
    let ghost sv = src.deep_view();
    let mut i: usize = 0;
    while i < src.len()
        invariant
            i <= src.len(),
            sv == src.deep_view(),
            out.deep_view() == start + column_missing(t@, sv.take(i as int), other.deep_view(), add),
        decreases src.len() - i,
    {
        let ghost before = out.deep_view();
        assert(sv.take(i + 1).drop_last() =~= sv.take(i as int));
        let n = str_to_chars(src[i].name.as_str());
        if find_column(other, n.as_slice()).is_none() {
            let c = if add {
                Change::AddColumn { table: t.clone(), column: src[i].name.clone() }
            } else {
                Change::DropColumn { table: t.clone(), column: src[i].name.clone() }
            };
            out.push(c);
            assert(out.deep_view() =~= before.push(c@));
        } else {
            assert(before + seq![] =~= before);
        }
        assert(out.deep_view() =~= start + column_missing(
            t@,
            sv.take(i + 1),
            other.deep_view(),
            add,
        ));
        i += 1;
    }
    assert(sv.take(src.len() as int) =~= sv);
}

// ---------------------------------------------------------------------------
// Column alterations
// ---------------------------------------------------------------------------

pub open spec fn bool_text(b: bool) -> Seq<char> {
    if b {
        "true"@
    } else {
        "false"@
    }
}

/// A default as SQL text, or `none`.
pub open spec fn default_text(d: Option<ColumnDefaultV>) -> Seq<char> {
    match d {
        Some(ColumnDefaultV::Literal(v)) => sql_literal(v),
        Some(ColumnDefaultV::Expression(e)) => e,
        None => "none"@,
    }
}

/// `type: a -> b`, `nullable: a -> b` and `default: a -> b` for what differs.
pub open spec fn column_alter_parts(o: ColumnV, n: ColumnV) -> Seq<Seq<char>> {
    (if o.data_type != n.data_type {
        seq!["type: "@ + display(o.data_type) + " -> "@ + display(n.data_type)]
    } else {
        seq![]
    }) + (if o.nullable != n.nullable {
        seq!["nullable: "@ + bool_text(o.nullable) + " -> "@ + bool_text(n.nullable)]
    } else {
        seq![]
    }) + (if o.default != n.default {
        seq!["default: "@ + default_text(o.default) + " -> "@ + default_text(n.default)]
    } else {
        seq![]
    })
}

/// AlterColumn for each column of `new` whose paired column in `old` differs.
/// A column is paired with the column of `old` of the same name that has as
/// many columns of that name before it.
pub open spec fn column_alters(t: Seq<char>, old: Seq<ColumnV>, new: Seq<ColumnV>) -> Seq<ChangeV> {
    column_alters_upto(t, old, new, new.len() as int)
}

/// AlterColumn for the first `k` columns of `new`, each compared with the
/// column of `old` that it is paired with (`column_match`).
pub open spec fn column_alters_upto(
    t: Seq<char>,
    old: Seq<ColumnV>,
    new: Seq<ColumnV>,
    k: int,
) -> Seq<ChangeV>
    decreases k,
{
    if k <= 0 {
        seq![]
    } else {
        column_alters_upto(t, old, new, k - 1) + match column_match(old, new, k - 1) {
            Some(m) => {
                let parts = column_alter_parts(old[m], new[k - 1]);
                if parts.len() > 0 {
                    seq![
                        ChangeV::AlterColumn {
                            table: t,
                            column: new[k - 1].name,
                            description: join(parts, ", "@),
                        },
                    ]
                } else {
                    seq![]
                }
            },
            None => seq![],
        }
    }
}

fn bool_text_exec(b: bool) -> (r: String)
    ensures
        r@ == bool_text(b),
{
    if b {
        String::from_str("true")
    } else {
        String::from_str("false")
    }
}

fn default_text_exec(d: &Option<ColumnDefault>) -> (r: String)
    ensures
        r@ == default_text(d.deep_view()),
{
    match d {
        Some(ColumnDefault::Literal(v)) => crate::migrate::sql_literal_str(v.as_str()),
        Some(ColumnDefault::Expression(e)) => e.clone(),
        None => String::from_str("none"),
    }
}

fn column_alter_parts_exec(o: &Column, n: &Column) -> (r: Vec<String>)
    ensures
        r.deep_view() == column_alter_parts(o@, n@),
{
    let mut parts: Vec<String> = Vec::new();
    if !data_type_eq(&o.data_type, &n.data_type) {
        let mut p = String::from_str("type: ");
        p.append(o.data_type.to_string().as_str());
        p.append(" -> ");
        p.append(n.data_type.to_string().as_str());
        parts.push(p);
    }
    let ghost p1 = parts.deep_view();
    if o.nullable != n.nullable {
        let mut p = String::from_str("nullable: ");
        p.append(bool_text_exec(o.nullable).as_str());
        p.append(" -> ");
        p.append(bool_text_exec(n.nullable).as_str());
        parts.push(p);
    }
    let ghost p2 = parts.deep_view();
    if !opt_default_eq(&o.default, &n.default) {
        let mut p = String::from_str("default: ");
        p.append(default_text_exec(&o.default).as_str());
        p.append(" -> ");
        p.append(default_text_exec(&n.default).as_str());
        parts.push(p);
    }
    assert(parts.deep_view() =~= column_alter_parts(o@, n@));
    parts
}

fn push_column_alters(out: &mut Vec<Change>, t: &String, prev: &Vec<Column>, new: &Vec<Column>)
    ensures
        final(out).deep_view() == old(out).deep_view() + column_alters(
            t@,
            prev.deep_view(),
            new.deep_view(),
        ),
{
    let ghost start = out.deep_view();
    let ghost nv = new.deep_view();
    let mut i: usize = 0;
    while i < new.len()
        invariant
            i <= new.len(),
            nv == new.deep_view(),
            out.deep_view() == start + column_alters_upto(t@, prev.deep_view(), nv, i as int),
        decreases new.len() - i,
    {
        let ghost before = out.deep_view();
        match match_column(prev, new, i) {
            Some(k) => {
                let parts = column_alter_parts_exec(&prev[k], &new[i]);
                if parts.len() > 0 {
                    let c = Change::AlterColumn {
                        table: t.clone(),
                        column: new[i].name.clone(),
                        description: join_strings(&parts, ", "),
                    };
                    out.push(c);
                    assert(out.deep_view() =~= before.push(c@));
                } else {
                    assert(before + seq![] =~= before);
                }
            },
            None => {
                assert(before + seq![] =~= before);
            },
        }
        assert(out.deep_view() =~= start + column_alters_upto(t@, prev.deep_view(), nv, i + 1));
        i += 1;
    }
}

// ---------------------------------------------------------------------------
// Tables
// ---------------------------------------------------------------------------

/// Changes inside a table present in both schemas: dropped then added
/// columns, altered columns, then dropped/added indexes, foreign keys, check
/// and unique constraints, then a primary key change.
pub open spec fn table_changes(o: TableV, n: TableV) -> Seq<ChangeV> {
    let t = n.name;
    column_missing(t, o.columns, n.columns, false) + column_missing(t, n.columns, o.columns, true)
        + column_alters(t, o.columns, n.columns) + index_missing(t, o.indexes, n.indexes, false)
        + index_missing(t, n.indexes, o.indexes, true) + fk_missing(
        t,
        o.foreign_keys,
        n.foreign_keys,
        false,
    ) + fk_missing(t, n.foreign_keys, o.foreign_keys, true) + check_missing(
        t,
        o.check_constraints,
        n.check_constraints,
        false,
    ) + check_missing(t, n.check_constraints, o.check_constraints, true) + unique_missing(
        t,
        o.unique_constraints,
        n.unique_constraints,
        false,
    ) + unique_missing(t, n.unique_constraints, o.unique_constraints, true) + if o.primary_key
        != n.primary_key {
        seq![ChangeV::ChangePrimaryKey { table: t }]
    } else {
        seq![]
    }
}

fn push_table_changes(out: &mut Vec<Change>, o: &Table, n: &Table)
    ensures
        final(out).deep_view() == old(out).deep_view() + table_changes(o@, n@),
{
    let ghost start = out.deep_view();
    let t = &n.name;
    push_column_missing(out, t, &o.columns, &n.columns, false);
    push_column_missing(out, t, &n.columns, &o.columns, true);
    push_column_alters(out, t, &o.columns, &n.columns);
    push_index_missing(out, t, &o.indexes, &n.indexes, false);
    push_index_missing(out, t, &n.indexes, &o.indexes, true);
    push_fk_missing(out, t, &o.foreign_keys, &n.foreign_keys, false);
    push_fk_missing(out, t, &n.foreign_keys, &o.foreign_keys, true);
    push_check_missing(out, t, &o.check_constraints, &n.check_constraints, false);
    push_check_missing(out, t, &n.check_constraints, &o.check_constraints, true);
    push_unique_missing(out, t, &o.unique_constraints, &n.unique_constraints, false);
    push_unique_missing(out, t, &n.unique_constraints, &o.unique_constraints, true);
    let ghost before = out.deep_view();
    if !opt_pk_eq(&o.primary_key, &n.primary_key) {
        let c = Change::ChangePrimaryKey { table: t.clone() };
        out.push(c);
        assert(out.deep_view() =~= before.push(c@));
    }
    assert(out.deep_view() =~= start + table_changes(o@, n@));
}

/// AddTable (`add`) or DropTable for each table of `src` whose name `other` lacks.
pub open spec fn table_missing(src: Seq<TableV>, other: Seq<TableV>, add: bool) -> Seq<ChangeV>
    decreases src.len(),
{
    if src.len() == 0 {
        seq![]
    } else {
        table_missing(src.drop_last(), other, add) + if table_pos(other, src.last().name) is Some {
            seq![]
        } else {
            seq![
                if add {
                    ChangeV::AddTable(src.last().name)
                } else {
                    ChangeV::DropTable(src.last().name)
                },
            ]
        }
    }
}

/// Changes inside each table of `new` that is paired with a table of `old`,
/// in `new` order. A table is paired with the table of `old` of the same name
/// that has as many tables of that name before it.
pub open spec fn common_table_changes(old: Seq<TableV>, new: Seq<TableV>) -> Seq<ChangeV> {
    common_table_changes_upto(old, new, new.len() as int)
}

/// Changes inside each of the first `k` tables of `new` that is paired with a
/// table of `old` (`table_match`).
pub open spec fn common_table_changes_upto(old: Seq<TableV>, new: Seq<TableV>, k: int) -> Seq<
    ChangeV,
>
    decreases k,
{
    if k <= 0 {
        seq![]
    } else {
        common_table_changes_upto(old, new, k - 1) + match table_match(old, new, k - 1) {
            Some(m) => table_changes(old[m], new[k - 1]),
            None => seq![],
        }
    }
}

fn push_table_missing(out: &mut Vec<Change>, src: &Vec<Table>, other: &Vec<Table>, add: bool)
    ensures
        final(out).deep_view() == old(out).deep_view() + table_missing(
            src.deep_view(),
            other.deep_view(),
            add,
        ),
{
    let ghost start = out.deep_view();
    let ghost sv = src.deep_view();
    let mut i: usize = 0;
    while i < src.len()
        invariant
            i <= src.len(),
            sv == src.deep_view(),
            out.deep_view() == start + table_missing(sv.take(i as int), other.deep_view(), add),
        decreases src.len() - i,
    {
        let ghost before = out.deep_view();
        assert(sv.take(i + 1).drop_last() =~= sv.take(i as int));
        let n = str_to_chars(src[i].name.as_str());
        if find_table(other, n.as_slice()).is_none() {
            let c = if add {
                Change::AddTable(src[i].name.clone())
            } else {
                Change::DropTable(src[i].name.clone())
            };
            out.push(c);
            assert(out.deep_view() =~= before.push(c@));
        } else {
            assert(before + seq![] =~= before);
        }
        assert(out.deep_view() =~= start + table_missing(sv.take(i + 1), other.deep_view(), add));
        i += 1;
    }
    assert(sv.take(src.len() as int) =~= sv);
}

fn push_common_table_changes(out: &mut Vec<Change>, prev: &Vec<Table>, new: &Vec<Table>)
    ensures
        final(out).deep_view() == old(out).deep_view() + common_table_changes(
            prev.deep_view(),
            new.deep_view(),
        ),
{
    let ghost start = out.deep_view();
    let ghost nv = new.deep_view();
    let mut i: usize = 0;
    while i < new.len()
        invariant
            i <= new.len(),
            nv == new.deep_view(),
            out.deep_view() == start + common_table_changes_upto(prev.deep_view(), nv, i as int),
        decreases new.len() - i,
    {
        let ghost before = out.deep_view();
        match match_table(prev, new, i) {
            Some(k) => {
                push_table_changes(out, &prev[k], &new[i]);
            },
            None => {
                assert(before + seq![] =~= before);
            },
        }
        assert(out.deep_view() =~= start + common_table_changes_upto(
            prev.deep_view(),
            nv,
            i + 1,
        ));
        i += 1;
    }
}

// ---------------------------------------------------------------------------
// Enums
// ---------------------------------------------------------------------------

/// Values of `src` that `other` lacks, in `src` order.
pub open spec fn values_not_in(src: Seq<Seq<char>>, other: Seq<Seq<char>>) -> Seq<Seq<char>>
    decreases src.len(),
{
    if src.len() == 0 {
        seq![]
    } else {
        values_not_in(src.drop_last(), other) + if other.contains(src.last()) {
            seq![]
        } else {
            seq![src.last()]
        }
    }
}

/// `added values: ...` and `removed values: ...` joined by `; `
/// (`reordered values` when only the order changed).
pub open spec fn enum_alter_description(old: Seq<Seq<char>>, new: Seq<Seq<char>>) -> Seq<char> {
    let added = values_not_in(new, old);
    let removed = values_not_in(old, new);
    let parts = (if added.len() > 0 {
        seq!["added values: "@ + join(added, ", "@)]
    } else {
        seq![]
    }) + (if removed.len() > 0 {
        seq!["removed values: "@ + join(removed, ", "@)]
    } else {
        seq![]
    });
    if parts.len() > 0 {
        join(parts, "; "@)
    } else {
        "reordered values"@
    }
}

/// AddEnum (`add`) or DropEnum for each enum of `src` whose name `other` lacks.
pub open spec fn enum_missing(src: Seq<EnumTypeV>, other: Seq<EnumTypeV>, add: bool) -> Seq<
    ChangeV,
>
    decreases src.len(),
{
    if src.len() == 0 {
        seq![]
    } else {
        enum_missing(src.drop_last(), other, add) + if enum_pos(other, src.last().name) is Some {
            seq![]
        } else {
            seq![
                if add {
                    ChangeV::AddEnum { name: src.last().name }
                } else {
                    ChangeV::DropEnum { name: src.last().name }
                },
            ]
        }
    }
}

/// AlterEnum for each enum type of `new` whose paired type in `old` has other
/// values. A type is paired with the type of `old` of the same name that has
/// as many types of that name before it.
pub open spec fn enum_alters(old: Seq<EnumTypeV>, new: Seq<EnumTypeV>) -> Seq<ChangeV> {
    enum_alters_upto(old, new, new.len() as int)
}

/// AlterEnum for the first `k` enum types of `new` whose paired type in `old`
/// (`enum_match`) has other values.
pub open spec fn enum_alters_upto(old: Seq<EnumTypeV>, new: Seq<EnumTypeV>, k: int) -> Seq<ChangeV>
    decreases k,
{
    if k <= 0 {
        seq![]
    } else {
        enum_alters_upto(old, new, k - 1) + match enum_match(old, new, k - 1) {
            Some(m) => if old[m].values != new[k - 1].values {
                seq![
                    ChangeV::AlterEnum {
                        name: new[k - 1].name,
                        description: enum_alter_description(old[m].values, new[k - 1].values),
                    },
                ]
            } else {
                seq![]
            },
            None => seq![],
        }
    }
}

fn strings_contain(v: &Vec<String>, x: &String) -> (r: bool)
    ensures
        r == v.deep_view().contains(x@),
{
    let mut i: usize = 0;
    while i < v.len()
        invariant
            i <= v.len(),
            forall|j: int| 0 <= j < i ==> v.deep_view()[j] != x@,
        decreases v.len() - i,
    {
        if v[i] == *x {
            assert(v.deep_view()[i as int] == x@);
            return true;
        }
        i += 1;
    }
    false
}

fn values_not_in_exec(src: &Vec<String>, other: &Vec<String>) -> (r: Vec<String>)
    ensures
        r.deep_view() == values_not_in(src.deep_view(), other.deep_view()),
{
    let ghost sv = src.deep_view();
    let mut out: Vec<String> = Vec::new();
    let mut i: usize = 0;
    while i < src.len()
        invariant
            i <= src.len(),
            sv == src.deep_view(),
            out.deep_view() == values_not_in(sv.take(i as int), other.deep_view()),
        decreases src.len() - i,
    {
        let ghost before = out.deep_view();
        assert(sv.take(i + 1).drop_last() =~= sv.take(i as int));
        if !strings_contain(other, &src[i]) {
            out.push(src[i].clone());
            assert(out.deep_view() =~= before.push(sv[i as int]));
        } else {
            assert(before + seq![] =~= before);
        }
        assert(out.deep_view() =~= values_not_in(sv.take(i + 1), other.deep_view()));
        i += 1;
    }
    assert(sv.take(src.len() as int) =~= sv);
    out
}

fn enum_alter_description_exec(old: &Vec<String>, new: &Vec<String>) -> (r: String)
    ensures
        r@ == enum_alter_description(old.deep_view(), new.deep_view()),
{
    let added = values_not_in_exec(new, old);
    let removed = values_not_in_exec(old, new);
    let mut parts: Vec<String> = Vec::new();
    if added.len() > 0 {
        let mut p = String::from_str("added values: ");
        p.append(join_strings(&added, ", ").as_str());
        parts.push(p);
    }
    if removed.len() > 0 {
        let mut p = String::from_str("removed values: ");
        p.append(join_strings(&removed, ", ").as_str());
        parts.push(p);
    }
    assert(parts.deep_view() =~= (if added.deep_view().len() > 0 {
        seq!["added values: "@ + join(added.deep_view(), ", "@)]
    } else {
        seq![]
    }) + (if removed.deep_view().len() > 0 {
        seq!["removed values: "@ + join(removed.deep_view(), ", "@)]
    } else {
        seq![]
    }));
    if parts.len() > 0 {
        join_strings(&parts, "; ")
    } else {
        String::from_str("reordered values")
    }
}

fn push_enum_missing(out: &mut Vec<Change>, src: &Vec<EnumType>, other: &Vec<EnumType>, add: bool)
    ensures
        final(out).deep_view() == old(out).deep_view() + enum_missing(
            src.deep_view(),
            other.deep_view(),
            add,
        ),
{
    let ghost start = out.deep_view();
    let ghost sv = src.deep_view();
    let mut i: usize = 0;
    while i < src.len()
        invariant
            i <= src.len(),
            sv == src.deep_view(),
            out.deep_view() == start + enum_missing(sv.take(i as int), other.deep_view(), add),
        decreases src.len() - i,
    {
        let ghost before = out.deep_view();
        assert(sv.take(i + 1).drop_last() =~= sv.take(i as int));
        let n = str_to_chars(src[i].name.as_str());
        if find_enum(other, n.as_slice()).is_none() {
            let c = if add {
                Change::AddEnum { name: src[i].name.clone() }
            } else {
                Change::DropEnum { name: src[i].name.clone() }
            };
            out.push(c);
            assert(out.deep_view() =~= before.push(c@));
        } else {
            assert(before + seq![] =~= before);
        }
        assert(out.deep_view() =~= start + enum_missing(sv.take(i + 1), other.deep_view(), add));
        i += 1;
    }
    assert(sv.take(src.len() as int) =~= sv);
}

fn push_enum_alters(out: &mut Vec<Change>, prev: &Vec<EnumType>, new: &Vec<EnumType>)
    ensures
        final(out).deep_view() == old(out).deep_view() + enum_alters(
            prev.deep_view(),
            new.deep_view(),
        ),
{
    let ghost start = out.deep_view();
    let ghost nv = new.deep_view();
    let mut i: usize = 0;
    while i < new.len()
        invariant
            i <= new.len(),
            nv == new.deep_view(),
            out.deep_view() == start + enum_alters_upto(prev.deep_view(), nv, i as int),
        decreases new.len() - i,
    {
        let ghost before = out.deep_view();
        match match_enum(prev, new, i) {
            Some(k) => {
                if !strings_eq(&prev[k].values, &new[i].values) {
                    let c = Change::AlterEnum {
                        name: new[i].name.clone(),
                        description: enum_alter_description_exec(&prev[k].values, &new[i].values),
                    };
                    out.push(c);
                    assert(out.deep_view() =~= before.push(c@));
                } else {
                    assert(before + seq![] =~= before);
                }
            },
            None => {
                assert(before + seq![] =~= before);
            },
        }
        assert(out.deep_view() =~= start + enum_alters_upto(prev.deep_view(), nv, i + 1));
        i += 1;
    }
}

// ---------------------------------------------------------------------------
// Whole schemas
// ---------------------------------------------------------------------------

/// The changes that turn `from` into `to`: added enums, altered enums,
/// dropped enums, added tables, dropped tables, then changes inside the
/// tables both schemas hold.
pub open spec fn diff_spec(from: SchemaV, to: SchemaV) -> Seq<ChangeV> {
    enum_missing(to.enums, from.enums, true) + enum_alters(from.enums, to.enums) + enum_missing(
        from.enums,
        to.enums,
        false,
    ) + table_missing(to.tables, from.tables, true) + table_missing(
        from.tables,
        to.tables,
        false,
    ) + common_table_changes(from.tables, to.tables)
}

/// Compute the diff between two schemas.
pub fn diff(from: &Schema, to: &Schema) -> (r: SchemaDiff)
    ensures
        r@ == diff_spec(from@, to@),
{
    let mut changes: Vec<Change> = Vec::new();
    assert(changes.deep_view() =~= seq![]);
    push_enum_missing(&mut changes, &to.enums, &from.enums, true);
    push_enum_alters(&mut changes, &from.enums, &to.enums);
    push_enum_missing(&mut changes, &from.enums, &to.enums, false);
    push_table_missing(&mut changes, &to.tables, &from.tables, true);
    push_table_missing(&mut changes, &from.tables, &to.tables, false);
    push_common_table_changes(&mut changes, &from.tables, &to.tables);
    assert(changes.deep_view() =~= diff_spec(from@, to@));
    SchemaDiff { changes }
}

// ---------------------------------------------------------------------------
// A schema compared with itself
// ---------------------------------------------------------------------------

proof fn lemma_index_missing_none(t: Seq<char>, src: Seq<IndexV>, other: Seq<IndexV>, add: bool)
    requires
        forall|i: int| 0 <= i < src.len() ==> other.contains(#[trigger] src[i]),
    ensures
        index_missing(t, src, other, add) == Seq::<ChangeV>::empty(),
    decreases src.len(),
{
    if src.len() > 0 {
        lemma_index_missing_none(t, src.drop_last(), other, add);
        assert(other.contains(src[src.len() - 1]));
        assert(index_missing(t, src, other, add) =~= Seq::<ChangeV>::empty());
    }
}

proof fn lemma_fk_missing_none(t: Seq<char>, src: Seq<ForeignKeyV>, other: Seq<ForeignKeyV>, add: bool)
    requires
        forall|i: int| 0 <= i < src.len() ==> other.contains(#[trigger] src[i]),
    ensures
        fk_missing(t, src, other, add) == Seq::<ChangeV>::empty(),
    decreases src.len(),
{
    if src.len() > 0 {
        lemma_fk_missing_none(t, src.drop_last(), other, add);
        assert(other.contains(src[src.len() - 1]));
        assert(fk_missing(t, src, other, add) =~= Seq::<ChangeV>::empty());
    }
}

proof fn lemma_check_missing_none(
    t: Seq<char>,
    src: Seq<CheckConstraintV>,
    other: Seq<CheckConstraintV>,
    add: bool,
)
    requires
        forall|i: int| 0 <= i < src.len() ==> other.contains(#[trigger] src[i]),
    ensures
        check_missing(t, src, other, add) == Seq::<ChangeV>::empty(),
    decreases src.len(),
{
    if src.len() > 0 {
        lemma_check_missing_none(t, src.drop_last(), other, add);
        assert(other.contains(src[src.len() - 1]));
        assert(check_missing(t, src, other, add) =~= Seq::<ChangeV>::empty());
    }
}

proof fn lemma_unique_missing_none(
    t: Seq<char>,
    src: Seq<UniqueConstraintV>,
    other: Seq<UniqueConstraintV>,
    add: bool,
)
    requires
        forall|i: int| 0 <= i < src.len() ==> other.contains(#[trigger] src[i]),
    ensures
        unique_missing(t, src, other, add) == Seq::<ChangeV>::empty(),
    decreases src.len(),
{
    if src.len() > 0 {
        lemma_unique_missing_none(t, src.drop_last(), other, add);
        assert(other.contains(src[src.len() - 1]));
        assert(unique_missing(t, src, other, add) =~= Seq::<ChangeV>::empty());
    }
}

proof fn lemma_contains_own<A>(s: Seq<A>)
    ensures
        forall|i: int| 0 <= i < s.len() ==> s.contains(#[trigger] s[i]),
{
    assert forall|i: int| 0 <= i < s.len() implies s.contains(#[trigger] s[i]) by {
        assert(s[i] == s[i]);
    }
}

proof fn lemma_column_missing_self(t: Seq<char>, src: Seq<ColumnV>, cols: Seq<ColumnV>, add: bool)
    requires
        src.len() <= cols.len(),
        src == cols.take(src.len() as int),
    ensures
        column_missing(t, src, cols, add) == Seq::<ChangeV>::empty(),
    decreases src.len(),
{
    if src.len() > 0 {
        let k = src.len() - 1;
        assert(src.drop_last() == cols.take(k));
        lemma_column_missing_self(t, src.drop_last(), cols, add);
        assert(src.last() == cols[k]);
        let hits = column_hits(cols, cols[k].name);
        lemma_first_true_from(hits, 0);
        assert(hits[k]);
        assert(column_missing(t, src, cols, add) =~= Seq::<ChangeV>::empty());
    }
}

proof fn lemma_column_alters_self(t: Seq<char>, cols: Seq<ColumnV>, k: int)
    requires
        k <= cols.len(),
    ensures
        column_alters_upto(t, cols, cols, k) == Seq::<ChangeV>::empty(),
    decreases k,
{
    if k > 0 {
        lemma_column_alters_self(t, cols, k - 1);
        lemma_match_self(seq![], seq![], cols);
        assert(column_match(cols, cols, k - 1) == Some(k - 1));
        assert(column_alter_parts(cols[k - 1], cols[k - 1]) =~= Seq::<Seq<char>>::empty());
        assert(column_alters_upto(t, cols, cols, k) =~= Seq::<ChangeV>::empty());
    }
}

/// A table compared with itself has no changes.
pub proof fn lemma_table_changes_self(tab: TableV)
    ensures
        table_changes(tab, tab) == Seq::<ChangeV>::empty(),
{
    let t = tab.name;
    assert(tab.columns == tab.columns.take(tab.columns.len() as int));
    lemma_column_missing_self(t, tab.columns, tab.columns, false);
    lemma_column_missing_self(t, tab.columns, tab.columns, true);
    lemma_column_alters_self(t, tab.columns, tab.columns.len() as int);
    lemma_contains_own(tab.indexes);
    lemma_contains_own(tab.foreign_keys);
    lemma_contains_own(tab.check_constraints);
    lemma_contains_own(tab.unique_constraints);
    lemma_index_missing_none(t, tab.indexes, tab.indexes, false);
    lemma_index_missing_none(t, tab.indexes, tab.indexes, true);
    lemma_fk_missing_none(t, tab.foreign_keys, tab.foreign_keys, false);
    lemma_fk_missing_none(t, tab.foreign_keys, tab.foreign_keys, true);
    lemma_check_missing_none(t, tab.check_constraints, tab.check_constraints, false);
    lemma_check_missing_none(t, tab.check_constraints, tab.check_constraints, true);
    lemma_unique_missing_none(t, tab.unique_constraints, tab.unique_constraints, false);
    lemma_unique_missing_none(t, tab.unique_constraints, tab.unique_constraints, true);
    assert(table_changes(tab, tab) =~= Seq::<ChangeV>::empty());
}

proof fn lemma_table_missing_self(src: Seq<TableV>, ts: Seq<TableV>, add: bool)
    requires
        src.len() <= ts.len(),
        src == ts.take(src.len() as int),
    ensures
        table_missing(src, ts, add) == Seq::<ChangeV>::empty(),
    decreases src.len(),
{
    if src.len() > 0 {
        let k = src.len() - 1;
        assert(src.drop_last() == ts.take(k));
        lemma_table_missing_self(src.drop_last(), ts, add);
        assert(src.last() == ts[k]);
        let hits = table_hits(ts, ts[k].name);
        lemma_first_true_from(hits, 0);
        assert(hits[k]);
        assert(table_missing(src, ts, add) =~= Seq::<ChangeV>::empty());
    }
}

proof fn lemma_common_table_changes_self(ts: Seq<TableV>, k: int)
    requires
        k <= ts.len(),
    ensures
        common_table_changes_upto(ts, ts, k) == Seq::<ChangeV>::empty(),
    decreases k,
{
    if k > 0 {
        lemma_common_table_changes_self(ts, k - 1);
        lemma_match_self(ts, seq![], seq![]);
        assert(table_match(ts, ts, k - 1) == Some(k - 1));
        lemma_table_changes_self(ts[k - 1]);
        assert(common_table_changes_upto(ts, ts, k) =~= Seq::<ChangeV>::empty());
    }
}

proof fn lemma_enum_missing_self(src: Seq<EnumTypeV>, es: Seq<EnumTypeV>, add: bool)
    requires
        src.len() <= es.len(),
        src == es.take(src.len() as int),
    ensures
        enum_missing(src, es, add) == Seq::<ChangeV>::empty(),
    decreases src.len(),
{
    if src.len() > 0 {
        let k = src.len() - 1;
        assert(src.drop_last() == es.take(k));
        lemma_enum_missing_self(src.drop_last(), es, add);
        assert(src.last() == es[k]);
        let hits = enum_hits(es, es[k].name);
        lemma_first_true_from(hits, 0);
        assert(hits[k]);
        assert(enum_missing(src, es, add) =~= Seq::<ChangeV>::empty());
    }
}

proof fn lemma_enum_alters_self(es: Seq<EnumTypeV>, k: int)
    requires
        k <= es.len(),
    ensures
        enum_alters_upto(es, es, k) == Seq::<ChangeV>::empty(),
    decreases k,
{
    if k > 0 {
        lemma_enum_alters_self(es, k - 1);
        lemma_match_self(seq![], es, seq![]);
        assert(enum_match(es, es, k - 1) == Some(k - 1));
        assert(enum_alters_upto(es, es, k) =~= Seq::<ChangeV>::empty());
    }
}

/// Every schema compared with itself has no changes.
pub proof fn lemma_diff_self_empty(s: SchemaV)
    ensures
        diff_spec(s, s) == Seq::<ChangeV>::empty(),
{
    assert(s.tables == s.tables.take(s.tables.len() as int));
    assert(s.enums == s.enums.take(s.enums.len() as int));
    lemma_enum_missing_self(s.enums, s.enums, true);
    lemma_enum_missing_self(s.enums, s.enums, false);
    lemma_enum_alters_self(s.enums, s.enums.len() as int);
    lemma_table_missing_self(s.tables, s.tables, true);
    lemma_table_missing_self(s.tables, s.tables, false);
    lemma_common_table_changes_self(s.tables, s.tables.len() as int);
    assert(diff_spec(s, s) =~= Seq::<ChangeV>::empty());
}


proof fn lemma_table_named(ts: Seq<TableV>, name: Seq<char>)
    ensures
        table_pos(ts, name) is Some <==> exists|k: int| 0 <= k < ts.len() && #[trigger] ts[k].name
            == name,
{
    let h = table_hits(ts, name);
    lemma_first_true_from(h, 0);
    if exists|k: int| 0 <= k < ts.len() && #[trigger] ts[k].name == name {
        let k = choose|k: int| 0 <= k < ts.len() && #[trigger] ts[k].name == name;
        assert(h[k]);
    }
}

proof fn lemma_enum_named(es: Seq<EnumTypeV>, name: Seq<char>)
    ensures
        enum_pos(es, name) is Some <==> exists|k: int| 0 <= k < es.len() && #[trigger] es[k].name
            == name,
{
    let h = enum_hits(es, name);
    lemma_first_true_from(h, 0);
    if exists|k: int| 0 <= k < es.len() && #[trigger] es[k].name == name {
        let k = choose|k: int| 0 <= k < es.len() && #[trigger] es[k].name == name;
        assert(h[k]);
    }
}

proof fn lemma_concat_has(a: Seq<ChangeV>, b: Seq<ChangeV>, x: ChangeV)
    ensures
        (a + b).contains(x) <==> (a.contains(x) || b.contains(x)),
{
    if a.contains(x) {
        let k = choose|k: int| 0 <= k < a.len() && a[k] == x;
        assert((a + b)[k] == x);
    }
    if b.contains(x) {
        let k = choose|k: int| 0 <= k < b.len() && b[k] == x;
        assert((a + b)[a.len() + k] == x);
    }
    if (a + b).contains(x) {
        let k = choose|k: int| 0 <= k < (a + b).len() && (a + b)[k] == x;
        if k < a.len() {
            assert(a[k] == x);
        } else {
            assert(b[k - a.len()] == x);
        }
    }
}

proof fn lemma_table_missing_members(src: Seq<TableV>, other: Seq<TableV>, add: bool, x: ChangeV)
    ensures
        table_missing(src, other, add).contains(x) <==> exists|i: int|
            0 <= i < src.len() && (forall|k: int|
                0 <= k < other.len() ==> other[k].name != (#[trigger] src[i]).name) && x == if add {
                ChangeV::AddTable(src[i].name)
            } else {
                ChangeV::DropTable(src[i].name)
            },
    decreases src.len(),
{
    if src.len() > 0 {
        let init = src.drop_last();
        lemma_table_missing_members(init, other, add, x);
        let t = src.last();
        lemma_table_named(other, t.name);
        let b = if table_pos(other, t.name) is Some {
            seq![]
        } else {
            seq![
                if add {
                    ChangeV::AddTable(t.name)
                } else {
                    ChangeV::DropTable(t.name)
                },
            ]
        };
        assert(table_missing(src, other, add) == table_missing(init, other, add) + b);
        lemma_concat_has(table_missing(init, other, add), b, x);
        if exists|i: int|
            0 <= i < src.len() && (forall|k: int|
                0 <= k < other.len() ==> other[k].name != (#[trigger] src[i]).name) && x == if add {
                ChangeV::AddTable(src[i].name)
            } else {
                ChangeV::DropTable(src[i].name)
            } {
            let i = choose|i: int|
                0 <= i < src.len() && (forall|k: int|
                    0 <= k < other.len() ==> other[k].name != (#[trigger] src[i]).name) && x
                    == if add {
                    ChangeV::AddTable(src[i].name)
                } else {
                    ChangeV::DropTable(src[i].name)
                };
            if i < init.len() {
                assert(init[i] == src[i]);
            } else {
                assert(src[i] == t);
                assert(b[0] == x);
            }
        }
        if table_missing(init, other, add).contains(x) {
            let i = choose|i: int|
                0 <= i < init.len() && (forall|k: int|
                    0 <= k < other.len() ==> other[k].name != (#[trigger] init[i]).name) && x
                    == if add {
                    ChangeV::AddTable(init[i].name)
                } else {
                    ChangeV::DropTable(init[i].name)
                };
            assert(src[i] == init[i]);
        }
        if b.contains(x) {
            assert(src[src.len() - 1] == t);
        }
    }
}

proof fn lemma_enum_missing_has(src: Seq<EnumTypeV>, other: Seq<EnumTypeV>, add: bool, i: int)
    requires
        0 <= i < src.len(),
        forall|k: int| 0 <= k < other.len() ==> other[k].name != src[i].name,
    ensures
        enum_missing(src, other, add).contains(
            if add {
                ChangeV::AddEnum { name: src[i].name }
            } else {
                ChangeV::DropEnum { name: src[i].name }
            },
        ),
    decreases src.len(),
{
    let init = src.drop_last();
    let e = src.last();
    let x = if add {
        ChangeV::AddEnum { name: src[i].name }
    } else {
        ChangeV::DropEnum { name: src[i].name }
    };
    lemma_enum_named(other, e.name);
    let b = if enum_pos(other, e.name) is Some {
        seq![]
    } else {
        seq![
            if add {
                ChangeV::AddEnum { name: e.name }
            } else {
                ChangeV::DropEnum { name: e.name }
            },
        ]
    };
    assert(enum_missing(src, other, add) == enum_missing(init, other, add) + b);
    lemma_concat_has(enum_missing(init, other, add), b, x);
    if i < init.len() {
        assert(init[i] == src[i]);
        lemma_enum_missing_has(init, other, add, i);
    } else {
        assert(src[i] == e);
        if enum_pos(other, e.name) is Some {
            let k = choose|k: int| 0 <= k < other.len() && #[trigger] other[k].name == e.name;
            assert(other[k].name != src[i].name);
        }
        assert(b[0] == x);
    }
}

/// Diffing two schemas adds every table and enum type of the new schema
/// whose name the old schema lacks, and drops every table and enum type of
/// the old schema whose name the new schema lacks.
pub proof fn lemma_diff_adds_and_drops(from: SchemaV, to: SchemaV)
    ensures
        forall|i: int|
            0 <= i < to.tables.len() && (forall|k: int|
                0 <= k < from.tables.len() ==> from.tables[k].name != (#[trigger] to.tables[i]).name)
                ==> diff_spec(from, to).contains(ChangeV::AddTable(to.tables[i].name)),
        forall|i: int|
            0 <= i < from.tables.len() && (forall|k: int|
                0 <= k < to.tables.len() ==> to.tables[k].name != (#[trigger] from.tables[i]).name)
                ==> diff_spec(from, to).contains(ChangeV::DropTable(from.tables[i].name)),
        forall|i: int|
            0 <= i < to.enums.len() && (forall|k: int|
                0 <= k < from.enums.len() ==> from.enums[k].name != (#[trigger] to.enums[i]).name)
                ==> diff_spec(from, to).contains(ChangeV::AddEnum { name: to.enums[i].name }),
        forall|i: int|
            0 <= i < from.enums.len() && (forall|k: int|
                0 <= k < to.enums.len() ==> to.enums[k].name != (#[trigger] from.enums[i]).name)
                ==> diff_spec(from, to).contains(ChangeV::DropEnum { name: from.enums[i].name }),
{
    let e1 = enum_missing(to.enums, from.enums, true);
    let e2 = enum_alters(from.enums, to.enums);
    let e3 = enum_missing(from.enums, to.enums, false);
    let t1 = table_missing(to.tables, from.tables, true);
    let t2 = table_missing(from.tables, to.tables, false);
    let t3 = common_table_changes(from.tables, to.tables);
    let d = diff_spec(from, to);
    assert(d == e1 + e2 + e3 + t1 + t2 + t3);
    assert forall|x: ChangeV| e1.contains(x) || e3.contains(x) || t1.contains(x) || t2.contains(x)
        implies #[trigger] d.contains(x) by {
        lemma_concat_has(e1, e2, x);
        lemma_concat_has(e1 + e2, e3, x);
        lemma_concat_has(e1 + e2 + e3, t1, x);
        lemma_concat_has(e1 + e2 + e3 + t1, t2, x);
        lemma_concat_has(e1 + e2 + e3 + t1 + t2, t3, x);
    }
    assert forall|i: int|
        0 <= i < to.tables.len() && (forall|k: int|
            0 <= k < from.tables.len() ==> from.tables[k].name != (#[trigger] to.tables[i]).name)
            implies d.contains(ChangeV::AddTable(to.tables[i].name)) by {
        lemma_table_missing_members(to.tables, from.tables, true, ChangeV::AddTable(to.tables[i].name));
    }
    assert forall|i: int|
        0 <= i < from.tables.len() && (forall|k: int|
            0 <= k < to.tables.len() ==> to.tables[k].name != (#[trigger] from.tables[i]).name)
            implies d.contains(ChangeV::DropTable(from.tables[i].name)) by {
        lemma_table_missing_members(from.tables, to.tables, false, ChangeV::DropTable(from.tables[i].name));
    }
    assert forall|i: int|
        0 <= i < to.enums.len() && (forall|k: int|
            0 <= k < from.enums.len() ==> from.enums[k].name != (#[trigger] to.enums[i]).name)
            implies d.contains(ChangeV::AddEnum { name: to.enums[i].name }) by {
        lemma_enum_missing_has(to.enums, from.enums, true, i);
    }
    assert forall|i: int|
        0 <= i < from.enums.len() && (forall|k: int|
            0 <= k < to.enums.len() ==> to.enums[k].name != (#[trigger] from.enums[i]).name)
            implies d.contains(ChangeV::DropEnum { name: from.enums[i].name }) by {
        lemma_enum_missing_has(from.enums, to.enums, false, i);
    }
}


proof fn lemma_column_missing_has(t: Seq<char>, src: Seq<ColumnV>, other: Seq<ColumnV>, add: bool, i: int)
    requires
        0 <= i < src.len(),
        forall|k: int| 0 <= k < other.len() ==> other[k].name != src[i].name,
    ensures
        column_missing(t, src, other, add).contains(
            if add {
                ChangeV::AddColumn { table: t, column: src[i].name }
            } else {
                ChangeV::DropColumn { table: t, column: src[i].name }
            },
        ),
    decreases src.len(),
{
    let init = src.drop_last();
    let c = src.last();
    let x = if add {
        ChangeV::AddColumn { table: t, column: src[i].name }
    } else {
        ChangeV::DropColumn { table: t, column: src[i].name }
    };
    let h = column_hits(other, c.name);
    lemma_first_true_from(h, 0);
    let b = if column_pos(other, c.name) is Some {
        seq![]
    } else {
        seq![
            if add {
                ChangeV::AddColumn { table: t, column: c.name }
            } else {
                ChangeV::DropColumn { table: t, column: c.name }
            },
        ]
    };
    assert(column_missing(t, src, other, add) == column_missing(t, init, other, add) + b);
    lemma_concat_has(column_missing(t, init, other, add), b, x);
    if i < init.len() {
        assert(init[i] == src[i]);
        lemma_column_missing_has(t, init, other, add, i);
    } else {
        assert(src[i] == c);
        if column_pos(other, c.name) is Some {
            let k = column_pos(other, c.name)->0;
            assert(h[k]);
            assert(other[k].name != src[i].name);
        }
        assert(b[0] == x);
    }
}

proof fn lemma_common_changes_has(old: Seq<TableV>, new: Seq<TableV>, k: int, j: int, m: int, x: ChangeV)
    requires
        0 <= j < k <= new.len(),
        table_match(old, new, j) == Some(m),
        table_changes(old[m], new[j]).contains(x),
    ensures
        common_table_changes_upto(old, new, k).contains(x),
    decreases k,
{
    let a = common_table_changes_upto(old, new, k - 1);
    let b = match table_match(old, new, k - 1) {
        Some(mm) => table_changes(old[mm], new[k - 1]),
        None => seq![],
    };
    assert(common_table_changes_upto(old, new, k) == a + b);
    lemma_concat_has(a, b, x);
    if j < k - 1 {
        lemma_common_changes_has(old, new, k - 1, j, m, x);
    }
}

/// Within a table of the new schema and the table of the old schema it is
/// paired with (`table_match`: same name, as many of that name before it),
/// diffing adds every column whose name the old table lacks and drops every
/// column whose name the new table lacks.
pub proof fn lemma_diff_adds_and_drops_columns(from: SchemaV, to: SchemaV, j: int, m: int)
    requires
        0 <= j < to.tables.len(),
        table_match(from.tables, to.tables, j) == Some(m),
    ensures
        forall|c: int|
            0 <= c < to.tables[j].columns.len() && (forall|k: int|
                0 <= k < from.tables[m].columns.len() ==> from.tables[m].columns[k].name
                    != (#[trigger] to.tables[j].columns[c]).name) ==> diff_spec(from, to).contains(
                ChangeV::AddColumn { table: to.tables[j].name, column: to.tables[j].columns[c].name },
            ),
        forall|c: int|
            0 <= c < from.tables[m].columns.len() && (forall|k: int|
                0 <= k < to.tables[j].columns.len() ==> to.tables[j].columns[k].name
                    != (#[trigger] from.tables[m].columns[c]).name) ==> diff_spec(from, to).contains(
                ChangeV::DropColumn {
                    table: to.tables[j].name,
                    column: from.tables[m].columns[c].name,
                },
            ),
{
    let o = from.tables[m];
    let n = to.tables[j];
    let e1 = enum_missing(to.enums, from.enums, true);
    let e2 = enum_alters(from.enums, to.enums);
    let e3 = enum_missing(from.enums, to.enums, false);
    let t1 = table_missing(to.tables, from.tables, true);
    let t2 = table_missing(from.tables, to.tables, false);
    let t3 = common_table_changes(from.tables, to.tables);
    let d = diff_spec(from, to);
    assert(d == (e1 + e2 + e3 + t1 + t2) + t3);
    let tc = table_changes(o, n);
    let cd = column_missing(n.name, o.columns, n.columns, false);
    let ca = column_missing(n.name, n.columns, o.columns, true);
    let rest = tc.subrange((cd.len() + ca.len()) as int, tc.len() as int);
    assert(tc =~= cd + ca + rest);
    assert forall|x: ChangeV| cd.contains(x) || ca.contains(x) implies #[trigger] d.contains(x) by {
        lemma_concat_has(cd, ca, x);
        lemma_concat_has(cd + ca, rest, x);
        lemma_common_changes_has(from.tables, to.tables, to.tables.len() as int, j, m, x);
        lemma_concat_has(e1 + e2 + e3 + t1 + t2, t3, x);
    }
    assert forall|c: int|
        0 <= c < n.columns.len() && (forall|k: int|
            0 <= k < o.columns.len() ==> o.columns[k].name != (#[trigger] n.columns[c]).name)
            implies d.contains(ChangeV::AddColumn { table: n.name, column: n.columns[c].name }) by {
        lemma_column_missing_has(n.name, n.columns, o.columns, true, c);
    }
    assert forall|c: int|
        0 <= c < o.columns.len() && (forall|k: int|
            0 <= k < n.columns.len() ==> n.columns[k].name != (#[trigger] o.columns[c]).name)
            implies d.contains(ChangeV::DropColumn { table: n.name, column: o.columns[c].name }) by {
        lemma_column_missing_has(n.name, o.columns, n.columns, false, c);
    }
}

} // verus!
