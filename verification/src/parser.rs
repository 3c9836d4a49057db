//! SQL migration parser.
//!
//! Parses DDL statements from SQL migration text into `Schema` objects.
//! Supports both Postgres and MySQL dialects. Text positions are character
//! positions; keywords are matched after ASCII upper-casing.
use vstd::prelude::*;
use crate::config::Engine;
use crate::error::ParseError;
use std::path::Path;
use crate::schema::{
    CheckConstraint, CheckConstraintV, Column, ColumnDefault, ColumnDefaultV, ColumnV, DataType,
    DataTypeV, ForeignKey, ForeignKeyAction, ForeignKeyV, PrimaryKey, PrimaryKeyV, Schema,
    SchemaV, Table, TableOptions, TableOptionsV, TableV, UniqueConstraint, UniqueConstraintV,
    EnumType, EnumTypeV, Index, IndexV, distinct_enum_names, distinct_table_names, empty_table,
    enum_hits, enum_pos, find_enum, find_table, table_hits, table_pos,
};
use crate::text::{
    find_word, find_word_exec, contains_word, contains_word_exec, starts_with_word,
    starts_with_word_exec,
    lemma_first_true, lemma_first_true_from, lemma_trim_edges,
    alphanumeric, char_is_alphanumeric, matches_at_exec,
    char_is_ws, chars_eq, chars_to_string, contains, contains_exec, find, first_word, first_word_exec, find_char,
    find_char_exec, find_exec, is_ws, lemma_find_char, lemma_trim_upper, opt_int, parse_u32, parse_u32_exec,
    lemma_find_from, matches_at, rfind_char, rfind_char_exec, starts_with, starts_with_exec, split_char, split_char_exec, str_to_chars, to_upper, trim,
    trim_end_matches, trim_end_matches_exec, trim_exec, trim_matches, trim_matches_exec,
    unquote, unquote_exec, upper, views,
};

verus! {

// ---------------------------------------------------------------------------
// Parenthesis matching
// ---------------------------------------------------------------------------

/// Scans from `i` for the `)` that closes an already-open parenthesis,
/// skipping quoted text and nested parentheses.
pub open spec fn paren_from(s: Seq<char>, i: int, depth: nat, in_string: bool, quote: char) -> Option<
    int,
>
    decreases s.len() - i,
{
    if i < 0 || i >= s.len() {
        None
    } else {
        let ch = s[i];
        if in_string {
            paren_from(s, i + 1, depth, ch != quote, quote)
        } else if ch == '\'' || ch == '"' {
            paren_from(s, i + 1, depth, true, ch)
        } else if ch == '(' {
            paren_from(s, i + 1, depth + 1, false, quote)
        } else if ch == ')' {
            if depth == 0 {
                Some(i)
            } else {
                paren_from(s, i + 1, (depth - 1) as nat, false, quote)
            }
        } else {
            paren_from(s, i + 1, depth, false, quote)
        }
    }
}

/// Position of the `)` matching an opening parenthesis just before `s`.
pub open spec fn matching_paren(s: Seq<char>) -> Option<int> {
    paren_from(s, 0, 0, false, '\'')
}

proof fn lemma_paren_from_bound(s: Seq<char>, i: int, depth: nat, in_string: bool, quote: char)
    ensures
        paren_from(s, i, depth, in_string, quote) matches Some(k) ==> 0 <= k < s.len(),
    decreases s.len() - i,
{
    if 0 <= i < s.len() {
        let ch = s[i];
        if in_string {
            lemma_paren_from_bound(s, i + 1, depth, ch != quote, quote);
        } else if ch == '\'' || ch == '"' {
            lemma_paren_from_bound(s, i + 1, depth, true, ch);
        } else if ch == '(' {
            lemma_paren_from_bound(s, i + 1, depth + 1, false, quote);
        } else if ch == ')' {
            if depth != 0 {
                lemma_paren_from_bound(s, i + 1, (depth - 1) as nat, false, quote);
            }
        } else {
            lemma_paren_from_bound(s, i + 1, depth, false, quote);
        }
    }
}

pub fn find_matching_paren(s: &[char]) -> (r: Option<usize>)
    ensures
        opt_int(r) == matching_paren(s@),
        r matches Some(k) ==> k < s@.len(),
{
    proof {
        lemma_paren_from_bound(s@, 0, 0, false, '\'');
    }
    let mut depth: usize = 0;
    let mut in_string = false;
    let mut quote = '\'';
    let mut i: usize = 0;
    while i < s.len()
        invariant
            i <= s.len(),
            depth <= i,
            matching_paren(s@) == paren_from(s@, i as int, depth as nat, in_string, quote),
        decreases s.len() - i,
    {
        let ch = s[i];
        if in_string {
            if ch == quote {
                in_string = false;
            }
        } else if ch == '\'' || ch == '"' {
            in_string = true;
            quote = ch;
        } else if ch == '(' {
            depth += 1;
        } else if ch == ')' {
            if depth == 0 {
                return Some(i);
            }
            depth -= 1;
        }
        i += 1;
    }
    None
}

// ---------------------------------------------------------------------------
// Splitting a table body at top-level commas
// ---------------------------------------------------------------------------

/// Pieces between commas outside quotes and parentheses, each trimmed; a
/// trailing empty piece is dropped.
pub open spec fn comma_from(
    s: Seq<char>,
    i: int,
    parts: Seq<Seq<char>>,
    cur: Seq<char>,
    depth: int,
    in_string: bool,
    quote: char,
) -> Seq<Seq<char>>
    decreases s.len() - i,
{
    if i < 0 || i >= s.len() {
        if trim(cur).len() > 0 {
            parts.push(trim(cur))
        } else {
            parts
        }
    } else {
        let ch = s[i];
        if in_string {
            comma_from(s, i + 1, parts, cur.push(ch), depth, ch != quote, quote)
        } else if ch == '\'' || ch == '"' {
            comma_from(s, i + 1, parts, cur.push(ch), depth, true, ch)
        } else if ch == '(' {
            comma_from(s, i + 1, parts, cur.push(ch), depth + 1, false, quote)
        } else if ch == ')' {
            comma_from(s, i + 1, parts, cur.push(ch), depth - 1, false, quote)
        } else if ch == ',' && depth == 0 {
            comma_from(s, i + 1, parts.push(trim(cur)), seq![], depth, false, quote)
        } else {
            comma_from(s, i + 1, parts, cur.push(ch), depth, false, quote)
        }
    }
}

pub open spec fn split_by_comma_spec(s: Seq<char>) -> Seq<Seq<char>> {
    comma_from(s, 0, seq![], seq![], 0, false, '\'')
}

pub fn split_by_comma(s: &[char]) -> (r: Vec<Vec<char>>)
    ensures
        views(r@) == split_by_comma_spec(s@),
{
    let mut parts: Vec<Vec<char>> = Vec::new();
    let mut cur: Vec<char> = Vec::new();
    let mut opens: usize = 0;
    let mut closes: usize = 0;
    let mut in_string = false;
    let mut quote = '\'';
    let mut i: usize = 0;
    assert(views(parts@) =~= seq![]);
    while i < s.len()
        invariant
            i <= s.len(),
            opens <= i,
            closes <= i,
            split_by_comma_spec(s@) == comma_from(
                s@,
                i as int,
                views(parts@),
                cur@,
                opens - closes,
                in_string,
                quote,
            ),
        decreases s.len() - i,
    {
        let ch = s[i];
        if in_string {
            cur.push(ch);
            if ch == quote {
                in_string = false;
            }
        } else if ch == '\'' || ch == '"' {
            in_string = true;
            quote = ch;
            cur.push(ch);
        } else if ch == '(' {
            opens += 1;
            cur.push(ch);
        } else if ch == ')' {
            closes += 1;
            cur.push(ch);
        } else if ch == ',' && opens == closes {
            let t = trim_exec(cur.as_slice());
            let tv = vstd::slice::slice_to_vec(t);
            let ghost before = views(parts@);
            parts.push(tv);
            assert(views(parts@) =~= before.push(trim(cur@)));
            cur = Vec::new();
            assert(cur@ =~= seq![]);
        } else {
            cur.push(ch);
        }
        i += 1;
    }
    let t = trim_exec(cur.as_slice());
    if t.len() > 0 {
        let tv = vstd::slice::slice_to_vec(t);
        let ghost before = views(parts@);
        parts.push(tv);
        assert(views(parts@) =~= before.push(trim(cur@)));
    }
    parts
}

// ---------------------------------------------------------------------------
// Tokenizing a column definition
// ---------------------------------------------------------------------------

/// Whitespace-separated tokens outside quotes (`'`, `"`, `` ` ``) and
/// parentheses.
pub open spec fn token_from(
    s: Seq<char>,
    i: int,
    toks: Seq<Seq<char>>,
    cur: Seq<char>,
    depth: int,
    in_string: bool,
    quote: char,
) -> Seq<Seq<char>>
    decreases s.len() - i,
{
    if i < 0 || i >= s.len() {
        if cur.len() > 0 {
            toks.push(cur)
        } else {
            toks
        }
    } else {
        let ch = s[i];
        if in_string {
            token_from(s, i + 1, toks, cur.push(ch), depth, ch != quote, quote)
        } else if ch == '\'' || ch == '"' || ch == '`' {
            token_from(s, i + 1, toks, cur.push(ch), depth, true, ch)
        } else if ch == '(' {
            token_from(s, i + 1, toks, cur.push(ch), depth + 1, false, quote)
        } else if ch == ')' {
            token_from(s, i + 1, toks, cur.push(ch), depth - 1, false, quote)
        } else if is_ws(ch) && depth == 0 {
            if cur.len() > 0 {
                token_from(s, i + 1, toks.push(cur), seq![], depth, false, quote)
            } else {
                token_from(s, i + 1, toks, cur, depth, false, quote)
            }
        } else {
            token_from(s, i + 1, toks, cur.push(ch), depth, false, quote)
        }
    }
}

pub open spec fn tokenize_spec(s: Seq<char>) -> Seq<Seq<char>> {
    token_from(s, 0, seq![], seq![], 0, false, '\'')
}

pub fn tokenize_column_def(s: &[char]) -> (r: Vec<Vec<char>>)
    ensures
        views(r@) == tokenize_spec(s@),
{
    let mut toks: Vec<Vec<char>> = Vec::new();
    let mut cur: Vec<char> = Vec::new();
    let mut opens: usize = 0;
    let mut closes: usize = 0;
    let mut in_string = false;
    let mut quote = '\'';
    let mut i: usize = 0;
    assert(views(toks@) =~= seq![]);
    while i < s.len()
        invariant
            i <= s.len(),
            opens <= i,
            closes <= i,
            tokenize_spec(s@) == token_from(
                s@,
                i as int,
                views(toks@),
                cur@,
                opens - closes,
                in_string,
                quote,
            ),
        decreases s.len() - i,
    {
        let ch = s[i];
        if in_string {
            cur.push(ch);
            if ch == quote {
                in_string = false;
            }
        } else if ch == '\'' || ch == '"' || ch == '`' {
            in_string = true;
            quote = ch;
            cur.push(ch);
        } else if ch == '(' {
            opens += 1;
            cur.push(ch);
        } else if ch == ')' {
            closes += 1;
            cur.push(ch);
        } else if char_is_ws(ch) && opens == closes {
            if cur.len() > 0 {
                let ghost before = views(toks@);
                let ghost c = cur@;
                let mut fresh: Vec<char> = Vec::new();
                std::mem::swap(&mut fresh, &mut cur);
                toks.push(fresh);
                assert(views(toks@) =~= before.push(c));
                assert(cur@ =~= seq![]);
            }
        } else {
            cur.push(ch);
        }
        i += 1;
    }
    if cur.len() > 0 {
        let ghost before = views(toks@);
        let ghost c = cur@;
        toks.push(cur);
        assert(views(toks@) =~= before.push(c));
    }
    toks
}

// ---------------------------------------------------------------------------
// Parenthesized lists and constraint names
// ---------------------------------------------------------------------------

/// Unquoted, trimmed pieces that are not empty, in order.
pub open spec fn unquoted_nonempty(pieces: Seq<Seq<char>>) -> Seq<Seq<char>>
    decreases pieces.len(),
{
    if pieces.len() == 0 {
        seq![]
    } else {
        unquoted_nonempty(pieces.drop_last()) + if unquote(trim(pieces.last())).len() > 0 {
            seq![unquote(trim(pieces.last()))]
        } else {
            seq![]
        }
    }
}

/// Comma-separated names inside the first `( ... )` group.
pub open spec fn paren_list(s: Seq<char>) -> Option<Seq<Seq<char>>> {
    match find_char(s, '(') {
        Some(start) => {
            let inner = s.subrange(start + 1, s.len() as int);
            match matching_paren(inner) {
                Some(end) => Some(unquoted_nonempty(split_char(inner.subrange(0, end), ','))),
                None => None,
            }
        },
        None => None,
    }
}

fn unquoted_nonempty_exec(pieces: &Vec<Vec<char>>) -> (r: Vec<String>)
    ensures
        r.deep_view() == unquoted_nonempty(views(pieces@)),
{
    let ghost pv = views(pieces@);
    let mut r: Vec<String> = Vec::new();
    let mut i: usize = 0;
    while i < pieces.len()
        invariant
            i <= pieces.len(),
            pv == views(pieces@),
            pv.len() == pieces@.len(),
            r.deep_view() == unquoted_nonempty(pv.take(i as int)),
        decreases pieces.len() - i,
    {
        assert(pv.take(i + 1).drop_last() =~= pv.take(i as int));
        assert(pv[i as int] == pieces@[i as int]@);
        let u = unquote_exec(trim_exec(pieces[i].as_slice()));
        let ghost before = r.deep_view();
        if u.len() > 0 {
            let us = crate::text::chars_to_string(u.as_slice());
            r.push(us);
            assert(r.deep_view() =~= before.push(u@));
        } else {
            assert(before + seq![] =~= before);
        }
        i += 1;
    }
    assert(pv.take(pieces.len() as int) =~= pv);
    r
}

pub fn extract_paren_list(s: &[char]) -> (r: Option<Vec<String>>)
    ensures
        match r {
            Some(v) => paren_list(s@) == Some(v.deep_view()),
            None => paren_list(s@) is None,
        },
{
    let start = match find_char_exec(s, '(') {
        Some(p) => p,
        None => return None,
    };
    let sl = s.len();
    let inner = &s[start + 1..sl];
    let end = match find_matching_paren(inner) {
        Some(e) => e,
        None => return None,
    };
    let pieces = split_char_exec(&inner[0..end], ',');
    Some(unquoted_nonempty_exec(&pieces))
}

/// Position of the first whitespace or `(` at or after `i`, else the length.
pub open spec fn name_end_from(s: Seq<char>, i: int) -> int
    decreases s.len() - i,
{
    if i < 0 || i >= s.len() {
        s.len() as int
    } else if is_ws(s[i]) || s[i] == '(' {
        i
    } else {
        name_end_from(s, i + 1)
    }
}

/// The name after the first `CONSTRAINT` keyword (a whole word), if there is
/// one.
pub open spec fn constraint_name(s: Seq<char>) -> Option<Seq<char>> {
    match find_word(upper(s), "CONSTRAINT"@) {
        Some(pos) => {
            let after = trim(s.subrange(pos + "CONSTRAINT"@.len(), s.len() as int));
            let name = trim(after.subrange(0, name_end_from(after, 0)));
            if name.len() > 0 {
                Some(unquote(name))
            } else {
                None
            }
        },
        None => None,
    }
}

pub fn extract_constraint_name(s: &[char]) -> (r: Option<String>)
    ensures
        r.deep_view() == constraint_name(s@),
{
    let up = to_upper(s);
    let kw = str_to_chars("CONSTRAINT");
    match find_word_exec(up.as_slice(), kw.as_slice()) {
        Some(pos) => {
            let sl = s.len();
            let after = trim_exec(&s[pos + kw.len()..sl]);
            let mut k: usize = 0;
            while k < after.len() && !(char_is_ws(after[k]) || after[k] == '(')
                invariant
                    k <= after@.len(),
                    name_end_from(after@, 0) == name_end_from(after@, k as int),
                decreases after.len() - k,
            {
                k += 1;
            }
            let name = trim_exec(&after[0..k]);
            if name.len() > 0 {
                let u = unquote_exec(name);
                Some(crate::text::chars_to_string(u.as_slice()))
            } else {
                None
            }
        },
        None => None,
    }
}

/// A name with any `schema.` qualification removed (text after the last `.`).
pub open spec fn strip_schema(name: Seq<char>) -> Seq<char> {
    match rfind_char(name, '.') {
        Some(d) => name.subrange(d + 1, name.len() as int),
        None => name,
    }
}

pub fn strip_schema_exec(name: &[char]) -> (r: Vec<char>)
    ensures
        r@ == strip_schema(name@),
{
    match rfind_char_exec(name, '.') {
        Some(d) => {
            let nl = name.len();
            vstd::slice::slice_to_vec(&name[d + 1..nl])
        },
        None => vstd::slice::slice_to_vec(name),
    }
}

// ---------------------------------------------------------------------------
// Data types
// ---------------------------------------------------------------------------

/// Whether `a` is exactly the text `lit`.
fn lit_eq(a: &[char], lit: &str) -> (r: bool)
    ensures
        r == (a@ == lit@),
{
    let l = str_to_chars(lit);
    chars_eq(a, l.as_slice())
}

/// The text inside a type's parentheses: from after the `(` at `p` up to a
/// final `)`, with any further trailing `)` removed.
pub open spec fn type_params(t: Seq<char>, p: int) -> Seq<char> {
    let end = if t.len() > 0 && t[t.len() - 1] == ')' {
        t.len() - 1
    } else {
        t.len() as int
    };
    trim_end_matches(t.subrange(p + 1, end), ')')
}

fn type_params_exec(t: &[char], p: usize) -> (r: Vec<char>)
    requires
        p < t@.len(),
        t@[p as int] == '(',
    ensures
        r@ == type_params(t@, p as int),
{
    let n = t.len();
    let end = if n > 0 && t[n - 1] == ')' {
        n - 1
    } else {
        n
    };
    vstd::slice::slice_to_vec(trim_end_matches_exec(&t[p + 1..end], ')'))
}

/// The characters of an optional character vector.
pub open spec fn opt_chars(p: Option<Vec<char>>) -> Option<Seq<char>> {
    match p {
        Some(v) => Some(v@),
        None => None,
    }
}

/// A length or precision parameter: the trimmed parameter text as a `u32`.
pub open spec fn sized(p: Option<Seq<char>>) -> Option<u32> {
    match p {
        Some(s) => parse_u32(trim(s)),
        None => None,
    }
}

fn sized_exec(p: &Option<Vec<char>>) -> (r: Option<u32>)
    ensures
        r == sized(opt_chars(*p)),
{
    match p {
        Some(s) => parse_u32_exec(trim_exec(s.as_slice())),
        None => None,
    }
}

/// `NUMERIC(p, s)` parameters: the first and second comma-separated pieces.
pub open spec fn precision_scale(p: Option<Seq<char>>) -> (Option<u32>, Option<u32>) {
    match p {
        None => (None, None),
        Some(s) => {
            let parts = split_char(s, ',');
            (
                parse_u32(trim(parts[0])),
                if parts.len() > 1 {
                    parse_u32(trim(parts[1]))
                } else {
                    None
                },
            )
        },
    }
}

fn precision_scale_exec(p: &Option<Vec<char>>) -> (r: (Option<u32>, Option<u32>))
    ensures
        r == precision_scale(opt_chars(*p)),
{
    match p {
        None => (None, None),
        Some(s) => {
            let parts = split_char_exec(s.as_slice(), ',');
            proof {
                assert(views(parts@)[0] == parts@[0]@);
            }
            let prec = parse_u32_exec(trim_exec(parts[0].as_slice()));
            let scale = if parts.len() > 1 {
                proof {
                    assert(views(parts@)[1] == parts@[1]@);
                }
                parse_u32_exec(trim_exec(parts[1].as_slice()))
            } else {
                None
            };
            (prec, scale)
        },
    }
}

/// An `ENUM`/`SET` value with surrounding whitespace and quotes removed.
pub open spec fn clean_value(v: Seq<char>) -> Seq<char> {
    trim_matches(trim_matches(trim(v), '\''), '"')
}

pub open spec fn clean_values(pieces: Seq<Seq<char>>) -> Seq<Seq<char>>
    decreases pieces.len(),
{
    if pieces.len() == 0 {
        seq![]
    } else {
        clean_values(pieces.drop_last()).push(clean_value(pieces.last()))
    }
}

/// The comma-separated values of an inline `ENUM(...)` or `SET(...)`.
pub open spec fn value_list(p: Option<Seq<char>>) -> Seq<Seq<char>> {
    match p {
        Some(s) => clean_values(split_char(s, ',')),
        None => seq![],
    }
}

fn value_list_exec(p: &Option<Vec<char>>) -> (r: Vec<String>)
    ensures
        r.deep_view() == value_list(opt_chars(*p)),
{
    let mut r: Vec<String> = Vec::new();
    match p {
        None => {
            assert(r.deep_view() =~= seq![]);
            r
        },
        Some(s) => {
            let pieces = split_char_exec(s.as_slice(), ',');
            let ghost pv = views(pieces@);
            let mut i: usize = 0;
            assert(pv.take(0) =~= seq![]);
            assert(r.deep_view() =~= seq![]);
            while i < pieces.len()
                invariant
                    i <= pieces.len(),
                    pv == views(pieces@),
                    pv.len() == pieces@.len(),
                    r.deep_view() == clean_values(pv.take(i as int)),
                decreases pieces.len() - i,
            {
                assert(pv.take(i + 1).drop_last() =~= pv.take(i as int));
                assert(pv[i as int] == pieces@[i as int]@);
                let v = trim_matches_exec(
                    trim_matches_exec(trim_exec(pieces[i].as_slice()), '\''),
                    '"',
                );
                let ghost before = r.deep_view();
                r.push(chars_to_string(v));
                assert(r.deep_view() =~= before.push(v@));
                i += 1;
            }
            assert(pv.take(pieces.len() as int) =~= pv);
            r
        },
    }
}

/// A token after the type that marks a time zone (`WITH ...`, `...TIMEZONE`).
pub open spec fn tz_token(t: Seq<char>) -> bool {
    upper(t) == "WITH"@ || contains(upper(t), "TIMEZONE"@)
}

pub open spec fn has_tz_token(rest: Seq<Seq<char>>) -> bool {
    exists|i: int| 0 <= i < rest.len() && #[trigger] tz_token(rest[i])
}

fn has_tz_token_exec(rest: &[Vec<char>]) -> (r: bool)
    ensures
        r == has_tz_token(views(rest@)),
{
    let ghost rv = views(rest@);
    let mut i: usize = 0;
    while i < rest.len()
        invariant
            i <= rest.len(),
            rv == views(rest@),
            rv.len() == rest@.len(),
            forall|j: int| 0 <= j < i ==> !#[trigger] tz_token(rv[j]),
        decreases rest.len() - i,
    {
        assert(rv[i as int] == rest@[i as int]@);
        let u = to_upper(rest[i].as_slice());
        let tz = str_to_chars("TIMEZONE");
        if lit_eq(u.as_slice(), "WITH") || contains_exec(u.as_slice(), tz.as_slice()) {
            assert(tz_token(rv[i as int]));
            return true;
        }
        i += 1;
    }
    false
}

/// Integer, decimal, character and boolean types by their base name.
pub open spec fn known_type_a(base: Seq<char>, params: Option<Seq<char>>, dialect: Engine) -> Option<
    DataTypeV,
> {
    if base == "SMALLINT"@ || base == "INT2"@ || base == "SMALLSERIAL"@ {
        Some(DataTypeV::SmallInt)
    } else if base == "INTEGER"@ || base == "INT"@ || base == "INT4"@ || base == "SERIAL"@ {
        Some(DataTypeV::Integer)
    } else if base == "BIGINT"@ || base == "INT8"@ || base == "BIGSERIAL"@ {
        Some(DataTypeV::BigInt)
    } else if base == "TINYINT"@ {
        if dialect == Engine::Mysql {
            Some(DataTypeV::TinyInt)
        } else {
            Some(DataTypeV::SmallInt)
        }
    } else if base == "MEDIUMINT"@ {
        Some(DataTypeV::MediumInt)
    } else if base == "REAL"@ || base == "FLOAT4"@ || base == "FLOAT"@ {
        Some(DataTypeV::Real)
    } else if base == "DOUBLE"@ || base == "FLOAT8"@ {
        Some(DataTypeV::DoublePrecision)
    } else if base == "NUMERIC"@ || base == "DECIMAL"@ {
        let (p, s) = precision_scale(params);
        Some(DataTypeV::Numeric { precision: p, scale: s })
    } else if base == "VARCHAR"@ || base == "CHARACTER VARYING"@ {
        Some(DataTypeV::Varchar(sized(params)))
    } else if base == "CHAR"@ || base == "CHARACTER"@ {
        Some(DataTypeV::Char(sized(params)))
    } else if base == "TEXT"@ {
        Some(DataTypeV::Text)
    } else if base == "MEDIUMTEXT"@ {
        Some(DataTypeV::MediumText)
    } else if base == "LONGTEXT"@ {
        Some(DataTypeV::LongText)
    } else if base == "BOOLEAN"@ || base == "BOOL"@ {
        Some(DataTypeV::Boolean)
    } else {
        None
    }
}

fn known_type_a_exec(base: &[char], params: &Option<Vec<char>>, dialect: Engine) -> (r: Option<
    DataType,
>)
    ensures
        r.deep_view() == known_type_a(base@, opt_chars(*params), dialect),
{
    if lit_eq(base, "SMALLINT") || lit_eq(base, "INT2") || lit_eq(base, "SMALLSERIAL") {
        Some(DataType::SmallInt)
    } else if lit_eq(base, "INTEGER") || lit_eq(base, "INT") || lit_eq(base, "INT4") || lit_eq(
        base,
        "SERIAL",
    ) {
        Some(DataType::Integer)
    } else if lit_eq(base, "BIGINT") || lit_eq(base, "INT8") || lit_eq(base, "BIGSERIAL") {
        Some(DataType::BigInt)
    } else if lit_eq(base, "TINYINT") {
        if dialect == Engine::Mysql {
            Some(DataType::TinyInt)
        } else {
            Some(DataType::SmallInt)
        }
    } else if lit_eq(base, "MEDIUMINT") {
        Some(DataType::MediumInt)
    } else if lit_eq(base, "REAL") || lit_eq(base, "FLOAT4") || lit_eq(base, "FLOAT") {
        Some(DataType::Real)
    } else if lit_eq(base, "DOUBLE") || lit_eq(base, "FLOAT8") {
        Some(DataType::DoublePrecision)
    } else if lit_eq(base, "NUMERIC") || lit_eq(base, "DECIMAL") {
        let (p, s) = precision_scale_exec(params);
        Some(DataType::Numeric { precision: p, scale: s })
    } else if lit_eq(base, "VARCHAR") || lit_eq(base, "CHARACTER VARYING") {
        Some(DataType::Varchar(sized_exec(params)))
    } else if lit_eq(base, "CHAR") || lit_eq(base, "CHARACTER") {
        Some(DataType::Char(sized_exec(params)))
    } else if lit_eq(base, "TEXT") {
        Some(DataType::Text)
    } else if lit_eq(base, "MEDIUMTEXT") {
        Some(DataType::MediumText)
    } else if lit_eq(base, "LONGTEXT") {
        Some(DataType::LongText)
    } else if lit_eq(base, "BOOLEAN") || lit_eq(base, "BOOL") {
        Some(DataType::Boolean)
    } else {
        None
    }
}

/// Date/time, binary, network and inline enumeration types by their base name.
pub open spec fn known_type_b(
    base: Seq<char>,
    params: Option<Seq<char>>,
    orig: Option<Seq<char>>,
    u: Seq<char>,
    rest: Seq<Seq<char>>,
) -> Option<DataTypeV> {
    if base == "DATE"@ {
        Some(DataTypeV::Date)
    } else if base == "TIME"@ {
        Some(DataTypeV::Time)
    } else if base == "TIMESTAMP"@ || base == "TIMESTAMPTZ"@ {
        Some(
            DataTypeV::Timestamp {
                with_timezone: contains(u, "TIMESTAMPTZ"@) || has_tz_token(rest),
                precision: sized(params),
            },
        )
    } else if base == "DATETIME"@ {
        Some(DataTypeV::DateTime { precision: sized(params) })
    } else if base == "INTERVAL"@ {
        Some(DataTypeV::Interval)
    } else if base == "UUID"@ {
        Some(DataTypeV::Uuid)
    } else if base == "JSON"@ {
        Some(DataTypeV::Json)
    } else if base == "JSONB"@ {
        Some(DataTypeV::Jsonb)
    } else if base == "BYTEA"@ {
        Some(DataTypeV::Bytea)
    } else if base == "BINARY"@ {
        Some(DataTypeV::Binary(sized(params)))
    } else if base == "VARBINARY"@ {
        Some(DataTypeV::VarBinary(sized(params)))
    } else if base == "BLOB"@ {
        Some(DataTypeV::Blob)
    } else if base == "MEDIUMBLOB"@ {
        Some(DataTypeV::MediumBlob)
    } else if base == "LONGBLOB"@ {
        Some(DataTypeV::LongBlob)
    } else if base == "INET"@ {
        Some(DataTypeV::Inet)
    } else if base == "CIDR"@ {
        Some(DataTypeV::Cidr)
    } else if base == "MACADDR"@ {
        Some(DataTypeV::MacAddr)
    } else if base == "YEAR"@ {
        Some(DataTypeV::Year)
    } else if base == "ENUM"@ {
        Some(DataTypeV::Enum { name: None, values: value_list(orig) })
    } else if base == "SET"@ {
        Some(DataTypeV::SetOf(value_list(orig)))
    } else {
        None
    }
}

fn known_type_b_exec(
    base: &[char],
    params: &Option<Vec<char>>,
    orig: &Option<Vec<char>>,
    u: &[char],
    rest: &[Vec<char>],
) -> (r: Option<DataType>)
    ensures
        r.deep_view() == known_type_b(
            base@,
            opt_chars(*params),
            opt_chars(*orig),
            u@,
            views(rest@),
        ),
{
    if lit_eq(base, "DATE") {
        Some(DataType::Date)
    } else if lit_eq(base, "TIME") {
        Some(DataType::Time)
    } else if lit_eq(base, "TIMESTAMP") || lit_eq(base, "TIMESTAMPTZ") {
        let tz = str_to_chars("TIMESTAMPTZ");
        let with_tz = contains_exec(u, tz.as_slice()) || has_tz_token_exec(rest);
        Some(DataType::Timestamp { with_timezone: with_tz, precision: sized_exec(params) })
    } else if lit_eq(base, "DATETIME") {
        Some(DataType::DateTime { precision: sized_exec(params) })
    } else if lit_eq(base, "INTERVAL") {
        Some(DataType::Interval)
    } else if lit_eq(base, "UUID") {
        Some(DataType::Uuid)
    } else if lit_eq(base, "JSON") {
        Some(DataType::Json)
    } else if lit_eq(base, "JSONB") {
        Some(DataType::Jsonb)
    } else if lit_eq(base, "BYTEA") {
        Some(DataType::Bytea)
    } else if lit_eq(base, "BINARY") {
        Some(DataType::Binary(sized_exec(params)))
    } else if lit_eq(base, "VARBINARY") {
        Some(DataType::VarBinary(sized_exec(params)))
    } else if lit_eq(base, "BLOB") {
        Some(DataType::Blob)
    } else if lit_eq(base, "MEDIUMBLOB") {
        Some(DataType::MediumBlob)
    } else if lit_eq(base, "LONGBLOB") {
        Some(DataType::LongBlob)
    } else if lit_eq(base, "INET") {
        Some(DataType::Inet)
    } else if lit_eq(base, "CIDR") {
        Some(DataType::Cidr)
    } else if lit_eq(base, "MACADDR") {
        Some(DataType::MacAddr)
    } else if lit_eq(base, "YEAR") {
        Some(DataType::Year)
    } else if lit_eq(base, "ENUM") {
        Some(DataType::Enum { name: None, values: value_list_exec(orig) })
    } else if lit_eq(base, "SET") {
        Some(DataType::SetOf(value_list_exec(orig)))
    } else {
        None
    }
}

/// The data type named by the column's type token `type_str`, with `rest` the
/// tokens after it. The type's base name (before any `(`) is matched after
/// upper-casing; parameters keep their case for enumeration values. An
/// unknown name is a named enum type under Postgres and `Other` under MySQL.
pub open spec fn data_type_spec(type_str: Seq<char>, rest: Seq<Seq<char>>, dialect: Engine) -> DataTypeV {
    let u = trim(upper(type_str));
    let t = trim(type_str);
    let paren = find_char(u, '(');
    let base = match paren {
        Some(p) => u.subrange(0, p),
        None => u,
    };
    let params = match paren {
        Some(p) => Some(type_params(u, p)),
        None => None,
    };
    let orig = match paren {
        Some(p) => Some(type_params(t, p)),
        None => None,
    };
    match known_type_a(base, params, dialect) {
        Some(d) => d,
        None => match known_type_b(base, params, orig, u, rest) {
            Some(d) => d,
            None => if dialect == Engine::Postgres {
                DataTypeV::Enum { name: Some(unquote(type_str)), values: seq![] }
            } else {
                DataTypeV::Other(type_str)
            },
        },
    }
}

pub fn parse_data_type(type_str: &[char], rest: &[Vec<char>], dialect: Engine) -> (r: DataType)
    ensures
        r@ == data_type_spec(type_str@, views(rest@), dialect),
{
    let up = to_upper(type_str);
    let u = trim_exec(up.as_slice());
    let t = trim_exec(type_str);
    proof {
        lemma_trim_upper(type_str@);
        assert(u@.len() == t@.len());
    }
    let paren = find_char_exec(u, '(');
    let (base, params, orig): (Vec<char>, Option<Vec<char>>, Option<Vec<char>>) = match paren {
        Some(p) => {
            let b = vstd::slice::slice_to_vec(&u[0..p]);
            let pu = type_params_exec(u, p);
            proof {
                assert(upper(t@)[p as int] == u@[p as int]);
                assert(t@[p as int] == '(');
            }
            let po = type_params_exec(t, p);
            (b, Some(pu), Some(po))
        },
        None => (vstd::slice::slice_to_vec(u), None, None),
    };
    match known_type_a_exec(base.as_slice(), &params, dialect) {
        Some(d) => d,
        None => match known_type_b_exec(base.as_slice(), &params, &orig, u, rest) {
            Some(d) => d,
            None => if dialect == Engine::Postgres {
                let n = unquote_exec(type_str);
                let v: Vec<String> = Vec::new();
                assert(v.deep_view() =~= seq![]);
                DataType::Enum { name: Some(chars_to_string(n.as_slice())), values: v }
            } else {
                DataType::Other(chars_to_string(type_str))
            },
        },
    }
}

// ---------------------------------------------------------------------------
// Earliest keyword
// ---------------------------------------------------------------------------

/// The keyword of `kws` that occurs first in `s`, as its index in `kws` and
/// its position in `s`; on equal positions the keyword listed first wins.
pub open spec fn earliest(s: Seq<char>, kws: Seq<Seq<char>>) -> Option<(int, int)>
    decreases kws.len(),
{
    if kws.len() == 0 {
        None
    } else {
        let b = earliest(s, kws.drop_last());
        match find(s, kws.last()) {
            Some(p) => match b {
                Some(kq) => if p < kq.1 {
                    Some((kws.len() - 1, p))
                } else {
                    b
                },
                None => Some((kws.len() - 1, p)),
            },
            None => b,
        }
    }
}

pub open spec fn opt_pair(r: Option<(usize, usize)>) -> Option<(int, int)> {
    match r {
        Some(kp) => Some((kp.0 as int, kp.1 as int)),
        None => None,
    }
}

fn earliest_exec(s: &[char], kws: &Vec<Vec<char>>) -> (r: Option<(usize, usize)>)
    ensures
        opt_pair(r) == earliest(s@, views(kws@)),
        r matches Some(kp) ==> kp.0 < kws@.len() && kp.1 + kws@[kp.0 as int]@.len() <= s@.len(),
{
    let ghost kv = views(kws@);
    let mut best: Option<(usize, usize)> = None;
    let mut k: usize = 0;
    assert(kv.take(0) =~= seq![]);
    while k < kws.len()
        invariant
            k <= kws.len(),
            kv == views(kws@),
            kv.len() == kws@.len(),
            opt_pair(best) == earliest(s@, kv.take(k as int)),
            best matches Some(kp) ==> kp.0 < k && kp.1 + kws@[kp.0 as int]@.len() <= s@.len(),
        decreases kws.len() - k,
    {
        assert(kv.take(k + 1).drop_last() =~= kv.take(k as int));
        assert(kv.take(k + 1).last() == kws@[k as int]@);
        match find_exec(s, kws[k].as_slice()) {
            Some(p) => {
                match best {
                    Some(kq) => {
                        if p < kq.1 {
                            best = Some((k, p));
                        }
                    },
                    None => {
                        best = Some((k, p));
                    },
                }
            },
            None => {},
        }
        k += 1;
    }
    assert(kv.take(kws.len() as int) =~= kv);
    best
}

/// The keyword of `kws` that occurs first in `s` as a whole word, as its index
/// in `kws` and its position in `s`; on equal positions the keyword listed first wins.
pub open spec fn earliest_word(s: Seq<char>, kws: Seq<Seq<char>>) -> Option<(int, int)>
    decreases kws.len(),
{
    if kws.len() == 0 {
        None
    } else {
        let b = earliest_word(s, kws.drop_last());
        match find_word(s, kws.last()) {
            Some(p) => match b {
                Some(kq) => if p < kq.1 {
                    Some((kws.len() - 1, p))
                } else {
                    b
                },
                None => Some((kws.len() - 1, p)),
            },
            None => b,
        }
    }
}

fn earliest_word_exec(s: &[char], kws: &Vec<Vec<char>>) -> (r: Option<(usize, usize)>)
    ensures
        opt_pair(r) == earliest_word(s@, views(kws@)),
        r matches Some(kp) ==> kp.0 < kws@.len() && kp.1 + kws@[kp.0 as int]@.len() <= s@.len(),
{
    let ghost kv = views(kws@);
    let mut best: Option<(usize, usize)> = None;
    let mut k: usize = 0;
    assert(kv.take(0) =~= seq![]);
    while k < kws.len()
        invariant
            k <= kws.len(),
            kv == views(kws@),
            kv.len() == kws@.len(),
            opt_pair(best) == earliest_word(s@, kv.take(k as int)),
            best matches Some(kp) ==> kp.0 < k && kp.1 + kws@[kp.0 as int]@.len() <= s@.len(),
        decreases kws.len() - k,
    {
        assert(kv.take(k + 1).drop_last() =~= kv.take(k as int));
        assert(kv.take(k + 1).last() == kws@[k as int]@);
        match find_word_exec(s, kws[k].as_slice()) {
            Some(p) => {
                match best {
                    Some(kq) => {
                        if p < kq.1 {
                            best = Some((k, p));
                        }
                    },
                    None => {
                        best = Some((k, p));
                    },
                }
            },
            None => {},
        }
        k += 1;
    }
    assert(kv.take(kws.len() as int) =~= kv);
    best
}

// ---------------------------------------------------------------------------
// Column defaults
// ---------------------------------------------------------------------------

/// Keywords that end a `DEFAULT` value.
pub open spec fn default_end_keywords() -> Seq<Seq<char>> {
    seq![
        " NOT NULL"@,
        " NULL"@,
        " PRIMARY"@,
        " UNIQUE"@,
        " CHECK"@,
        " REFERENCES"@,
        " CONSTRAINT"@,
        " AUTO_INCREMENT"@,
        " ON UPDATE"@,
        " GENERATED"@,
        " COMMENT"@,
    ]
}

fn default_end_keywords_exec() -> (r: Vec<Vec<char>>)
    ensures
        views(r@) == default_end_keywords(),
{
    let mut r: Vec<Vec<char>> = Vec::new();
    r.push(str_to_chars(" NOT NULL"));
    r.push(str_to_chars(" NULL"));
    r.push(str_to_chars(" PRIMARY"));
    r.push(str_to_chars(" UNIQUE"));
    r.push(str_to_chars(" CHECK"));
    r.push(str_to_chars(" REFERENCES"));
    r.push(str_to_chars(" CONSTRAINT"));
    r.push(str_to_chars(" AUTO_INCREMENT"));
    r.push(str_to_chars(" ON UPDATE"));
    r.push(str_to_chars(" GENERATED"));
    r.push(str_to_chars(" COMMENT"));
    assert(views(r@) =~= default_end_keywords());
    r
}

/// The value of a default that has been cut out of a column definition: a
/// value in single quotes is a literal without its quotes (a lone `'` gives
/// the empty literal); one with a `(`, or `CURRENT_TIMESTAMP`, `TRUE` or
/// `FALSE` in any case, is an expression; anything else is a literal.
pub open spec fn default_value(value: Seq<char>) -> ColumnDefaultV {
    if value[0] == '\'' && value[value.len() - 1] == '\'' {
        ColumnDefaultV::Literal(
            if value.len() >= 2 {
                value.subrange(1, value.len() - 1)
            } else {
                seq![]
            },
        )
    } else if contains(value, seq!['(']) || upper(value) == "CURRENT_TIMESTAMP"@ || upper(value)
        == "TRUE"@ || upper(value) == "FALSE"@ {
        ColumnDefaultV::Expression(value)
    } else {
        ColumnDefaultV::Literal(value)
    }
}

/// The `DEFAULT` clause of a column definition: the text after the first
/// `DEFAULT ` that starts a word (so not the end of a name such as
/// `is_default`) up to the earliest of the end keywords, trimmed and without
/// trailing commas; none where there is no such clause or its value is empty.
pub open spec fn default_spec(part: Seq<char>) -> Option<ColumnDefaultV> {
    match find_word(upper(part), "DEFAULT "@) {
        None => None,
        Some(pos) => {
            let after = trim(part.subrange(pos + "DEFAULT "@.len(), part.len() as int));
            let end = match earliest(upper(after), default_end_keywords()) {
                Some(kp) => kp.1,
                None => after.len() as int,
            };
            let value = trim_end_matches(trim(after.subrange(0, end)), ',');
            if value.len() == 0 {
                None
            } else {
                Some(default_value(value))
            }
        },
    }
}

fn default_value_exec(value: &[char]) -> (r: ColumnDefault)
    requires
        value@.len() > 0,
    ensures
        r@ == default_value(value@),
{
    let n = value.len();
    if value[0] == '\'' && value[n - 1] == '\'' {
        if n >= 2 {
            ColumnDefault::Literal(chars_to_string(&value[1..n - 1]))
        } else {
            ColumnDefault::Literal(String::new())
        }
    } else {
        let uv = to_upper(value);
        if find_char_exec(value, '(').is_some() || lit_eq(uv.as_slice(), "CURRENT_TIMESTAMP")
            || lit_eq(uv.as_slice(), "TRUE") || lit_eq(uv.as_slice(), "FALSE") {
            ColumnDefault::Expression(chars_to_string(value))
        } else {
            ColumnDefault::Literal(chars_to_string(value))
        }
    }
}

pub fn extract_default(part: &[char]) -> (r: Option<ColumnDefault>)
    ensures
        r.deep_view() == default_spec(part@),
{
    let up = to_upper(part);
    let kw = str_to_chars("DEFAULT ");
    let pos = match find_word_exec(up.as_slice(), kw.as_slice()) {
        Some(p) => p,
        None => return None,
    };
    let pl = part.len();
    let after = trim_exec(&part[pos + kw.len()..pl]);
    let ua = to_upper(after);
    let kws = default_end_keywords_exec();
    let end = match earliest_exec(ua.as_slice(), &kws) {
        Some(kp) => kp.1,
        None => after.len(),
    };
    let value = trim_end_matches_exec(trim_exec(&after[0..end]), ',');
    if value.len() == 0 {
        None
    } else {
        Some(default_value_exec(value))
    }
}

// ---------------------------------------------------------------------------
// Column definitions
// ---------------------------------------------------------------------------

/// Words that open a table constraint rather than a column.
pub open spec fn is_constraint_word(w: Seq<char>) -> bool {
    w == "PRIMARY"@ || w == "FOREIGN"@ || w == "UNIQUE"@ || w == "CHECK"@ || w == "CONSTRAINT"@
        || w == "INDEX"@ || w == "KEY"@
}

/// A column definition: its first token is the (unquoted) name, its second
/// the type; the keywords `NOT NULL`, `AUTO_INCREMENT`, `GENERATED`,
/// `AUTOINCREMENT` or one of the serial types, and `UNSIGNED`, each as whole
/// words anywhere in it, set the flags. None where it has fewer than
/// two tokens or its name is a constraint keyword.
pub open spec fn parsed_column(part: Seq<char>, dialect: Engine) -> Option<ColumnV> {
    let toks = tokenize_spec(part);
    if toks.len() < 2 {
        None
    } else {
        let name = unquote(toks[0]);
        if is_constraint_word(upper(name)) {
            None
        } else {
            let rest = upper(part);
            Some(
                ColumnV {
                    name,
                    data_type: data_type_spec(toks[1], toks.subrange(2, toks.len() as int), dialect),
                    nullable: !contains_word(rest, "NOT NULL"@),
                    default: default_spec(part),
                    auto_increment: contains_word(rest, "AUTO_INCREMENT"@) || contains_word(
                        rest,
                        "SERIAL"@,
                    ) || contains_word(rest, "BIGSERIAL"@) || contains_word(rest, "SMALLSERIAL"@)
                        || contains_word(rest, "GENERATED"@) || contains_word(
                        rest,
                        "AUTOINCREMENT"@,
                    ),
                    unsigned: contains_word(rest, "UNSIGNED"@),
                },
            )
        }
    }
}

fn is_constraint_word_exec(w: &[char]) -> (r: bool)
    ensures
        r == is_constraint_word(w@),
{
    lit_eq(w, "PRIMARY") || lit_eq(w, "FOREIGN") || lit_eq(w, "UNIQUE") || lit_eq(w, "CHECK")
        || lit_eq(w, "CONSTRAINT") || lit_eq(w, "INDEX") || lit_eq(w, "KEY")
}

fn contains_lit(s: &[char], lit: &str) -> (r: bool)
    ensures
        r == contains(s@, lit@),
{
    let l = str_to_chars(lit);
    contains_exec(s, l.as_slice())
}

fn has_word_lit(s: &[char], lit: &str) -> (r: bool)
    ensures
        r == contains_word(s@, lit@),
{
    let l = str_to_chars(lit);
    contains_word_exec(s, l.as_slice())
}

pub fn parse_column_def(part: &[char], dialect: Engine) -> (r: Option<Column>)
    ensures
        r.deep_view() == parsed_column(part@, dialect),
{
    let toks = tokenize_column_def(part);
    let n = toks.len();
    if n < 2 {
        return None;
    }
    proof {
        assert(views(toks@)[0] == toks@[0]@);
        assert(views(toks@)[1] == toks@[1]@);
    }
    let name = unquote_exec(toks[0].as_slice());
    let un = to_upper(name.as_slice());
    if is_constraint_word_exec(un.as_slice()) {
        return None;
    }
    let rest_toks = &toks.as_slice()[2..n];
    assert(views(rest_toks@) =~= views(toks@).subrange(2, n as int));
    let data_type = parse_data_type(toks[1].as_slice(), rest_toks, dialect);
    let rest = to_upper(part);
    let nullable = !has_word_lit(rest.as_slice(), "NOT NULL");
    let auto_increment = has_word_lit(rest.as_slice(), "AUTO_INCREMENT") || has_word_lit(
        rest.as_slice(),
        "SERIAL",
    ) || has_word_lit(rest.as_slice(), "BIGSERIAL") || has_word_lit(rest.as_slice(), "SMALLSERIAL")
        || has_word_lit(rest.as_slice(), "GENERATED") || has_word_lit(
        rest.as_slice(),
        "AUTOINCREMENT",
    );
    let unsigned = has_word_lit(rest.as_slice(), "UNSIGNED");
    let default = extract_default(part);
    Some(
        Column {
            name: chars_to_string(name.as_slice()),
            data_type,
            nullable,
            default,
            auto_increment,
            unsigned,
        },
    )
}

// ---------------------------------------------------------------------------
// Foreign keys and checks
// ---------------------------------------------------------------------------

/// The referential action after the first `prefix` (`ON DELETE`, `ON UPDATE`)
/// in the upper-cased text `u`; `NO ACTION` where there is none or the word is
/// not recognised.
pub open spec fn fk_action_spec(u: Seq<char>, prefix: Seq<char>) -> ForeignKeyAction {
    match find(u, prefix) {
        Some(pos) => {
            let after = trim(u.subrange(pos + prefix.len(), u.len() as int));
            if starts_with(after, "CASCADE"@) {
                ForeignKeyAction::Cascade
            } else if starts_with(after, "SET NULL"@) {
                ForeignKeyAction::SetNull
            } else if starts_with(after, "SET DEFAULT"@) {
                ForeignKeyAction::SetDefault
            } else if starts_with(after, "RESTRICT"@) {
                ForeignKeyAction::Restrict
            } else {
                ForeignKeyAction::NoAction
            }
        },
        None => ForeignKeyAction::NoAction,
    }
}

fn starts_with_word_lit(s: &[char], lit: &str) -> (r: bool)
    ensures
        r == starts_with_word(s@, lit@),
{
    let l = str_to_chars(lit);
    starts_with_word_exec(s, l.as_slice())
}

fn starts_with_lit(s: &[char], lit: &str) -> (r: bool)
    ensures
        r == starts_with(s@, lit@),
{
    let l = str_to_chars(lit);
    starts_with_exec(s, l.as_slice())
}

pub fn parse_fk_action(u: &[char], prefix: &str) -> (r: ForeignKeyAction)
    ensures
        r == fk_action_spec(u@, prefix@),
{
    let pv = str_to_chars(prefix);
    match find_exec(u, pv.as_slice()) {
        Some(pos) => {
            let ul = u.len();
            let after = trim_exec(&u[pos + pv.len()..ul]);
            if starts_with_lit(after, "CASCADE") {
                ForeignKeyAction::Cascade
            } else if starts_with_lit(after, "SET NULL") {
                ForeignKeyAction::SetNull
            } else if starts_with_lit(after, "SET DEFAULT") {
                ForeignKeyAction::SetDefault
            } else if starts_with_lit(after, "RESTRICT") {
                ForeignKeyAction::Restrict
            } else {
                ForeignKeyAction::NoAction
            }
        },
        None => ForeignKeyAction::NoAction,
    }
}

/// Each piece trimmed and unquoted.
pub open spec fn unquoted_all(pieces: Seq<Seq<char>>) -> Seq<Seq<char>>
    decreases pieces.len(),
{
    if pieces.len() == 0 {
        seq![]
    } else {
        unquoted_all(pieces.drop_last()).push(unquote(trim(pieces.last())))
    }
}

fn unquoted_all_exec(pieces: &Vec<Vec<char>>) -> (r: Vec<String>)
    ensures
        r.deep_view() == unquoted_all(views(pieces@)),
{
    let ghost pv = views(pieces@);
    let mut r: Vec<String> = Vec::new();
    let mut i: usize = 0;
    assert(r.deep_view() =~= unquoted_all(pv.take(0)));
    while i < pieces.len()
        invariant
            i <= pieces.len(),
            pv == views(pieces@),
            pv.len() == pieces@.len(),
            r.deep_view() == unquoted_all(pv.take(i as int)),
        decreases pieces.len() - i,
    {
        assert(pv.take(i + 1).drop_last() =~= pv.take(i as int));
        assert(pv[i as int] == pieces@[i as int]@);
        let u = unquote_exec(trim_exec(pieces[i].as_slice()));
        let ghost before = r.deep_view();
        r.push(chars_to_string(u.as_slice()));
        assert(r.deep_view() =~= before.push(u@));
        i += 1;
    }
    assert(pv.take(pieces.len() as int) =~= pv);
    r
}

/// A table-level `[CONSTRAINT name] FOREIGN KEY (cols) REFERENCES t(cols)
/// [ON DELETE ..] [ON UPDATE ..]`; none where a part of it is missing.
/// `REFERENCES` is found as a whole word after the key's columns. The
/// referenced table loses any schema qualification.
pub open spec fn inline_fk(part: Seq<char>) -> Option<ForeignKeyV> {
    let u = upper(part);
    match find(u, "FOREIGN KEY"@) {
        None => None,
        Some(fk_pos) => {
            let after_fk = part.subrange(fk_pos + "FOREIGN KEY"@.len(), part.len() as int);
            match paren_list(after_fk) {
                None => None,
                Some(cols) => match find_word(upper(after_fk), "REFERENCES"@) {
                    None => None,
                    Some(ref_pos) => {
                        let after_ref = trim(
                            after_fk.subrange(ref_pos + "REFERENCES"@.len(), after_fk.len() as int),
                        );
                        match find_char(after_ref, '(') {
                            None => None,
                            Some(pp) => {
                                let inner = after_ref.subrange(pp + 1, after_ref.len() as int);
                                match find_char(inner, ')') {
                                    None => None,
                                    Some(e) => Some(
                                        ForeignKeyV {
                                            name: constraint_name(part),
                                            columns: cols,
                                            referenced_table: strip_schema(
                                                unquote(trim(after_ref.subrange(0, pp))),
                                            ),
                                            referenced_schema: None,
                                            referenced_columns: unquoted_all(
                                                split_char(inner.subrange(0, e), ','),
                                            ),
                                            on_delete: fk_action_spec(u, "ON DELETE"@),
                                            on_update: fk_action_spec(u, "ON UPDATE"@),
                                        },
                                    ),
                                }
                            },
                        }
                    },
                },
            }
        },
    }
}

pub fn parse_inline_fk(part: &[char]) -> (r: Option<ForeignKey>)
    ensures
        r.deep_view() == inline_fk(part@),
{
    let u = to_upper(part);
    let name = extract_constraint_name(part);
    let kw = str_to_chars("FOREIGN KEY");
    let fk_pos = match find_exec(u.as_slice(), kw.as_slice()) {
        Some(p) => p,
        None => return None,
    };
    let pl = part.len();
    let after_fk = &part[fk_pos + kw.len()..pl];
    let cols = match extract_paren_list(after_fk) {
        Some(c) => c,
        None => return None,
    };
    let ua = to_upper(after_fk);
    let rk = str_to_chars("REFERENCES");
    let ref_pos = match find_word_exec(ua.as_slice(), rk.as_slice()) {
        Some(p) => p,
        None => return None,
    };
    let al = after_fk.len();
    let after_ref = trim_exec(&after_fk[ref_pos + rk.len()..al]);
    let pp = match find_char_exec(after_ref, '(') {
        Some(p) => p,
        None => return None,
    };
    let rl = after_ref.len();
    let inner = &after_ref[pp + 1..rl];
    let e = match find_char_exec(inner, ')') {
        Some(x) => x,
        None => return None,
    };
    let tname = unquote_exec(trim_exec(&after_ref[0..pp]));
    let ref_table = strip_schema_exec(tname.as_slice());
    let pieces = split_char_exec(&inner[0..e], ',');
    let ref_cols = unquoted_all_exec(&pieces);
    let on_delete = parse_fk_action(u.as_slice(), "ON DELETE");
    let on_update = parse_fk_action(u.as_slice(), "ON UPDATE");
    Some(
        ForeignKey {
            name,
            columns: cols,
            referenced_table: chars_to_string(ref_table.as_slice()),
            referenced_schema: None,
            referenced_columns: ref_cols,
            on_delete,
            on_update,
        },
    )
}

/// A column's inline `REFERENCES t(col) [ON DELETE ..] [ON UPDATE ..]`, as a
/// foreign key on that one column; `REFERENCES` is found as a whole word.
pub open spec fn column_reference(part: Seq<char>, col_name: Seq<char>) -> Option<ForeignKeyV> {
    let u = upper(part);
    match find_word(u, "REFERENCES"@) {
        None => None,
        Some(ref_pos) => {
            let after_ref = trim(part.subrange(ref_pos + "REFERENCES"@.len(), part.len() as int));
            match find_char(after_ref, '(') {
                None => None,
                Some(pp) => {
                    let inner = after_ref.subrange(pp + 1, after_ref.len() as int);
                    match find_char(inner, ')') {
                        None => None,
                        Some(e) => Some(
                            ForeignKeyV {
                                name: None,
                                columns: seq![col_name],
                                referenced_table: unquote(trim(after_ref.subrange(0, pp))),
                                referenced_schema: None,
                                referenced_columns: seq![unquote(trim(inner.subrange(0, e)))],
                                on_delete: fk_action_spec(u, "ON DELETE"@),
                                on_update: fk_action_spec(u, "ON UPDATE"@),
                            },
                        ),
                    }
                },
            }
        },
    }
}

pub fn parse_column_reference(part: &[char], col_name: &String) -> (r: Option<ForeignKey>)
    ensures
        r.deep_view() == column_reference(part@, col_name@),
{
    let u = to_upper(part);
    let rk = str_to_chars("REFERENCES");
    let ref_pos = match find_word_exec(u.as_slice(), rk.as_slice()) {
        Some(p) => p,
        None => return None,
    };
    let pl = part.len();
    let after_ref = trim_exec(&part[ref_pos + rk.len()..pl]);
    let pp = match find_char_exec(after_ref, '(') {
        Some(p) => p,
        None => return None,
    };
    let rl = after_ref.len();
    let inner = &after_ref[pp + 1..rl];
    let e = match find_char_exec(inner, ')') {
        Some(x) => x,
        None => return None,
    };
    let ref_table = unquote_exec(trim_exec(&after_ref[0..pp]));
    let ref_col = unquote_exec(trim_exec(&inner[0..e]));
    let mut columns: Vec<String> = Vec::new();
    columns.push(col_name.clone());
    let mut ref_cols: Vec<String> = Vec::new();
    ref_cols.push(chars_to_string(ref_col.as_slice()));
    assert(columns.deep_view() =~= seq![col_name@]);
    assert(ref_cols.deep_view() =~= seq![ref_col@]);
    let on_delete = parse_fk_action(u.as_slice(), "ON DELETE");
    let on_update = parse_fk_action(u.as_slice(), "ON UPDATE");
    Some(
        ForeignKey {
            name: None,
            columns,
            referenced_table: chars_to_string(ref_table.as_slice()),
            referenced_schema: None,
            referenced_columns: ref_cols,
            on_delete,
            on_update,
        },
    )
}

/// A `[CONSTRAINT name] CHECK (expr)`: the trimmed text inside the parentheses
/// after the first `CHECK` that is a whole word.
pub open spec fn inline_check(part: Seq<char>) -> Option<CheckConstraintV> {
    match find_word(upper(part), "CHECK"@) {
        None => None,
        Some(check_pos) => {
            let after = trim(part.subrange(check_pos + "CHECK"@.len(), part.len() as int));
            match find_char(after, '(') {
                None => None,
                Some(ps) => {
                    let inner = after.subrange(ps + 1, after.len() as int);
                    match matching_paren(inner) {
                        None => None,
                        Some(end) => Some(
                            CheckConstraintV {
                                name: constraint_name(part),
                                expression: trim(inner.subrange(0, end)),
                            },
                        ),
                    }
                },
            }
        },
    }
}

pub fn parse_inline_check(part: &[char]) -> (r: Option<CheckConstraint>)
    ensures
        r.deep_view() == inline_check(part@),
{
    let u = to_upper(part);
    let ck = str_to_chars("CHECK");
    let check_pos = match find_word_exec(u.as_slice(), ck.as_slice()) {
        Some(p) => p,
        None => return None,
    };
    let pl = part.len();
    let after = trim_exec(&part[check_pos + ck.len()..pl]);
    let ps = match find_char_exec(after, '(') {
        Some(p) => p,
        None => return None,
    };
    let al = after.len();
    let inner = &after[ps + 1..al];
    let end = match find_matching_paren(inner) {
        Some(e) => e,
        None => return None,
    };
    let expression = chars_to_string(trim_exec(&inner[0..end]));
    let name = extract_constraint_name(part);
    Some(CheckConstraint { name, expression })
}

// ---------------------------------------------------------------------------
// Table options
// ---------------------------------------------------------------------------

/// The value of a `KEY=value` table option: the first word after the first
/// `=` that follows the keyword.
pub open spec fn option_value(rest: Seq<char>, kw: Seq<char>) -> Option<Seq<char>> {
    match find(upper(rest), kw) {
        Some(pos) => {
            let pieces = split_char(rest.subrange(pos, rest.len() as int), '=');
            if pieces.len() > 1 {
                Some(first_word(pieces[1]))
            } else {
                None
            }
        },
        None => None,
    }
}

pub open spec fn set_if_some(v: Option<Seq<char>>, old_v: Option<Seq<char>>) -> Option<Seq<char>> {
    match v {
        Some(x) => Some(x),
        None => old_v,
    }
}

/// Options after a table body: `ENGINE`, `CHARSET` and `COLLATE` are set where
/// they have a value; other options stay as they were.
pub open spec fn table_options_spec(rest: Seq<char>, opts: TableOptionsV) -> TableOptionsV {
    TableOptionsV {
        engine: set_if_some(option_value(rest, "ENGINE"@), opts.engine),
        charset: set_if_some(option_value(rest, "CHARSET"@), opts.charset),
        collation: set_if_some(option_value(rest, "COLLATE"@), opts.collation),
    }
}

fn option_value_exec(rest: &[char], up: &[char], kw: &str) -> (r: Option<String>)
    requires
        up@ == upper(rest@),
    ensures
        r.deep_view() == option_value(rest@, kw@),
{
    let kv = str_to_chars(kw);
    match find_exec(up, kv.as_slice()) {
        Some(pos) => {
            proof {
                assert(upper(rest@).len() == rest@.len());
            }
            let rl = rest.len();
            let pieces = split_char_exec(&rest[pos..rl], '=');
            if pieces.len() > 1 {
                proof {
                    assert(views(pieces@)[1] == pieces@[1]@);
                }
                let w = first_word_exec(pieces[1].as_slice());
                Some(chars_to_string(w))
            } else {
                None
            }
        },
        None => None,
    }
}

pub fn parse_table_options(rest: &[char], options: &mut TableOptions)
    ensures
        final(options)@ == table_options_spec(rest@, old(options)@),
{
    let up = to_upper(rest);
    if let Some(v) = option_value_exec(rest, up.as_slice(), "ENGINE") {
        options.engine = Some(v);
    }
    if let Some(v) = option_value_exec(rest, up.as_slice(), "CHARSET") {
        options.charset = Some(v);
    }
    if let Some(v) = option_value_exec(rest, up.as_slice(), "COLLATE") {
        options.collation = Some(v);
    }
}

// ---------------------------------------------------------------------------
// CREATE TABLE
// ---------------------------------------------------------------------------

/// A column definition's effect on its table: an inline ` PRIMARY KEY` sets
/// the key where there is none yet, an inline ` UNIQUE` adds a unique
/// constraint, an inline `REFERENCES` adds a foreign key (each keyword as
/// whole words, not inside a name), and the column is appended.
pub open spec fn column_part(t: TableV, tr: Seq<char>, up: Seq<char>, col: ColumnV) -> TableV {
    let t1 = if contains_word(up, " PRIMARY KEY"@) && t.primary_key is None {
        TableV {
            primary_key: Some(PrimaryKeyV { name: None, columns: seq![col.name] }),
            ..t
        }
    } else {
        t
    };
    let t2 = if contains_word(up, " UNIQUE"@) {
        TableV {
            unique_constraints: t1.unique_constraints.push(
                UniqueConstraintV { name: None, columns: seq![col.name] },
            ),
            ..t1
        }
    } else {
        t1
    };
    let t3 = if contains_word(up, "REFERENCES"@) {
        match column_reference(tr, col.name) {
            Some(fk) => TableV { foreign_keys: t2.foreign_keys.push(fk), ..t2 },
            None => t2,
        }
    } else {
        t2
    };
    TableV { columns: t3.columns.push(col), ..t3 }
}

/// One comma-separated piece of a `CREATE TABLE` body applied to the table:
/// a table constraint (beginning with the keyword `PRIMARY KEY`, `UNIQUE`,
/// `FOREIGN KEY`/`CONSTRAINT` or `CHECK`, as whole words, so that a column
/// such as `checked` stays a column) or a column definition. A piece that does not parse changes
/// nothing.
pub open spec fn table_part(t: TableV, part: Seq<char>, dialect: Engine) -> TableV {
    let tr = trim(part);
    let up = upper(tr);
    if starts_with_word(up, "PRIMARY KEY"@) {
        match paren_list(tr) {
            Some(cols) => TableV {
                primary_key: Some(PrimaryKeyV { name: None, columns: cols }),
                ..t
            },
            None => t,
        }
    } else if starts_with_word(up, "UNIQUE"@) {
        match paren_list(tr) {
            Some(cols) => TableV {
                unique_constraints: t.unique_constraints.push(
                    UniqueConstraintV { name: constraint_name(tr), columns: cols },
                ),
                ..t
            },
            None => t,
        }
    } else if starts_with_word(up, "FOREIGN KEY"@) || starts_with_word(up, "CONSTRAINT"@) {
        match inline_fk(tr) {
            Some(fk) => TableV { foreign_keys: t.foreign_keys.push(fk), ..t },
            None => t,
        }
    } else if starts_with_word(up, "CHECK"@) {
        match inline_check(tr) {
            Some(cc) => TableV { check_constraints: t.check_constraints.push(cc), ..t },
            None => t,
        }
    } else {
        match parsed_column(tr, dialect) {
            Some(col) => column_part(t, tr, up, col),
            None => t,
        }
    }
}

/// The pieces of a table body applied in order.
pub open spec fn table_parts(t: TableV, parts: Seq<Seq<char>>, dialect: Engine) -> TableV
    decreases parts.len(),
{
    if parts.len() == 0 {
        t
    } else {
        table_part(table_parts(t, parts.drop_last(), dialect), parts.last(), dialect)
    }
}

fn one_name(name: &String) -> (r: Vec<String>)
    ensures
        r.deep_view() == seq![name@],
{
    let mut v: Vec<String> = Vec::new();
    v.push(name.clone());
    assert(v.deep_view() =~= seq![name@]);
    v
}

fn apply_column_part(table: &mut Table, tr: &[char], up: &[char], col: Column)
    requires
        up@ == upper(tr@),
    ensures
        final(table)@ == column_part(old(table)@, tr@, up@, col@),
{
    if has_word_lit(up, " PRIMARY KEY") && table.primary_key.is_none() {
        table.primary_key = Some(PrimaryKey { name: None, columns: one_name(&col.name) });
    }
    if has_word_lit(up, " UNIQUE") {
        let ghost before = table.unique_constraints.deep_view();
        let uc = UniqueConstraint { name: None, columns: one_name(&col.name) };
        let ghost ucv = uc@;
        table.unique_constraints.push(uc);
        assert(table.unique_constraints.deep_view() =~= before.push(ucv));
    }
    if has_word_lit(up, "REFERENCES") {
        if let Some(fk) = parse_column_reference(tr, &col.name) {
            let ghost before = table.foreign_keys.deep_view();
            let ghost fkv = fk@;
            table.foreign_keys.push(fk);
            assert(table.foreign_keys.deep_view() =~= before.push(fkv));
        }
    }
    let ghost before = table.columns.deep_view();
    let ghost colv = col@;
    table.columns.push(col);
    assert(table.columns.deep_view() =~= before.push(colv));
}

fn apply_table_part(table: &mut Table, part: &[char], dialect: Engine)
    ensures
        final(table)@ == table_part(old(table)@, part@, dialect),
{
    let tr = trim_exec(part);
    let up = to_upper(tr);
    if starts_with_word_lit(up.as_slice(), "PRIMARY KEY") {
        if let Some(cols) = extract_paren_list(tr) {
            table.primary_key = Some(PrimaryKey { name: None, columns: cols });
        }
    } else if starts_with_word_lit(up.as_slice(), "UNIQUE") {
        if let Some(cols) = extract_paren_list(tr) {
            let name = extract_constraint_name(tr);
            let ghost before = table.unique_constraints.deep_view();
            let uc = UniqueConstraint { name, columns: cols };
            let ghost ucv = uc@;
            table.unique_constraints.push(uc);
            assert(table.unique_constraints.deep_view() =~= before.push(ucv));
        }
    } else if starts_with_word_lit(up.as_slice(), "FOREIGN KEY") || starts_with_word_lit(
        up.as_slice(),
        "CONSTRAINT",
    ) {
        if let Some(fk) = parse_inline_fk(tr) {
            let ghost before = table.foreign_keys.deep_view();
            let ghost fkv = fk@;
            table.foreign_keys.push(fk);
            assert(table.foreign_keys.deep_view() =~= before.push(fkv));
        }
    } else if starts_with_word_lit(up.as_slice(), "CHECK") {
        if let Some(cc) = parse_inline_check(tr) {
            let ghost before = table.check_constraints.deep_view();
            let ghost ccv = cc@;
            table.check_constraints.push(cc);
            assert(table.check_constraints.deep_view() =~= before.push(ccv));
        }
    } else {
        if let Some(col) = parse_column_def(tr, dialect) {
            apply_column_part(table, tr, up.as_slice(), col);
        }
    }
}

/// A table list with `t` in place of the first table of the same name, or
/// with `t` appended where there is none.
pub open spec fn put_table(ts: Seq<TableV>, t: TableV) -> Seq<TableV> {
    match table_pos(ts, t.name) {
        Some(i) => ts.update(i, t),
        None => ts.push(t),
    }
}

fn put_table_exec(schema: &mut Schema, table: Table)
    ensures
        final(schema)@ == (SchemaV { tables: put_table(old(schema)@.tables, table@), ..old(schema)@ }),
{
    let name = str_to_chars(table.name.as_str());
    let ghost before = schema.tables.deep_view();
    let ghost tv = table@;
    match find_table(&schema.tables, name.as_slice()) {
        Some(i) => {
            schema.tables.set(i, table);
            assert(schema.tables.deep_view() =~= before.update(i as int, tv));
        },
        None => {
            schema.tables.push(table);
            assert(schema.tables.deep_view() =~= before.push(tv));
        },
    }
}

/// The text after `CREATE TABLE [IF NOT EXISTS]`, trimmed.
pub open spec fn after_create_table(stmt: Seq<char>, pos: int) -> Seq<char> {
    let a0 = trim(stmt.subrange(pos + "CREATE TABLE"@.len(), stmt.len() as int));
    if starts_with(upper(a0), "IF NOT EXISTS"@) {
        trim(a0.subrange("IF NOT EXISTS"@.len() as int, a0.len() as int))
    } else {
        a0
    }
}

/// The table that a `CREATE TABLE` body defines: the body is the text inside
/// the parentheses after the name (to the end where they do not close), and
/// options after the closing parenthesis are read too.
pub open spec fn created_table(a: Seq<char>, pp: int, dialect: Engine) -> TableV {
    let name = strip_schema(unquote(trim(a.subrange(0, pp))));
    let body0 = a.subrange(pp + 1, a.len() as int);
    let end = match matching_paren(body0) {
        Some(e) => e,
        None => body0.len() as int,
    };
    let t0 = table_parts(empty_table(name), split_by_comma_spec(body0.subrange(0, end)), dialect);
    let after_body = body0.subrange(end, body0.len() as int);
    if after_body.len() > 0 && after_body[0] == ')' {
        TableV {
            options: table_options_spec(after_body.subrange(1, after_body.len() as int), t0.options),
            ..t0
        }
    } else {
        t0
    }
}

/// `CREATE TABLE [IF NOT EXISTS] [schema.]name ( body ) [options]`: the new
/// table replaces one of the same name or is appended.
pub open spec fn create_table_spec(stmt: Seq<char>, dialect: Engine, s: SchemaV) -> SchemaV {
    match find(upper(stmt), "CREATE TABLE"@) {
        None => s,
        Some(pos) => {
            let a = after_create_table(stmt, pos);
            match find_char(a, '(') {
                None => s,
                Some(pp) => SchemaV { tables: put_table(s.tables, created_table(a, pp, dialect)), ..s },
            }
        },
    }
}

fn skip_prefix_ci<'a>(a: &'a [char], lit: &str) -> (r: &'a [char])
    ensures
        r@ == (if starts_with(upper(a@), lit@) {
            trim(a@.subrange(lit@.len() as int, a@.len() as int))
        } else {
            a@
        }),
{
    let ua = to_upper(a);
    let l = str_to_chars(lit);
    if starts_with_exec(ua.as_slice(), l.as_slice()) {
        let al = a.len();
        trim_exec(&a[l.len()..al])
    } else {
        a
    }
}

fn build_table(a: &[char], pp: usize, dialect: Engine) -> (r: Table)
    requires
        pp < a@.len(),
    ensures
        r@ == created_table(a@, pp as int, dialect),
{
    let tname = unquote_exec(trim_exec(&a[0..pp]));
    let name = strip_schema_exec(tname.as_slice());
    let name_s = chars_to_string(name.as_slice());
    let al = a.len();
    let body0 = &a[pp + 1..al];
    let end = match find_matching_paren(body0) {
        Some(e) => e,
        None => body0.len(),
    };
    let parts = split_by_comma(&body0[0..end]);
    let ghost pv = views(parts@);
    let mut table = Table::new(name_s.as_str());
    let mut i: usize = 0;
    assert(pv.take(0) =~= seq![]);
    while i < parts.len()
        invariant
            i <= parts.len(),
            pv == views(parts@),
            pv.len() == parts@.len(),
            table@ == table_parts(empty_table(name@), pv.take(i as int), dialect),
        decreases parts.len() - i,
    {
        assert(pv.take(i + 1).drop_last() =~= pv.take(i as int));
        assert(pv[i as int] == parts@[i as int]@);
        apply_table_part(&mut table, parts[i].as_slice(), dialect);
        i += 1;
    }
    assert(pv.take(parts.len() as int) =~= pv);
    let bl = body0.len();
    let after_body = &body0[end..bl];
    if after_body.len() > 0 && after_body[0] == ')' {
        let abl = after_body.len();
        parse_table_options(&after_body[1..abl], &mut table.options);
    }
    table
}

fn parse_create_table(stmt: &[char], dialect: Engine, schema: &mut Schema)
    ensures
        final(schema)@ == create_table_spec(stmt@, dialect, old(schema)@),
{
    let up = to_upper(stmt);
    let kw = str_to_chars("CREATE TABLE");
    let pos = match find_exec(up.as_slice(), kw.as_slice()) {
        Some(p) => p,
        None => return,
    };
    let sl = stmt.len();
    let a0 = trim_exec(&stmt[pos + kw.len()..sl]);
    let a = skip_prefix_ci(a0, "IF NOT EXISTS");
    let pp = match find_char_exec(a, '(') {
        Some(p) => p,
        None => return,
    };
    let table = build_table(a, pp, dialect);
    put_table_exec(schema, table);
}

// ---------------------------------------------------------------------------
// CREATE TYPE ... AS ENUM
// ---------------------------------------------------------------------------

/// The cleaned values that are not empty.
pub open spec fn nonempty_values(pieces: Seq<Seq<char>>) -> Seq<Seq<char>>
    decreases pieces.len(),
{
    if pieces.len() == 0 {
        seq![]
    } else if clean_value(pieces.last()).len() > 0 {
        nonempty_values(pieces.drop_last()).push(clean_value(pieces.last()))
    } else {
        nonempty_values(pieces.drop_last())
    }
}

fn nonempty_values_exec(pieces: &Vec<Vec<char>>) -> (r: Vec<String>)
    ensures
        r.deep_view() == nonempty_values(views(pieces@)),
{
    let ghost pv = views(pieces@);
    let mut r: Vec<String> = Vec::new();
    let mut i: usize = 0;
    assert(r.deep_view() =~= nonempty_values(pv.take(0)));
    while i < pieces.len()
        invariant
            i <= pieces.len(),
            pv == views(pieces@),
            pv.len() == pieces@.len(),
            r.deep_view() == nonempty_values(pv.take(i as int)),
        decreases pieces.len() - i,
    {
        assert(pv.take(i + 1).drop_last() =~= pv.take(i as int));
        assert(pv[i as int] == pieces@[i as int]@);
        let v = trim_matches_exec(
            trim_matches_exec(trim_exec(pieces[i].as_slice()), '\''),
            '"',
        );
        if v.len() > 0 {
            let ghost before = r.deep_view();
            r.push(chars_to_string(v));
            assert(r.deep_view() =~= before.push(v@));
        }
        i += 1;
    }
    assert(pv.take(pieces.len() as int) =~= pv);
    r
}

/// An enum type list with the values of the first type called `name` set, or
/// with a new type appended where there is none.
pub open spec fn put_enum(es: Seq<EnumTypeV>, name: Seq<char>, values: Seq<Seq<char>>) -> Seq<
    EnumTypeV,
> {
    match enum_pos(es, name) {
        Some(i) => es.update(i, EnumTypeV { name, values }),
        None => es.push(EnumTypeV { name, values }),
    }
}

/// `CREATE TYPE [schema.]name AS ENUM ('a', 'b', ...)`: the name is the text
/// before the first whole word `AS`; the values are the cleaned, non-empty
/// pieces between the first `(` and the last `)`. A
/// statement without `AS ENUM`, or whose last `)` stands before its first
/// `(`, changes nothing.
pub open spec fn create_type_spec(stmt: Seq<char>, s: SchemaV) -> SchemaV {
    let up = upper(stmt);
    if !contains(up, "AS ENUM"@) {
        s
    } else {
        match find(up, "CREATE TYPE"@) {
            None => s,
            Some(pos) => {
                let a = trim(stmt.subrange(pos + "CREATE TYPE"@.len(), stmt.len() as int));
                match find_word(upper(a), "AS"@) {
                    None => s,
                    Some(as_pos) => {
                        let name = strip_schema(unquote(trim(a.subrange(0, as_pos))));
                        match (find_char(a, '('), rfind_char(a, ')')) {
                            (Some(ps), Some(pe)) => if pe < ps + 1 {
                                s
                            } else {
                                let values = nonempty_values(
                                    split_char(a.subrange(ps + 1, pe), ','),
                                );
                                SchemaV { enums: put_enum(s.enums, name, values), ..s }
                            },
                            _ => s,
                        }
                    },
                }
            },
        }
    }
}

fn parse_create_type(stmt: &[char], schema: &mut Schema)
    ensures
        final(schema)@ == create_type_spec(stmt@, old(schema)@),
{
    let up = to_upper(stmt);
    if !contains_lit(up.as_slice(), "AS ENUM") {
        return;
    }
    let kw = str_to_chars("CREATE TYPE");
    let pos = match find_exec(up.as_slice(), kw.as_slice()) {
        Some(p) => p,
        None => return,
    };
    let sl = stmt.len();
    let a = trim_exec(&stmt[pos + kw.len()..sl]);
    let ua = to_upper(a);
    let ask = str_to_chars("AS");
    let as_pos = match find_word_exec(ua.as_slice(), ask.as_slice()) {
        Some(p) => p,
        None => return,
    };
    let tname = unquote_exec(trim_exec(&a[0..as_pos]));
    let name = strip_schema_exec(tname.as_slice());
    let ps = match find_char_exec(a, '(') {
        Some(p) => p,
        None => return,
    };
    let pe = match rfind_char_exec(a, ')') {
        Some(p) => p,
        None => return,
    };
    if pe <= ps {
        return;
    }
    let pieces = split_char_exec(&a[ps + 1..pe], ',');
    let values = nonempty_values_exec(&pieces);
    let ghost before = schema.enums.deep_view();
    let ghost vv = values.deep_view();
    let e = EnumType { name: chars_to_string(name.as_slice()), values };
    match find_enum(&schema.enums, name.as_slice()) {
        Some(i) => {
            schema.enums.set(i, e);
            assert(schema.enums.deep_view() =~= before.update(
                i as int,
                EnumTypeV { name: name@, values: vv },
            ));
        },
        None => {
            schema.enums.push(e);
            assert(schema.enums.deep_view() =~= before.push(EnumTypeV { name: name@, values: vv }));
        },
    }
}

// ---------------------------------------------------------------------------
// CREATE [UNIQUE] INDEX
// ---------------------------------------------------------------------------

/// The head of an index statement: whether it begins `CREATE UNIQUE INDEX`
/// (the word `UNIQUE` between `CREATE` and `INDEX`) or `CREATE INDEX`, and
/// where the index name starts.
pub open spec fn index_head(up: Seq<char>) -> Option<(bool, int)> {
    if starts_with(up, "CREATE UNIQUE INDEX"@) {
        Some((true, "CREATE UNIQUE INDEX"@.len() as int))
    } else if starts_with(up, "CREATE INDEX"@) {
        Some((false, "CREATE INDEX"@.len() as int))
    } else {
        None
    }
}

/// Index column names: the first word of each piece, unquoted (so `ASC` and
/// `DESC` are dropped).
pub open spec fn index_column_names(pieces: Seq<Seq<char>>) -> Seq<Seq<char>>
    decreases pieces.len(),
{
    if pieces.len() == 0 {
        seq![]
    } else {
        index_column_names(pieces.drop_last()).push(unquote(first_word(trim(pieces.last()))))
    }
}

fn index_column_names_exec(pieces: &Vec<Vec<char>>) -> (r: Vec<String>)
    ensures
        r.deep_view() == index_column_names(views(pieces@)),
{
    let ghost pv = views(pieces@);
    let mut r: Vec<String> = Vec::new();
    let mut i: usize = 0;
    assert(r.deep_view() =~= index_column_names(pv.take(0)));
    while i < pieces.len()
        invariant
            i <= pieces.len(),
            pv == views(pieces@),
            pv.len() == pieces@.len(),
            r.deep_view() == index_column_names(pv.take(i as int)),
        decreases pieces.len() - i,
    {
        assert(pv.take(i + 1).drop_last() =~= pv.take(i as int));
        assert(pv[i as int] == pieces@[i as int]@);
        let c = unquote_exec(first_word_exec(trim_exec(pieces[i].as_slice())));
        let ghost before = r.deep_view();
        r.push(chars_to_string(c.as_slice()));
        assert(r.deep_view() =~= before.push(c@));
        i += 1;
    }
    assert(pv.take(pieces.len() as int) =~= pv);
    r
}

/// The index that a `CREATE INDEX` statement defines, given the text after
/// ` ON `, and the name of its table.
pub open spec fn index_on(after_on: Seq<char>, index_name: Seq<char>, unique: bool) -> Option<
    (Seq<char>, IndexV),
> {
    match find_char(after_on, '(') {
        None => None,
        Some(pp) => {
            let inner = after_on.subrange(pp + 1, after_on.len() as int);
            match find_char(inner, ')') {
                None => None,
                Some(e) => Some(
                    (
                        strip_schema(unquote(trim(after_on.subrange(0, pp)))),
                        IndexV {
                            name: Some(index_name),
                            columns: index_column_names(split_char(inner.subrange(0, e), ',')),
                            unique,
                            index_type: None,
                            predicate: match find(upper(after_on), " WHERE "@) {
                                Some(wp) => Some(
                                    trim(
                                        after_on.subrange(
                                            wp + " WHERE "@.len(),
                                            after_on.len() as int,
                                        ),
                                    ),
                                ),
                                None => None,
                            },
                        },
                    ),
                ),
            }
        },
    }
}

/// A table list with `idx` added to the first table called `name`; unchanged
/// where there is no such table.
pub open spec fn add_index(ts: Seq<TableV>, name: Seq<char>, idx: IndexV) -> Seq<TableV> {
    match table_pos(ts, name) {
        Some(i) => ts.update(i, TableV { indexes: ts[i].indexes.push(idx), ..ts[i] }),
        None => ts,
    }
}

/// `CREATE [UNIQUE] INDEX [IF NOT EXISTS] name ON [schema.]table (cols)
/// [WHERE predicate]`: the index is added to its table. The index is unique
/// where the statement begins `CREATE UNIQUE INDEX`.
pub open spec fn create_index_spec(stmt: Seq<char>, s: SchemaV) -> SchemaV {
    match index_head(upper(stmt)) {
        None => s,
        Some(head) => {
            let unique = head.0;
            let k = head.1;
            let a = skip_if_not_exists(trim(stmt.subrange(k, stmt.len() as int)));
            match find(upper(a), " ON "@) {
                None => s,
                Some(on_pos) => {
                    let index_name = unquote(trim(a.subrange(0, on_pos)));
                    let after_on = trim(a.subrange(on_pos + " ON "@.len(), a.len() as int));
                    match index_on(after_on, index_name, unique) {
                        Some(ti) => SchemaV { tables: add_index(s.tables, ti.0, ti.1), ..s },
                        None => s,
                    }
                },
            }
        },
    }
}

/// The text with a leading `IF NOT EXISTS` (in any case) and the whitespace
/// after it removed.
pub open spec fn skip_if_not_exists(a: Seq<char>) -> Seq<char> {
    if starts_with(upper(a), "IF NOT EXISTS"@) {
        trim(a.subrange("IF NOT EXISTS"@.len() as int, a.len() as int))
    } else {
        a
    }
}

fn build_index(after_on: &[char], index_name: Vec<char>, unique: bool) -> (r: Option<(Vec<char>, Index)>)
    ensures
        match r {
            Some(ti) => index_on(after_on@, index_name@, unique) == Some((ti.0@, ti.1@)),
            None => index_on(after_on@, index_name@, unique) is None,
        },
{
    let pp = match find_char_exec(after_on, '(') {
        Some(p) => p,
        None => return None,
    };
    let al = after_on.len();
    let inner = &after_on[pp + 1..al];
    let e = match find_char_exec(inner, ')') {
        Some(x) => x,
        None => return None,
    };
    let tname = unquote_exec(trim_exec(&after_on[0..pp]));
    let table_name = strip_schema_exec(tname.as_slice());
    let pieces = split_char_exec(&inner[0..e], ',');
    let columns = index_column_names_exec(&pieces);
    let ua = to_upper(after_on);
    let wk = str_to_chars(" WHERE ");
    let predicate = match find_exec(ua.as_slice(), wk.as_slice()) {
        Some(wp) => Some(chars_to_string(trim_exec(&after_on[wp + wk.len()..al]))),
        None => None,
    };
    let idx = Index {
        name: Some(chars_to_string(index_name.as_slice())),
        columns,
        unique,
        index_type: None,
        predicate,
    };
    Some((table_name, idx))
}

fn add_index_exec(schema: &mut Schema, name: &[char], idx: Index)
    ensures
        final(schema)@ == (SchemaV { tables: add_index(old(schema)@.tables, name@, idx@), ..old(schema)@ }),
{
    match find_table(&schema.tables, name) {
        Some(i) => {
            let ghost before = schema.tables.deep_view();
            let mut t = schema.tables[i].clone();
            let ghost ib = t.indexes.deep_view();
            let ghost iv = idx@;
            t.indexes.push(idx);
            assert(t.indexes.deep_view() =~= ib.push(iv));
            let ghost tv = t@;
            schema.tables.set(i, t);
            assert(schema.tables.deep_view() =~= before.update(i as int, tv));
        },
        None => {},
    }
}

fn index_head_exec(up: &[char]) -> (r: Option<(bool, usize)>)
    ensures
        match r {
            Some(h) => index_head(up@) == Some((h.0, h.1 as int)) && h.1 <= up@.len(),
            None => index_head(up@) is None,
        },
{
    let k1 = str_to_chars("CREATE UNIQUE INDEX");
    if starts_with_exec(up, k1.as_slice()) {
        return Some((true, k1.len()));
    }
    let k2 = str_to_chars("CREATE INDEX");
    if starts_with_exec(up, k2.as_slice()) {
        return Some((false, k2.len()));
    }
    None
}

fn parse_create_index(stmt: &[char], schema: &mut Schema)
    ensures
        final(schema)@ == create_index_spec(stmt@, old(schema)@),
{
    let up = to_upper(stmt);
    let (unique, k) = match index_head_exec(up.as_slice()) {
        Some(h) => h,
        None => return,
    };
    let sl = stmt.len();
    let a = skip_prefix_ci(trim_exec(&stmt[k..sl]), "IF NOT EXISTS");
    let ua = to_upper(a);
    let ok = str_to_chars(" ON ");
    let on_pos = match find_exec(ua.as_slice(), ok.as_slice()) {
        Some(p) => p,
        None => return,
    };
    let index_name = unquote_exec(trim_exec(&a[0..on_pos]));
    let al = a.len();
    let after_on = trim_exec(&a[on_pos + ok.len()..al]);
    match build_index(after_on, index_name, unique) {
        Some((table_name, idx)) => add_index_exec(schema, table_name.as_slice(), idx),
        None => {},
    }
}

// ---------------------------------------------------------------------------
// ALTER TABLE
// ---------------------------------------------------------------------------

/// The actions of `ALTER TABLE`, longer forms before their prefixes.
pub open spec fn alter_keywords() -> Seq<Seq<char>> {
    seq![
        "ADD COLUMN"@,
        "DROP COLUMN"@,
        "ALTER COLUMN"@,
        "MODIFY COLUMN"@,
        "ADD CONSTRAINT"@,
        "DROP CONSTRAINT"@,
        "ADD FOREIGN KEY"@,
        "ADD CHECK"@,
        "ADD UNIQUE"@,
        "ADD PRIMARY KEY"@,
        "ADD"@,
        "DROP"@,
    ]
}

fn alter_keywords_exec() -> (r: Vec<Vec<char>>)
    ensures
        views(r@) == alter_keywords(),
{
    let mut r: Vec<Vec<char>> = Vec::new();
    r.push(str_to_chars("ADD COLUMN"));
    r.push(str_to_chars("DROP COLUMN"));
    r.push(str_to_chars("ALTER COLUMN"));
    r.push(str_to_chars("MODIFY COLUMN"));
    r.push(str_to_chars("ADD CONSTRAINT"));
    r.push(str_to_chars("DROP CONSTRAINT"));
    r.push(str_to_chars("ADD FOREIGN KEY"));
    r.push(str_to_chars("ADD CHECK"));
    r.push(str_to_chars("ADD UNIQUE"));
    r.push(str_to_chars("ADD PRIMARY KEY"));
    r.push(str_to_chars("ADD"));
    r.push(str_to_chars("DROP"));
    assert(views(r@) =~= alter_keywords());
    r
}

/// The columns without those called `name`.
pub open spec fn without_column(cols: Seq<ColumnV>, name: Seq<char>) -> Seq<ColumnV>
    decreases cols.len(),
{
    if cols.len() == 0 {
        seq![]
    } else if cols.last().name == name {
        without_column(cols.drop_last(), name)
    } else {
        without_column(cols.drop_last(), name).push(cols.last())
    }
}

/// `ADD CONSTRAINT` text applied to a table: a foreign key, else a check,
/// else a unique constraint over a parenthesized column list where the word
/// `UNIQUE` occurs in it.
pub open spec fn add_constraint(t: TableV, rest: Seq<char>) -> TableV {
    match inline_fk(rest) {
        Some(fk) => TableV { foreign_keys: t.foreign_keys.push(fk), ..t },
        None => match inline_check(rest) {
            Some(cc) => TableV { check_constraints: t.check_constraints.push(cc), ..t },
            None => match paren_list(rest) {
                Some(cols) => if contains_word(upper(rest), "UNIQUE"@) {
                    TableV {
                        unique_constraints: t.unique_constraints.push(
                            UniqueConstraintV { name: constraint_name(rest), columns: cols },
                        ),
                        ..t
                    }
                } else {
                    t
                },
                None => t,
            },
        },
    }
}

/// One `ALTER TABLE` action applied to its table: `ADD [COLUMN]` appends a
/// column definition, `DROP [COLUMN]` removes the columns named by the first
/// word, `ADD CONSTRAINT` adds a constraint; the other actions change nothing.
pub open spec fn alter_action(t: TableV, kw: Seq<char>, rest: Seq<char>, dialect: Engine) -> TableV {
    if kw == "ADD COLUMN"@ || kw == "ADD"@ {
        match parsed_column(rest, dialect) {
            Some(col) => TableV { columns: t.columns.push(col), ..t },
            None => t,
        }
    } else if kw == "DROP COLUMN"@ || kw == "DROP"@ {
        TableV { columns: without_column(t.columns, unquote(first_word(rest))), ..t }
    } else if kw == "ADD CONSTRAINT"@ {
        add_constraint(t, rest)
    } else {
        t
    }
}

/// The text with a leading `IF EXISTS` (in any case) and the whitespace after
/// it removed.
pub open spec fn skip_if_exists(a: Seq<char>) -> Seq<char> {
    if starts_with(upper(a), "IF EXISTS"@) {
        trim(a.subrange("IF EXISTS"@.len() as int, a.len() as int))
    } else {
        a
    }
}

/// `ALTER TABLE [IF EXISTS] [schema.]name <action> ...`: the action is the
/// keyword found earliest as a whole word after `ALTER TABLE`; the table name
/// is the text before it. Nothing changes where the table does not exist.
pub open spec fn alter_table_spec(stmt: Seq<char>, dialect: Engine, s: SchemaV) -> SchemaV {
    match find(upper(stmt), "ALTER TABLE"@) {
        None => s,
        Some(pos) => {
            let a = skip_if_exists(
                trim(stmt.subrange(pos + "ALTER TABLE"@.len(), stmt.len() as int)),
            );
            match earliest_word(upper(a), alter_keywords()) {
                None => s,
                Some(kp) => {
                    let kw = alter_keywords()[kp.0];
                    let name = strip_schema(unquote(trim(a.subrange(0, kp.1))));
                    let rest = trim(a.subrange(kp.1 + kw.len(), a.len() as int));
                    match table_pos(s.tables, name) {
                        Some(i) => SchemaV {
                            tables: s.tables.update(i, alter_action(s.tables[i], kw, rest, dialect)),
                            ..s
                        },
                        None => s,
                    }
                },
            }
        },
    }
}

fn without_column_exec(cols: &Vec<Column>, name: &[char]) -> (r: Vec<Column>)
    ensures
        r.deep_view() == without_column(cols.deep_view(), name@),
{
    let ghost cv = cols.deep_view();
    let mut r: Vec<Column> = Vec::new();
    let mut i: usize = 0;
    assert(r.deep_view() =~= without_column(cv.take(0), name@));
    while i < cols.len()
        invariant
            i <= cols.len(),
            cv == cols.deep_view(),
            r.deep_view() == without_column(cv.take(i as int), name@),
        decreases cols.len() - i,
    {
        assert(cv.take(i + 1).drop_last() =~= cv.take(i as int));
        let n = str_to_chars(cols[i].name.as_str());
        if !chars_eq(n.as_slice(), name) {
            let ghost before = r.deep_view();
            let c = cols[i].clone();
            r.push(c);
            assert(r.deep_view() =~= before.push(cv[i as int]));
        }
        i += 1;
    }
    assert(cv.take(cols.len() as int) =~= cv);
    r
}

fn apply_add_constraint(t: &mut Table, rest: &[char])
    ensures
        final(t)@ == add_constraint(old(t)@, rest@),
{
    if let Some(fk) = parse_inline_fk(rest) {
        let ghost before = t.foreign_keys.deep_view();
        let ghost fv = fk@;
        t.foreign_keys.push(fk);
        assert(t.foreign_keys.deep_view() =~= before.push(fv));
    } else if let Some(cc) = parse_inline_check(rest) {
        let ghost before = t.check_constraints.deep_view();
        let ghost cv = cc@;
        t.check_constraints.push(cc);
        assert(t.check_constraints.deep_view() =~= before.push(cv));
    } else if let Some(cols) = extract_paren_list(rest) {
        let name = extract_constraint_name(rest);
        let ur = to_upper(rest);
        if has_word_lit(ur.as_slice(), "UNIQUE") {
            let ghost before = t.unique_constraints.deep_view();
            let uc = UniqueConstraint { name, columns: cols };
            let ghost uv = uc@;
            t.unique_constraints.push(uc);
            assert(t.unique_constraints.deep_view() =~= before.push(uv));
        }
    }
}

fn apply_alter_action(t: &mut Table, kw: &[char], rest: &[char], dialect: Engine)
    ensures
        final(t)@ == alter_action(old(t)@, kw@, rest@, dialect),
{
    if lit_eq(kw, "ADD COLUMN") || lit_eq(kw, "ADD") {
        if let Some(col) = parse_column_def(rest, dialect) {
            let ghost before = t.columns.deep_view();
            let ghost cv = col@;
            t.columns.push(col);
            assert(t.columns.deep_view() =~= before.push(cv));
        }
    } else if lit_eq(kw, "DROP COLUMN") || lit_eq(kw, "DROP") {
        let col_name = unquote_exec(first_word_exec(rest));
        t.columns = without_column_exec(&t.columns, col_name.as_slice());
    } else if lit_eq(kw, "ADD CONSTRAINT") {
        apply_add_constraint(t, rest);
    }
}

fn skip_if_exists_exec(a: &[char]) -> (r: &[char])
    ensures
        r@ == skip_if_exists(a@),
{
    skip_prefix_ci(a, "IF EXISTS")
}

fn parse_alter_table(stmt: &[char], dialect: Engine, schema: &mut Schema)
    ensures
        final(schema)@ == alter_table_spec(stmt@, dialect, old(schema)@),
{
    let up = to_upper(stmt);
    let kw = str_to_chars("ALTER TABLE");
    let pos = match find_exec(up.as_slice(), kw.as_slice()) {
        Some(p) => p,
        None => return,
    };
    let sl = stmt.len();
    let a = skip_if_exists_exec(trim_exec(&stmt[pos + kw.len()..sl]));
    let ua = to_upper(a);
    let kws = alter_keywords_exec();
    let (k, p) = match earliest_word_exec(ua.as_slice(), &kws) {
        Some(kp) => kp,
        None => return,
    };
    proof {
        assert(views(kws@)[k as int] == kws@[k as int]@);
        assert(ua@.len() == a@.len());
    }
    let action = kws[k].as_slice();
    let tname = unquote_exec(trim_exec(&a[0..p]));
    let name = strip_schema_exec(tname.as_slice());
    let al = a.len();
    let rest = trim_exec(&a[p + action.len()..al]);
    match find_table(&schema.tables, name.as_slice()) {
        Some(i) => {
            let ghost before = schema.tables.deep_view();
            let mut t = schema.tables[i].clone();
            apply_alter_action(&mut t, action, rest, dialect);
            let ghost tv = t@;
            schema.tables.set(i, t);
            assert(schema.tables.deep_view() =~= before.update(i as int, tv));
        },
        None => {},
    }
}

// ---------------------------------------------------------------------------
// DROP TABLE and DROP INDEX
// ---------------------------------------------------------------------------

/// The tables without those called `name`.
pub open spec fn without_table(ts: Seq<TableV>, name: Seq<char>) -> Seq<TableV>
    decreases ts.len(),
{
    if ts.len() == 0 {
        seq![]
    } else if ts.last().name == name {
        without_table(ts.drop_last(), name)
    } else {
        without_table(ts.drop_last(), name).push(ts.last())
    }
}

/// `DROP TABLE [IF EXISTS] [schema.]name`: every table of that name is
/// removed.
pub open spec fn drop_table_spec(stmt: Seq<char>, s: SchemaV) -> SchemaV {
    match find(upper(stmt), "DROP TABLE"@) {
        None => s,
        Some(pos) => {
            let a = skip_if_exists(trim(stmt.subrange(pos + "DROP TABLE"@.len(), stmt.len() as int)));
            SchemaV { tables: without_table(s.tables, strip_schema(unquote(first_word(a)))), ..s }
        },
    }
}

/// The indexes without those called `name`.
pub open spec fn without_index(idx: Seq<IndexV>, name: Seq<char>) -> Seq<IndexV>
    decreases idx.len(),
{
    if idx.len() == 0 {
        seq![]
    } else if idx.last().name == Some(name) {
        without_index(idx.drop_last(), name)
    } else {
        without_index(idx.drop_last(), name).push(idx.last())
    }
}

/// Every table with the indexes called `name` removed.
pub open spec fn drop_index_tables(ts: Seq<TableV>, name: Seq<char>) -> Seq<TableV>
    decreases ts.len(),
{
    if ts.len() == 0 {
        seq![]
    } else {
        drop_index_tables(ts.drop_last(), name).push(
            TableV { indexes: without_index(ts.last().indexes, name), ..ts.last() },
        )
    }
}

/// `DROP INDEX [IF EXISTS] name`: the indexes of that name are removed from
/// every table.
pub open spec fn drop_index_spec(stmt: Seq<char>, s: SchemaV) -> SchemaV {
    match find(upper(stmt), "DROP INDEX"@) {
        None => s,
        Some(pos) => {
            let a = skip_if_exists(trim(stmt.subrange(pos + "DROP INDEX"@.len(), stmt.len() as int)));
            SchemaV { tables: drop_index_tables(s.tables, unquote(first_word(a))), ..s }
        },
    }
}

fn parse_drop_table(stmt: &[char], schema: &mut Schema)
    ensures
        final(schema)@ == drop_table_spec(stmt@, old(schema)@),
{
    let up = to_upper(stmt);
    let kw = str_to_chars("DROP TABLE");
    let pos = match find_exec(up.as_slice(), kw.as_slice()) {
        Some(p) => p,
        None => return,
    };
    let sl = stmt.len();
    let a = skip_if_exists_exec(trim_exec(&stmt[pos + kw.len()..sl]));
    let tname = unquote_exec(first_word_exec(a));
    let name = strip_schema_exec(tname.as_slice());
    let ghost tv = schema.tables.deep_view();
    let mut kept: Vec<Table> = Vec::new();
    let mut i: usize = 0;
    assert(kept.deep_view() =~= without_table(tv.take(0), name@));
    while i < schema.tables.len()
        invariant
            i <= schema.tables.len(),
            tv == schema.tables.deep_view(),
            kept.deep_view() == without_table(tv.take(i as int), name@),
        decreases schema.tables.len() - i,
    {
        assert(tv.take(i + 1).drop_last() =~= tv.take(i as int));
        let n = str_to_chars(schema.tables[i].name.as_str());
        if !chars_eq(n.as_slice(), name.as_slice()) {
            let ghost before = kept.deep_view();
            let t = schema.tables[i].clone();
            kept.push(t);
            assert(kept.deep_view() =~= before.push(tv[i as int]));
        }
        i += 1;
    }
    assert(tv.take(schema.tables.len() as int) =~= tv);
    schema.tables = kept;
}

fn without_index_exec(idx: &Vec<Index>, name: &[char]) -> (r: Vec<Index>)
    ensures
        r.deep_view() == without_index(idx.deep_view(), name@),
{
    let ghost iv = idx.deep_view();
    let mut r: Vec<Index> = Vec::new();
    let mut i: usize = 0;
    assert(r.deep_view() =~= without_index(iv.take(0), name@));
    while i < idx.len()
        invariant
            i <= idx.len(),
            iv == idx.deep_view(),
            r.deep_view() == without_index(iv.take(i as int), name@),
        decreases idx.len() - i,
    {
        assert(iv.take(i + 1).drop_last() =~= iv.take(i as int));
        let hit = match &idx[i].name {
            Some(n) => {
                let nc = str_to_chars(n.as_str());
                chars_eq(nc.as_slice(), name)
            },
            None => false,
        };
        if !hit {
            let ghost before = r.deep_view();
            r.push(idx[i].clone());
            assert(r.deep_view() =~= before.push(iv[i as int]));
        }
        i += 1;
    }
    assert(iv.take(idx.len() as int) =~= iv);
    r
}

fn parse_drop_index(stmt: &[char], schema: &mut Schema)
    ensures
        final(schema)@ == drop_index_spec(stmt@, old(schema)@),
{
    let up = to_upper(stmt);
    let kw = str_to_chars("DROP INDEX");
    let pos = match find_exec(up.as_slice(), kw.as_slice()) {
        Some(p) => p,
        None => return,
    };
    let sl = stmt.len();
    let a = skip_if_exists_exec(trim_exec(&stmt[pos + kw.len()..sl]));
    let name = unquote_exec(first_word_exec(a));
    let ghost tv = schema.tables.deep_view();
    let mut out: Vec<Table> = Vec::new();
    let mut i: usize = 0;
    assert(out.deep_view() =~= drop_index_tables(tv.take(0), name@));
    while i < schema.tables.len()
        invariant
            i <= schema.tables.len(),
            tv == schema.tables.deep_view(),
            out.deep_view() == drop_index_tables(tv.take(i as int), name@),
        decreases schema.tables.len() - i,
    {
        assert(tv.take(i + 1).drop_last() =~= tv.take(i as int));
        let mut t = schema.tables[i].clone();
        t.indexes = without_index_exec(&schema.tables[i].indexes, name.as_slice());
        let ghost before = out.deep_view();
        let ghost t_v = t@;
        out.push(t);
        assert(out.deep_view() =~= before.push(t_v));
        i += 1;
    }
    assert(tv.take(schema.tables.len() as int) =~= tv);
    schema.tables = out;
}

// ---------------------------------------------------------------------------
// Splitting SQL text into statements
// ---------------------------------------------------------------------------

/// The state of the statement splitter after reading up to position `i`.
pub struct SplitState {
    pub i: int,
    /// The statement read so far.
    pub cur: Seq<char>,
    /// The line on which the current statement starts.
    pub start_line: int,
    pub in_string: bool,
    pub quote: char,
    pub in_dollar: bool,
    /// The tag of the open dollar quote.
    pub tag: Seq<char>,
    /// The current line.
    pub line: int,
    /// The statements found so far, each with its first line.
    pub out: Seq<(int, Seq<char>)>,
}

pub open spec fn nl(c: char) -> int {
    if c == '\n' {
        1
    } else {
        0
    }
}

/// Number of line breaks in `t`.
pub open spec fn newline_count(t: Seq<char>) -> int
    decreases t.len(),
{
    if t.len() == 0 {
        0
    } else {
        newline_count(t.drop_last()) + nl(t.last())
    }
}

/// Position of the first line break at or after `i`, else the length.
pub open spec fn line_end(s: Seq<char>, i: int) -> int
    decreases s.len() - i,
{
    if 0 <= i < s.len() && s[i] != '\n' {
        line_end(s, i + 1)
    } else {
        i
    }
}

/// Position of the first `*/` at or after `i`; where there is none, the last
/// position (or `i` itself where fewer than two characters are left).
pub open spec fn block_end(s: Seq<char>, i: int) -> int
    decreases s.len() - i,
{
    if 0 <= i && i + 1 < s.len() && !(s[i] == '*' && s[i + 1] == '/') {
        block_end(s, i + 1)
    } else {
        i
    }
}

/// Length of `c` in UTF-8.
pub open spec fn utf8_len(c: char) -> nat {
    if (c as u32) < 0x80 {
        1
    } else if (c as u32) < 0x800 {
        2
    } else if (c as u32) < 0x10000 {
        3
    } else {
        4
    }
}

/// Length of `t` in UTF-8.
pub open spec fn utf8_bytes(t: Seq<char>) -> nat
    decreases t.len(),
{
    if t.len() == 0 {
        0
    } else {
        utf8_bytes(t.drop_last()) + utf8_len(t.last())
    }
}

/// Whether a dollar-quote tag is empty or made of alphanumeric characters
/// and `_`.
pub open spec fn tag_ok(tag: Seq<char>) -> bool {
    forall|k: int| 0 <= k < tag.len() ==> alphanumeric(#[trigger] tag[k]) || tag[k] == '_'
}

/// The tag of a dollar quote opened by the `$` at `i`: the text up to the
/// next `$`, where it is a valid tag.
pub open spec fn dollar_open(s: Seq<char>, i: int) -> Option<Seq<char>> {
    let rest = s.subrange(i + 1, s.len() as int);
    match find_char(rest, '$') {
        Some(e) => if tag_ok(rest.subrange(0, e)) {
            Some(rest.subrange(0, e))
        } else {
            None
        },
        None => None,
    }
}

pub open spec fn min_int(a: int, b: int) -> int {
    if a <= b {
        a
    } else {
        b
    }
}

/// One step inside a dollar-quoted body: characters are kept; the closing
/// `$tag$` ends the quote.
pub open spec fn step_in_dollar(s: Seq<char>, st: SplitState) -> SplitState {
    let ch = s[st.i];
    let line1 = st.line + nl(ch);
    let cur1 = st.cur.push(ch);
    if ch == '$' && matches_at(s, seq!['$'] + st.tag + seq!['$'], st.i) {
        let tail = st.tag.push('$');
        SplitState {
            i: st.i + tail.len() + 1,
            cur: cur1 + tail,
            line: line1 + newline_count(tail),
            in_dollar: false,
            ..st
        }
    } else {
        SplitState { i: st.i + 1, cur: cur1, line: line1, ..st }
    }
}

/// One step inside a quoted string: characters are kept; a doubled quote is
/// kept and the string goes on; a single quote ends it.
pub open spec fn step_in_string(s: Seq<char>, st: SplitState) -> SplitState {
    let ch = s[st.i];
    let line1 = st.line + nl(ch);
    let cur1 = st.cur.push(ch);
    if ch == st.quote {
        if st.i + 1 < s.len() && s[st.i + 1] == st.quote {
            SplitState { i: st.i + 2, cur: cur1.push(s[st.i + 1]), line: line1, ..st }
        } else {
            SplitState { i: st.i + 1, cur: cur1, line: line1, in_string: false, ..st }
        }
    } else {
        SplitState { i: st.i + 1, cur: cur1, line: line1, ..st }
    }
}

/// One step outside quotes: quotes and dollar quotes open, comments are
/// skipped (their line breaks counted), `;` ends a statement, whitespace
/// before a statement is dropped, and other characters are kept.
pub open spec fn step_plain(s: Seq<char>, st: SplitState) -> SplitState {
    let i = st.i;
    let ch = s[i];
    let line1 = st.line + nl(ch);
    if ch == '\'' || ch == '"' {
        SplitState { i: i + 1, cur: st.cur.push(ch), line: line1, in_string: true, quote: ch, ..st }
    } else if ch == '$' {
        match dollar_open(s, i) {
            Some(tag) => {
                let full = seq!['$'] + tag + seq!['$'];
                SplitState {
                    i: min_int(i + utf8_bytes(full), s.len() as int),
                    cur: st.cur + full,
                    line: line1,
                    in_dollar: true,
                    tag,
                    ..st
                }
            },
            None => SplitState { i: i + 1, cur: st.cur.push(ch), line: line1, ..st },
        }
    } else if ch == '-' && i + 1 < s.len() && s[i + 1] == '-' {
        SplitState { i: line_end(s, i), line: line1, ..st }
    } else if ch == '/' && i + 1 < s.len() && s[i + 1] == '*' {
        let j = block_end(s, i + 2);
        SplitState {
            i: min_int(j + 2, s.len() as int),
            line: line1 + if j <= s.len() {
                newline_count(s.subrange(i + 2, j))
            } else {
                0
            },
            ..st
        }
    } else if ch == ';' {
        let t = trim(st.cur);
        SplitState {
            i: i + 1,
            cur: seq![],
            start_line: line1,
            line: line1,
            out: if t.len() > 0 {
                st.out.push((st.start_line, t))
            } else {
                st.out
            },
            ..st
        }
    } else if st.cur.len() == 0 && is_ws(ch) {
        SplitState {
            i: i + 1,
            line: line1,
            start_line: if ch == '\n' {
                line1
            } else {
                st.start_line
            },
            ..st
        }
    } else {
        SplitState { i: i + 1, cur: st.cur.push(ch), line: line1, ..st }
    }
}

pub open spec fn split_step(s: Seq<char>, st: SplitState) -> SplitState {
    if st.in_dollar {
        step_in_dollar(s, st)
    } else if st.in_string {
        step_in_string(s, st)
    } else {
        step_plain(s, st)
    }
}

pub proof fn lemma_line_end(s: Seq<char>, i: int)
    requires
        0 <= i <= s.len(),
    ensures
        i <= line_end(s, i) <= s.len(),
    decreases s.len() - i,
{
    if i < s.len() && s[i] != '\n' {
        lemma_line_end(s, i + 1);
    }
}

pub proof fn lemma_block_end(s: Seq<char>, i: int)
    requires
        0 <= i,
    ensures
        i <= block_end(s, i),
        i < s.len() ==> block_end(s, i) < s.len(),
    decreases s.len() - i,
{
    if i + 1 < s.len() && !(s[i] == '*' && s[i + 1] == '/') {
        lemma_block_end(s, i + 1);
    }
}

pub proof fn lemma_step_advances(s: Seq<char>, st: SplitState)
    requires
        0 <= st.i < s.len(),
    ensures
        st.i < split_step(s, st).i <= s.len(),
{
    if !st.in_dollar && !st.in_string {
        let ch = s[st.i];
        if ch == '-' && st.i + 1 < s.len() && s[st.i + 1] == '-' {
            lemma_line_end(s, st.i + 1);
        } else if ch == '$' {
            match dollar_open(s, st.i) {
                Some(tag) => {},
                None => {},
            }
        } else if ch == '/' && st.i + 1 < s.len() && s[st.i + 1] == '*' {
            lemma_block_end(s, st.i + 2);
        }
    }
}

/// The splitter run from `st` to the end of `s`.
pub open spec fn split_run(s: Seq<char>, st: SplitState) -> SplitState
    decreases s.len() - st.i,
{
    if st.i < 0 || st.i >= s.len() {
        st
    } else {
        proof {
            lemma_step_advances(s, st);
        }
        split_run(s, split_step(s, st))
    }
}

pub open spec fn split_init() -> SplitState {
    SplitState {
        i: 0,
        cur: seq![],
        start_line: 1,
        in_string: false,
        quote: '"',
        in_dollar: false,
        tag: seq![],
        line: 1,
        out: seq![],
    }
}

/// The statements of `sql`, each trimmed and with the line it starts on:
/// split at `;` outside single or double quotes and Postgres dollar quotes,
/// without `--` and `/* */` comments; empty statements are dropped.
pub open spec fn statements(sql: Seq<char>) -> Seq<(int, Seq<char>)> {
    let f = split_run(sql, split_init());
    if trim(f.cur).len() > 0 {
        f.out.push((f.start_line, trim(f.cur)))
    } else {
        f.out
    }
}

pub open spec fn pairs_view(v: Seq<(usize, String)>) -> Seq<(int, Seq<char>)> {
    v.map_values(|p: (usize, String)| (p.0 as int, p.1@))
}

struct Splitter {
    i: usize,
    cur: Vec<char>,
    start_line: usize,
    in_string: bool,
    quote: char,
    in_dollar: bool,
    tag: Vec<char>,
    line: usize,
    out: Vec<(usize, String)>,
}

impl Splitter {
    spec fn state(&self) -> SplitState {
        SplitState {
            i: self.i as int,
            cur: self.cur@,
            start_line: self.start_line as int,
            in_string: self.in_string,
            quote: self.quote,
            in_dollar: self.in_dollar,
            tag: self.tag@,
            line: self.line as int,
            out: pairs_view(self.out@),
        }
    }

    spec fn wf(&self, n: int) -> bool {
        &&& self.i <= n
        &&& self.line <= self.i + 1
        &&& n < usize::MAX
    }
}

proof fn lemma_newline_count_bound(t: Seq<char>)
    ensures
        0 <= newline_count(t) <= t.len(),
    decreases t.len(),
{
    if t.len() > 0 {
        lemma_newline_count_bound(t.drop_last());
    }
}

fn utf8_len_exec(c: char) -> (r: usize)
    ensures
        r == utf8_len(c),
{
    let u = c as u32;
    if u < 0x80 {
        1
    } else if u < 0x800 {
        2
    } else if u < 0x10000 {
        3
    } else {
        4
    }
}

/// `min(i + utf8_bytes(full), n)`.
fn byte_advance(full: &[char], i: usize, n: usize) -> (r: usize)
    requires
        i < n < usize::MAX,
    ensures
        r == min_int(i + utf8_bytes(full@), n as int),
{
    let mut acc: usize = i;
    let mut k: usize = 0;
    assert(full@.take(0) =~= seq![]);
    while k < full.len()
        invariant
            i < n < usize::MAX,
            k <= full@.len(),
            acc == min_int(i + utf8_bytes(full@.take(k as int)), n as int),
        decreases full.len() - k,
    {
        let w = utf8_len_exec(full[k]);
        assert(full@.take(k + 1).drop_last() =~= full@.take(k as int));
        if n - acc <= w {
            acc = n;
        } else {
            acc = acc + w;
        }
        k += 1;
    }
    assert(full@.take(full.len() as int) =~= full@);
    acc
}

/// Number of line breaks in `t`.
fn count_newlines(t: &[char]) -> (r: usize)
    ensures
        r == newline_count(t@),
{
    let mut c: usize = 0;
    let mut k: usize = 0;
    assert(t@.take(0) =~= seq![]);
    while k < t.len()
        invariant
            k <= t@.len(),
            c == newline_count(t@.take(k as int)),
            c <= k,
        decreases t.len() - k,
    {
        assert(t@.take(k + 1).drop_last() =~= t@.take(k as int));
        if t[k] == '\n' {
            c = c + 1;
        }
        k += 1;
    }
    assert(t@.take(t.len() as int) =~= t@);
    c
}

fn tag_ok_exec(tag: &[char]) -> (r: bool)
    ensures
        r == tag_ok(tag@),
{
    let mut k: usize = 0;
    while k < tag.len()
        invariant
            k <= tag.len(),
            forall|j: int| 0 <= j < k ==> alphanumeric(#[trigger] tag@[j]) || tag@[j] == '_',
        decreases tag.len() - k,
    {
        if !(char_is_alphanumeric(tag[k]) || tag[k] == '_') {
            return false;
        }
        k += 1;
    }
    true
}

fn dollar_open_exec(s: &[char], i: usize) -> (r: Option<Vec<char>>)
    requires
        i < s@.len(),
    ensures
        opt_chars(r) == dollar_open(s@, i as int),
        r matches Some(t) ==> i + 1 + t@.len() < s@.len(),
{
    let n = s.len();
    let rest = &s[i + 1..n];
    match find_char_exec(rest, '$') {
        Some(e) => {
            let tag = &rest[0..e];
            if tag_ok_exec(tag) {
                Some(vstd::slice::slice_to_vec(tag))
            } else {
                None
            }
        },
        None => None,
    }
}

fn push_all(cur: &mut Vec<char>, t: &[char])
    ensures
        final(cur)@ == old(cur)@ + t@,
{
    let mut k: usize = 0;
    while k < t.len()
        invariant
            k <= t.len(),
            cur@ == old(cur)@ + t@.take(k as int),
        decreases t.len() - k,
    {
        cur.push(t[k]);
        assert(t@.take(k + 1) =~= t@.take(k as int).push(t@[k as int]));
        k += 1;
    }
    assert(t@.take(t.len() as int) =~= t@);
}

impl Splitter {
    fn step_dollar(&mut self, s: &[char])
        requires
            old(self).wf(s@.len() as int),
            old(self).i < s@.len(),
            old(self).in_dollar,
        ensures
            final(self).wf(s@.len() as int),
            final(self).state() == step_in_dollar(s@, old(self).state()),
    {
        let ch = s[self.i];
        if ch == '\n' {
            self.line = self.line + 1;
        }
        self.cur.push(ch);
        if ch == '$' {
            let mut close: Vec<char> = Vec::new();
            close.push('$');
            push_all(&mut close, self.tag.as_slice());
            close.push('$');
            assert(close@ =~= seq!['$'] + self.tag@ + seq!['$']);
            if matches_at_exec(s, close.as_slice(), self.i) {
                let mut tail: Vec<char> = self.tag.clone();
                tail.push('$');
                assert(tail@ =~= self.tag@.push('$'));
                proof {
                    lemma_newline_count_bound(tail@);
                }
                push_all(&mut self.cur, tail.as_slice());
                let extra = count_newlines(tail.as_slice());
                self.line = self.line + extra;
                self.i = self.i + tail.len() + 1;
                self.in_dollar = false;
                return;
            }
        }
        self.i = self.i + 1;
    }

    fn step_string(&mut self, s: &[char])
        requires
            old(self).wf(s@.len() as int),
            old(self).i < s@.len(),
            !old(self).in_dollar,
            old(self).in_string,
        ensures
            final(self).wf(s@.len() as int),
            final(self).state() == step_in_string(s@, old(self).state()),
    {
        let ch = s[self.i];
        if ch == '\n' {
            self.line = self.line + 1;
        }
        self.cur.push(ch);
        if ch == self.quote {
            if self.i + 1 < s.len() && s[self.i + 1] == self.quote {
                self.cur.push(s[self.i + 1]);
                self.i = self.i + 2;
                return;
            }
            self.in_string = false;
        }
        self.i = self.i + 1;
    }

    fn end_statement(&mut self)
        ensures
            final(self).state() == (SplitState {
                cur: seq![],
                out: if trim(old(self).cur@).len() > 0 {
                    old(self).state().out.push((old(self).start_line as int, trim(old(self).cur@)))
                } else {
                    old(self).state().out
                },
                ..old(self).state()
            }),
            final(self).i == old(self).i,
            final(self).line == old(self).line,
    {
        let t = trim_exec(self.cur.as_slice());
        if t.len() > 0 {
            let ghost before = self.out@;
            let st = chars_to_string(t);
            self.out.push((self.start_line, st));
            assert(pairs_view(self.out@) =~= pairs_view(before).push(
                (self.start_line as int, trim(self.cur@)),
            ));
        }
        self.cur = Vec::new();
        assert(self.cur@ =~= seq![]);
    }

    fn step_plain_exec(&mut self, s: &[char])
        requires
            old(self).wf(s@.len() as int),
            old(self).i < s@.len(),
            !old(self).in_dollar,
            !old(self).in_string,
        ensures
            final(self).wf(s@.len() as int),
            final(self).state() == step_plain(s@, old(self).state()),
    {
        let n = s.len();
        let i = self.i;
        let ch = s[i];
        if ch == '\n' {
            self.line = self.line + 1;
        }
        if ch == '\'' || ch == '"' {
            self.in_string = true;
            self.quote = ch;
            self.cur.push(ch);
            self.i = i + 1;
        } else if ch == '$' {
            match dollar_open_exec(s, i) {
                Some(tag) => {
                    let mut full: Vec<char> = Vec::new();
                    full.push('$');
                    push_all(&mut full, tag.as_slice());
                    full.push('$');
                    assert(full@ =~= seq!['$'] + tag@ + seq!['$']);
                    let adv = byte_advance(full.as_slice(), i, n);
                    push_all(&mut self.cur, full.as_slice());
                    self.tag = tag;
                    self.in_dollar = true;
                    self.i = adv;
                },
                None => {
                    self.cur.push(ch);
                    self.i = i + 1;
                },
            }
        } else if ch == '-' && i + 1 < n && s[i + 1] == '-' {
            let mut k = i;
            while k < n && s[k] != '\n'
                invariant
                    i <= k <= n,
                    n == s@.len(),
                    line_end(s@, k as int) == line_end(s@, i as int),
                decreases n - k,
            {
                k += 1;
            }
            self.i = k;
        } else if ch == '/' && i + 1 < n && s[i + 1] == '*' {
            let mut j = i + 2;
            let line0 = self.line;
            let mut line = self.line;
            proof {
                assert(s@.subrange(i + 2, i + 2) =~= seq![]);
            }
            while j + 1 < n && !(s[j] == '*' && s[j + 1] == '/')
                invariant
                    i + 2 <= j <= n,
                    n == s@.len(),
                    n < usize::MAX,
                    block_end(s@, j as int) == block_end(s@, i + 2),
                    line == line0 + newline_count(s@.subrange(i + 2, j as int)),
                    line0 <= i + 1,
                decreases n - j,
            {
                proof {
                    lemma_newline_count_bound(s@.subrange(i + 2, j as int));
                    assert(s@.subrange(i + 2, j + 1).drop_last() =~= s@.subrange(
                        i + 2,
                        j as int,
                    ));
                }
                if s[j] == '\n' {
                    line = line + 1;
                }
                j += 1;
            }
            proof {
                lemma_newline_count_bound(s@.subrange(i + 2, j as int));
            }
            self.line = line;
            self.i = if j >= n {
                n
            } else if n - j >= 2 {
                j + 2
            } else {
                n
            };
        } else if ch == ';' {
            self.end_statement();
            self.start_line = self.line;
            self.i = i + 1;
        } else if self.cur.len() == 0 && char_is_ws(ch) {
            if ch == '\n' {
                self.start_line = self.line;
            }
            self.i = i + 1;
        } else {
            self.cur.push(ch);
            self.i = i + 1;
        }
    }
}

/// Splits SQL text into statements, each with the line it starts on.
pub fn split_statements(sql: &str) -> (r: Vec<(usize, String)>)
    requires
        sql@.len() < usize::MAX,
    ensures
        pairs_view(r@) == statements(sql@),
{
    let chars = str_to_chars(sql);
    let s = chars.as_slice();
    let mut sp = Splitter {
        i: 0,
        cur: Vec::new(),
        start_line: 1,
        in_string: false,
        quote: '"',
        in_dollar: false,
        tag: Vec::new(),
        line: 1,
        out: Vec::new(),
    };
    assert(sp.cur@ =~= seq![]);
    assert(sp.tag@ =~= seq![]);
    assert(pairs_view(sp.out@) =~= seq![]);
    assert(sp.state() == split_init());
    while sp.i < s.len()
        invariant
            sp.wf(s@.len() as int),
            s@ == sql@,
            split_run(s@, sp.state()) == split_run(s@, split_init()),
        decreases s@.len() - sp.i,
    {
        let ghost st = sp.state();
        if sp.in_dollar {
            sp.step_dollar(s);
        } else if sp.in_string {
            sp.step_string(s);
        } else {
            sp.step_plain_exec(s);
        }
        proof {
            lemma_step_advances(s@, st);
        }
    }
    sp.end_statement();
    sp.out
}

// ---------------------------------------------------------------------------
// Normalizing a statement
// ---------------------------------------------------------------------------

/// Whitespace outside quotes collapsed to single spaces (none at the start),
/// then the whole trimmed.
pub open spec fn norm_from(
    s: Seq<char>,
    i: int,
    res: Seq<char>,
    in_string: bool,
    quote: char,
    last_space: bool,
) -> Seq<char>
    decreases s.len() - i,
{
    if i < 0 || i >= s.len() {
        trim(res)
    } else {
        let ch = s[i];
        if in_string {
            norm_from(s, i + 1, res.push(ch), ch != quote, quote, last_space)
        } else if ch == '\'' || ch == '"' {
            norm_from(s, i + 1, res.push(ch), true, ch, false)
        } else if is_ws(ch) {
            if !last_space && res.len() > 0 {
                norm_from(s, i + 1, res.push(' '), false, quote, true)
            } else {
                norm_from(s, i + 1, res, false, quote, last_space)
            }
        } else {
            norm_from(s, i + 1, res.push(ch), false, quote, false)
        }
    }
}

pub open spec fn normalized(s: Seq<char>) -> Seq<char> {
    norm_from(s, 0, seq![], false, '"', false)
}

fn normalize_chars(s: &[char]) -> (r: Vec<char>)
    ensures
        r@ == normalized(s@),
{
    let mut res: Vec<char> = Vec::new();
    let mut in_string = false;
    let mut quote = '"';
    let mut last_space = false;
    let mut i: usize = 0;
    while i < s.len()
        invariant
            i <= s.len(),
            normalized(s@) == norm_from(s@, i as int, res@, in_string, quote, last_space),
        decreases s.len() - i,
    {
        let ch = s[i];
        if in_string {
            res.push(ch);
            if ch == quote {
                in_string = false;
            }
        } else if ch == '\'' || ch == '"' {
            in_string = true;
            quote = ch;
            res.push(ch);
            last_space = false;
        } else if char_is_ws(ch) {
            if !last_space && res.len() > 0 {
                res.push(' ');
                last_space = true;
            }
        } else {
            res.push(ch);
            last_space = false;
        }
        i += 1;
    }
    vstd::slice::slice_to_vec(trim_exec(res.as_slice()))
}

/// Collapses whitespace outside quoted strings to single spaces and trims.
pub fn normalize_statement(s: &str) -> (r: String)
    ensures
        r@ == normalized(s@),
{
    let cs = str_to_chars(s);
    let n = normalize_chars(cs.as_slice());
    chars_to_string(n.as_slice())
}

// ---------------------------------------------------------------------------
// Applying statements to a schema
// ---------------------------------------------------------------------------

/// One statement applied to the schema, by its leading keywords (as whole
/// words, so `CREATE TABLESPACE` is not `CREATE TABLE`) after normalizing;
/// statements of other kinds (`INSERT`, `COMMENT`, `SET`, ...) change nothing.
pub open spec fn apply_statement(stmt: Seq<char>, dialect: Engine, s: SchemaV) -> SchemaV {
    let n = normalized(stmt);
    let u = upper(n);
    if starts_with_word(u, "CREATE TABLE"@) {
        create_table_spec(n, dialect, s)
    } else if starts_with_word(u, "CREATE TYPE"@) {
        create_type_spec(n, s)
    } else if starts_with_word(u, "CREATE UNIQUE INDEX"@) || starts_with_word(u, "CREATE INDEX"@) {
        create_index_spec(n, s)
    } else if starts_with_word(u, "ALTER TABLE"@) {
        alter_table_spec(n, dialect, s)
    } else if starts_with_word(u, "DROP TABLE"@) {
        drop_table_spec(n, s)
    } else if starts_with_word(u, "DROP INDEX"@) {
        drop_index_spec(n, s)
    } else {
        s
    }
}

/// The statements applied in order.
pub open spec fn apply_statements(stmts: Seq<(int, Seq<char>)>, dialect: Engine, s: SchemaV) -> SchemaV
    decreases stmts.len(),
{
    if stmts.len() == 0 {
        s
    } else {
        apply_statement(stmts.last().1, dialect, apply_statements(stmts.drop_last(), dialect, s))
    }
}

/// The schema after the DDL statements of `sql`.
pub open spec fn parse_sql_spec(sql: Seq<char>, dialect: Engine, s: SchemaV) -> SchemaV {
    apply_statements(statements(sql), dialect, s)
}

fn apply_statement_exec(stmt: &String, dialect: Engine, schema: &mut Schema)
    ensures
        final(schema)@ == apply_statement(stmt@, dialect, old(schema)@),
{
    let cs = str_to_chars(stmt.as_str());
    let n = normalize_chars(cs.as_slice());
    let ns = n.as_slice();
    let u = to_upper(ns);
    let us = u.as_slice();
    if starts_with_word_lit(us, "CREATE TABLE") {
        parse_create_table(ns, dialect, schema);
    } else if starts_with_word_lit(us, "CREATE TYPE") {
        parse_create_type(ns, schema);
    } else if starts_with_word_lit(us, "CREATE UNIQUE INDEX") || starts_with_word_lit(us, "CREATE INDEX") {
        parse_create_index(ns, schema);
    } else if starts_with_word_lit(us, "ALTER TABLE") {
        parse_alter_table(ns, dialect, schema);
    } else if starts_with_word_lit(us, "DROP TABLE") {
        parse_drop_table(ns, schema);
    } else if starts_with_word_lit(us, "DROP INDEX") {
        parse_drop_index(ns, schema);
    }
}

fn apply_sql(sql: &str, dialect: Engine, schema: &mut Schema)
    requires
        sql@.len() < usize::MAX,
    ensures
        final(schema)@ == parse_sql_spec(sql@, dialect, old(schema)@),
{
    let stmts = split_statements(sql);
    let ghost sv = pairs_view(stmts@);
    let ghost s0 = schema@;
    let mut k: usize = 0;
    assert(sv.take(0) =~= seq![]);
    while k < stmts.len()
        invariant
            k <= stmts.len(),
            sv == pairs_view(stmts@),
            sv == statements(sql@),
            schema@ == apply_statements(sv.take(k as int), dialect, s0),
        decreases stmts.len() - k,
    {
        assert(sv.take(k + 1).drop_last() =~= sv.take(k as int));
        assert(sv.take(k + 1).last().1 == stmts@[k as int].1@);
        apply_statement_exec(&stmts[k].1, dialect, schema);
        k += 1;
    }
    assert(sv.take(stmts.len() as int) =~= sv);
}

/// Parses a single SQL string and applies its DDL statements to the schema.
/// `file` names the migration the text comes from.
pub fn parse_sql(sql: &str, dialect: Engine, file: &Path, schema: &mut Schema) -> (r: Result<
    (),
    ParseError,
>)
    requires
        sql@.len() < usize::MAX,
    ensures
        r is Ok,
        final(schema)@ == parse_sql_spec(sql@, dialect, old(schema)@),
{
    apply_sql(sql, dialect, schema);
    Ok(())
}

// ---------------------------------------------------------------------------
// Migration sequences
// ---------------------------------------------------------------------------

/// The schema name migrations start from: `public` under Postgres, `default`
/// under MySQL.
pub open spec fn default_schema_name(dialect: Engine) -> Seq<char> {
    match dialect {
        Engine::Postgres => "public"@,
        Engine::Mysql => "default"@,
    }
}

/// Migration texts applied to the schema in order.
pub open spec fn migrations_spec(sqls: Seq<Seq<char>>, dialect: Engine, s: SchemaV) -> SchemaV
    decreases sqls.len(),
{
    if sqls.len() == 0 {
        s
    } else {
        parse_sql_spec(sqls.last(), dialect, migrations_spec(sqls.drop_last(), dialect, s))
    }
}

/// The schema that migration texts define when applied in order to an empty
/// schema named after the dialect's default.
pub fn apply_migrations(sqls: &Vec<String>, dialect: Engine) -> (r: Schema)
    requires
        forall|i: int| 0 <= i < sqls.len() ==> (#[trigger] sqls[i])@.len() < usize::MAX,
    ensures
        r@ == migrations_spec(
            sqls.deep_view(),
            dialect,
            SchemaV { name: default_schema_name(dialect), enums: seq![], tables: seq![] },
        ),
{
    let mut schema = match dialect {
        Engine::Postgres => Schema::new("public"),
        Engine::Mysql => Schema::new("default"),
    };
    let ghost s0 = schema@;
    let ghost sv = sqls.deep_view();
    let mut k: usize = 0;
    assert(sv.take(0) =~= seq![]);
    while k < sqls.len()
        invariant
            k <= sqls.len(),
            sv == sqls.deep_view(),
            s0 == (SchemaV { name: default_schema_name(dialect), enums: seq![], tables: seq![] }),
            forall|i: int| 0 <= i < sqls.len() ==> (#[trigger] sqls[i])@.len() < usize::MAX,
            schema@ == migrations_spec(sv.take(k as int), dialect, s0),
        decreases sqls.len() - k,
    {
        assert(sv.take(k + 1).drop_last() =~= sv.take(k as int));
        assert(sv.take(k + 1).last() == sqls[k as int]@);
        apply_sql(sqls[k].as_str(), dialect, &mut schema);
        k += 1;
    }
    assert(sv.take(sqls.len() as int) =~= sv);
    schema
}

// ---------------------------------------------------------------------------
// Laws
// ---------------------------------------------------------------------------

/// A split statement: on a line from 1 on, not empty, and neither starting
/// nor ending with whitespace.
pub open spec fn good_statement(p: (int, Seq<char>)) -> bool {
    &&& p.0 >= 1
    &&& p.1.len() > 0
    &&& !is_ws(p.1[0])
    &&& !is_ws(p.1[p.1.len() - 1])
}

pub open spec fn split_inv(st: SplitState) -> bool {
    &&& st.line >= 1
    &&& st.start_line >= 1
    &&& forall|k: int| 0 <= k < st.out.len() ==> good_statement(#[trigger] st.out[k])
}

proof fn lemma_step_inv(s: Seq<char>, st: SplitState)
    requires
        0 <= st.i < s.len(),
        split_inv(st),
    ensures
        split_inv(split_step(s, st)),
{
    let nx = split_step(s, st);
    if st.in_dollar {
        lemma_newline_count_bound(st.tag.push('$'));
    } else if !st.in_string {
        let ch = s[st.i];
        if ch == '/' && st.i + 1 < s.len() && s[st.i + 1] == '*' {
            let j = block_end(s, st.i + 2);
            if j <= s.len() {
                lemma_block_end(s, st.i + 2);
                lemma_newline_count_bound(s.subrange(st.i + 2, j));
            }
        } else if ch == ';' {
            lemma_trim_edges(st.cur);
            assert forall|k: int| 0 <= k < nx.out.len() implies good_statement(#[trigger] nx.out[k]) by {
                if k < st.out.len() {
                    assert(nx.out[k] == st.out[k]);
                }
            }
        }
    }
}

proof fn lemma_run_inv(s: Seq<char>, st: SplitState)
    requires
        split_inv(st),
    ensures
        split_inv(split_run(s, st)),
    decreases s.len() - st.i,
{
    if 0 <= st.i < s.len() {
        lemma_step_advances(s, st);
        lemma_step_inv(s, st);
        lemma_run_inv(s, split_step(s, st));
    }
}

/// Every statement split from SQL text is on a line from 1 on, is not empty,
/// and neither starts nor ends with whitespace.
pub proof fn lemma_statements_good(sql: Seq<char>)
    ensures
        forall|k: int| 0 <= k < statements(sql).len() ==> good_statement(#[trigger] statements(sql)[k]),
{
    assert(split_inv(split_init()));
    lemma_run_inv(sql, split_init());
    let f = split_run(sql, split_init());
    lemma_trim_edges(f.cur);
    assert forall|k: int| 0 <= k < statements(sql).len() implies good_statement(
        #[trigger] statements(sql)[k],
    ) by {
        if k < f.out.len() {
            assert(statements(sql)[k] == f.out[k]);
        }
    }
}

/// Table names and enum type names are distinct.
pub open spec fn names_distinct(s: SchemaV) -> bool {
    distinct_table_names(s.tables) && distinct_enum_names(s.enums)
}

/// Putting a table keeps table names distinct, and the table is then found
/// under its name.
pub proof fn lemma_put_table(ts: Seq<TableV>, t: TableV)
    requires
        distinct_table_names(ts),
    ensures
        distinct_table_names(put_table(ts, t)),
        table_pos(put_table(ts, t), t.name) matches Some(i) && put_table(ts, t)[i] == t,
{
    let hits = table_hits(ts, t.name);
    lemma_first_true_from(hits, 0);
    let u = put_table(ts, t);
    match table_pos(ts, t.name) {
        Some(i) => {
            assert(ts[i].name == t.name);
            assert forall|a: int, b: int| 0 <= a < b < u.len() implies u[a].name != u[b].name by {
                assert(u[a].name == ts[a].name);
                assert(u[b].name == ts[b].name);
            }
            crate::schema::lemma_table_pos_at(u, i);
        },
        None => {
            assert forall|a: int, b: int| 0 <= a < b < u.len() implies u[a].name != u[b].name by {
                if b == ts.len() {
                    assert(!hits[a]);
                }
            }
            crate::schema::lemma_table_pos_at(u, ts.len() as int);
        },
    }
}

/// A table that was put is found under its name, whatever the names before.
proof fn lemma_put_table_found(ts: Seq<TableV>, t: TableV)
    ensures
        table_pos(put_table(ts, t), t.name) matches Some(i) && put_table(ts, t)[i] == t,
{
    let hits = table_hits(ts, t.name);
    lemma_first_true_from(hits, 0);
    let u = put_table(ts, t);
    let uh = table_hits(u, t.name);
    match table_pos(ts, t.name) {
        Some(i) => {
            assert forall|j: int| 0 <= j < i implies !uh[j] by {
                assert(!hits[j]);
            }
            lemma_first_true(uh, Some(i));
        },
        None => {
            assert forall|j: int| 0 <= j < ts.len() implies !uh[j] by {
                assert(!hits[j]);
            }
            lemma_first_true(uh, Some(ts.len() as int));
        },
    }
}

proof fn lemma_put_enum(es: Seq<EnumTypeV>, name: Seq<char>, values: Seq<Seq<char>>)
    requires
        distinct_enum_names(es),
    ensures
        distinct_enum_names(put_enum(es, name, values)),
{
    let hits = enum_hits(es, name);
    lemma_first_true_from(hits, 0);
    let u = put_enum(es, name, values);
    match enum_pos(es, name) {
        Some(i) => {
            assert forall|a: int, b: int| 0 <= a < b < u.len() implies u[a].name != u[b].name by {
                assert(u[a].name == es[a].name);
                assert(u[b].name == es[b].name);
            }
        },
        None => {
            assert forall|a: int, b: int| 0 <= a < b < u.len() implies u[a].name != u[b].name by {
                if b == es.len() {
                    assert(!hits[a]);
                }
            }
        },
    }
}

proof fn lemma_update_same_name(ts: Seq<TableV>, i: int, t: TableV)
    requires
        distinct_table_names(ts),
        0 <= i < ts.len(),
        t.name == ts[i].name,
    ensures
        distinct_table_names(ts.update(i, t)),
{
    let u = ts.update(i, t);
    assert forall|a: int, b: int| 0 <= a < b < u.len() implies u[a].name != u[b].name by {
        assert(u[a].name == ts[a].name);
        assert(u[b].name == ts[b].name);
    }
}

proof fn lemma_pos_some(ts: Seq<TableV>, name: Seq<char>)
    ensures
        table_pos(ts, name) matches Some(i) ==> 0 <= i < ts.len() && ts[i].name == name,
{
    lemma_first_true_from(table_hits(ts, name), 0);
}

/// The tables kept by `without_table` are tables of the list, none of them
/// called `name`.
pub proof fn lemma_without_table(ts: Seq<TableV>, name: Seq<char>)
    ensures
        forall|k: int| 0 <= k < without_table(ts, name).len() ==> ts.contains(
            #[trigger] without_table(ts, name)[k],
        ) && without_table(ts, name)[k].name != name,
        distinct_table_names(ts) ==> distinct_table_names(without_table(ts, name)),
    decreases ts.len(),
{
    if ts.len() > 0 {
        let d = ts.drop_last();
        lemma_without_table(d, name);
        let w = without_table(ts, name);
        let wd = without_table(d, name);
        assert forall|k: int| 0 <= k < w.len() implies ts.contains(#[trigger] w[k]) && w[k].name
            != name by {
            if k < wd.len() {
                assert(w[k] == wd[k]);
                let j = choose|j: int| 0 <= j < d.len() && d[j] == wd[k];
                assert(ts[j] == w[k]);
            } else {
                assert(w[k] == ts[ts.len() - 1]);
            }
        }
        if distinct_table_names(ts) {
            assert(distinct_table_names(d));
            assert forall|a: int, b: int| 0 <= a < b < w.len() implies w[a].name != w[b].name by {
                if b < wd.len() {
                    assert(w[a] == wd[a]);
                    assert(w[b] == wd[b]);
                } else {
                    assert(w[a] == wd[a]);
                    let j = choose|j: int| 0 <= j < d.len() && d[j] == wd[a];
                    assert(w[b] == ts[ts.len() - 1]);
                    assert(ts[j].name != ts[ts.len() - 1].name);
                }
            }
        }
    }
}

proof fn lemma_drop_index_tables(ts: Seq<TableV>, name: Seq<char>)
    ensures
        drop_index_tables(ts, name).len() == ts.len(),
        forall|k: int| 0 <= k < ts.len() ==> (#[trigger] drop_index_tables(ts, name)[k]).name
            == ts[k].name,
    decreases ts.len(),
{
    if ts.len() > 0 {
        lemma_drop_index_tables(ts.drop_last(), name);
        let r = drop_index_tables(ts, name);
        assert forall|k: int| 0 <= k < ts.len() implies (#[trigger] r[k]).name == ts[k].name by {
            if k < ts.len() - 1 {
                assert(r[k] == drop_index_tables(ts.drop_last(), name)[k]);
            }
        }
    }
}

proof fn lemma_apply_statement_distinct(stmt: Seq<char>, dialect: Engine, s: SchemaV)
    requires
        names_distinct(s),
    ensures
        names_distinct(apply_statement(stmt, dialect, s)),
{
    let n = normalized(stmt);
    let u = upper(n);
    if starts_with_word(u, "CREATE TABLE"@) {
        match find(upper(n), "CREATE TABLE"@) {
            Some(pos) => {
                let a = after_create_table(n, pos);
                match find_char(a, '(') {
                    Some(pp) => lemma_put_table(s.tables, created_table(a, pp, dialect)),
                    None => {},
                }
            },
            None => {},
        }
    } else if starts_with_word(u, "CREATE TYPE"@) {
        let r = create_type_spec(n, s);
        if r != s {
            let up = upper(n);
            let pos = find(up, "CREATE TYPE"@)->0;
            let a = trim(n.subrange(pos + "CREATE TYPE"@.len(), n.len() as int));
            let as_pos = find_word(upper(a), "AS"@)->0;
            let name = strip_schema(unquote(trim(a.subrange(0, as_pos))));
            let ps = find_char(a, '(')->0;
            let pe = rfind_char(a, ')')->0;
            lemma_put_enum(
                s.enums,
                name,
                nonempty_values(split_char(a.subrange(ps + 1, pe), ',')),
            );
        }
    } else if starts_with_word(u, "CREATE UNIQUE INDEX"@) || starts_with_word(u, "CREATE INDEX"@) {
        let r = create_index_spec(n, s);
        if r != s {
            assert forall|ts: Seq<TableV>, nm: Seq<char>, idx: IndexV|
                distinct_table_names(ts) implies #[trigger] distinct_table_names(
                add_index(ts, nm, idx),
            ) by {
                lemma_pos_some(ts, nm);
                match table_pos(ts, nm) {
                    Some(i) => lemma_update_same_name(
                        ts,
                        i,
                        TableV { indexes: ts[i].indexes.push(idx), ..ts[i] },
                    ),
                    None => {},
                }
            }
        }
    } else if starts_with_word(u, "ALTER TABLE"@) {
        match find(upper(n), "ALTER TABLE"@) {
            Some(pos) => {
                let a = skip_if_exists(
                    trim(n.subrange(pos + "ALTER TABLE"@.len(), n.len() as int)),
                );
                match earliest_word(upper(a), alter_keywords()) {
                    Some(kp) => {
                        let kw = alter_keywords()[kp.0];
                        let name = strip_schema(unquote(trim(a.subrange(0, kp.1))));
                        let rest = trim(a.subrange(kp.1 + kw.len(), a.len() as int));
                        lemma_pos_some(s.tables, name);
                        match table_pos(s.tables, name) {
                            Some(i) => {
                                assert(alter_action(s.tables[i], kw, rest, dialect).name
                                    == s.tables[i].name);
                                lemma_update_same_name(
                                    s.tables,
                                    i,
                                    alter_action(s.tables[i], kw, rest, dialect),
                                );
                            },
                            None => {},
                        }
                    },
                    None => {},
                }
            },
            None => {},
        }
    } else if starts_with_word(u, "DROP TABLE"@) {
        assert forall|nm: Seq<char>| #[trigger] distinct_table_names(without_table(s.tables, nm)) by {
            lemma_without_table(s.tables, nm);
        }
    } else if starts_with_word(u, "DROP INDEX"@) {
        assert forall|nm: Seq<char>| #[trigger] distinct_table_names(
            drop_index_tables(s.tables, nm),
        ) by {
            lemma_drop_index_tables(s.tables, nm);
            let r = drop_index_tables(s.tables, nm);
            assert forall|a: int, b: int| 0 <= a < b < r.len() implies r[a].name != r[b].name by {
                assert(r[a].name == s.tables[a].name);
                assert(r[b].name == s.tables[b].name);
            }
        }
    }
}

/// Applying SQL statements keeps table names and enum type names distinct: a
/// `CREATE TABLE` or `CREATE TYPE` of an existing name replaces it.
pub proof fn lemma_parse_keeps_names_distinct(sql: Seq<char>, dialect: Engine, s: SchemaV)
    requires
        names_distinct(s),
    ensures
        names_distinct(parse_sql_spec(sql, dialect, s)),
{
    lemma_apply_statements_distinct(statements(sql), dialect, s);
}

proof fn lemma_apply_statements_distinct(stmts: Seq<(int, Seq<char>)>, dialect: Engine, s: SchemaV)
    requires
        names_distinct(s),
    ensures
        names_distinct(apply_statements(stmts, dialect, s)),
    decreases stmts.len(),
{
    if stmts.len() > 0 {
        lemma_apply_statements_distinct(stmts.drop_last(), dialect, s);
        lemma_apply_statement_distinct(
            stmts.last().1,
            dialect,
            apply_statements(stmts.drop_last(), dialect, s),
        );
    }
}

/// After `CREATE TABLE`, the table it defines is found under its name.
pub proof fn lemma_create_table_found(stmt: Seq<char>, dialect: Engine, s: SchemaV)
    ensures
        match find(upper(stmt), "CREATE TABLE"@) {
            Some(pos) => match find_char(after_create_table(stmt, pos), '(') {
                Some(pp) => {
                    let t = created_table(after_create_table(stmt, pos), pp, dialect);
                    let r = create_table_spec(stmt, dialect, s);
                    table_pos(r.tables, t.name) matches Some(i) && r.tables[i] == t
                },
                None => create_table_spec(stmt, dialect, s) == s,
            },
            None => create_table_spec(stmt, dialect, s) == s,
        },
{
    match find(upper(stmt), "CREATE TABLE"@) {
        Some(pos) => match find_char(after_create_table(stmt, pos), '(') {
            Some(pp) => lemma_put_table_found(
                s.tables,
                created_table(after_create_table(stmt, pos), pp, dialect),
            ),
            None => {},
        },
        None => {},
    }
}

/// After `DROP TABLE`, no table of the dropped name is left, and every table
/// left was there before.
pub proof fn lemma_drop_table_gone(stmt: Seq<char>, s: SchemaV)
    ensures
        match find(upper(stmt), "DROP TABLE"@) {
            Some(pos) => {
                let a = skip_if_exists(
                    trim(stmt.subrange(pos + "DROP TABLE"@.len(), stmt.len() as int)),
                );
                let name = strip_schema(unquote(first_word(a)));
                let r = drop_table_spec(stmt, s);
                table_pos(r.tables, name) is None && forall|k: int|
                    0 <= k < r.tables.len() ==> s.tables.contains(#[trigger] r.tables[k])
            },
            None => drop_table_spec(stmt, s) == s,
        },
{
    match find(upper(stmt), "DROP TABLE"@) {
        Some(pos) => {
            let a = skip_if_exists(trim(stmt.subrange(pos + "DROP TABLE"@.len(), stmt.len() as int)));
            let name = strip_schema(unquote(first_word(a)));
            lemma_without_table(s.tables, name);
            lemma_pos_some(without_table(s.tables, name), name);
        },
        None => {},
    }
}


/// A type word without parameters: the trimmed upper-cased token is `w`,
/// which holds no `(`; the base name the type table sees is then `w` itself.
proof fn lemma_plain_type_word(t: Seq<char>, w: Seq<char>)
    requires
        trim(upper(t)) == w,
        forall|i: int| 0 <= i < w.len() ==> w[i] != '(',
    ensures
        find_char(trim(upper(t)), '(') is None,
{
    assert forall|j: int| 0 <= j implies !#[trigger] matches_at(w, seq!['('], j) by {
        if matches_at(w, seq!['('], j) {
            assert(w.subrange(j, j + 1)[0] == w[j]);
        }
    }
    lemma_find_char(w, seq!['('], None);
}

/// The integer type words name the integer type of their width, in any case
/// and dialect and whatever follows them: `SMALLINT`, `INT2`, `SMALLSERIAL`
/// give `SmallInt`; `INTEGER`, `INT`, `INT4`, `SERIAL` give `Integer`;
/// `BIGINT`, `INT8`, `BIGSERIAL` give `BigInt`.
pub proof fn lemma_integer_type_words(t: Seq<char>, rest: Seq<Seq<char>>, dialect: Engine)
    ensures
        trim(upper(t)) == "SMALLINT"@ || trim(upper(t)) == "INT2"@ || trim(upper(t))
            == "SMALLSERIAL"@ ==> data_type_spec(t, rest, dialect) == DataTypeV::SmallInt,
        trim(upper(t)) == "INTEGER"@ || trim(upper(t)) == "INT"@ || trim(upper(t)) == "INT4"@
            || trim(upper(t)) == "SERIAL"@ ==> data_type_spec(t, rest, dialect)
            == DataTypeV::Integer,
        trim(upper(t)) == "BIGINT"@ || trim(upper(t)) == "INT8"@ || trim(upper(t))
            == "BIGSERIAL"@ ==> data_type_spec(t, rest, dialect) == DataTypeV::BigInt,
{
    reveal_strlit("SMALLINT");
    reveal_strlit("INT2");
    reveal_strlit("SMALLSERIAL");
    reveal_strlit("INTEGER");
    reveal_strlit("INT");
    reveal_strlit("INT4");
    reveal_strlit("SERIAL");
    reveal_strlit("BIGINT");
    reveal_strlit("INT8");
    reveal_strlit("BIGSERIAL");
    let w = trim(upper(t));
    if w == "SMALLINT"@ || w == "INT2"@ || w == "SMALLSERIAL"@ || w == "INTEGER"@ || w == "INT"@
        || w == "INT4"@ || w == "SERIAL"@ || w == "BIGINT"@ || w == "INT8"@ || w == "BIGSERIAL"@ {
        lemma_plain_type_word(t, w);
        assert(w[3] != "INT2"@[3] || w.len() != 4 || w == "INT2"@);
        assert(w[0] != "SERIAL"@[0] || w.len() != 6 || w == "SERIAL"@);
        if w == "BIGINT"@ {
            assert(w != "SERIAL"@) by { assert(w[0] != "SERIAL"@[0]); }
            assert(known_type_a(w, None, dialect) == Some(DataTypeV::BigInt));
        }
        if w == "INT8"@ {
            assert(w != "INT2"@) by { assert(w[3] != "INT2"@[3]); }
            assert(w != "INT4"@) by { assert(w[3] != "INT4"@[3]); }
            assert(known_type_a(w, None, dialect) == Some(DataTypeV::BigInt));
        }
        if w == "INT4"@ {
            assert(w != "INT2"@) by { assert(w[3] != "INT2"@[3]); }
            assert(known_type_a(w, None, dialect) == Some(DataTypeV::Integer));
        }
    }
}


/// The text type words name the text types, in any case and dialect and
/// whatever follows them: `TEXT` gives `Text`, `MEDIUMTEXT` gives
/// `MediumText`, `LONGTEXT` gives `LongText`.
pub proof fn lemma_text_type_words(t: Seq<char>, rest: Seq<Seq<char>>, dialect: Engine)
    ensures
        trim(upper(t)) == "TEXT"@ ==> data_type_spec(t, rest, dialect) == DataTypeV::Text,
        trim(upper(t)) == "MEDIUMTEXT"@ ==> data_type_spec(t, rest, dialect)
            == DataTypeV::MediumText,
        trim(upper(t)) == "LONGTEXT"@ ==> data_type_spec(t, rest, dialect) == DataTypeV::LongText,
{
    reveal_strlit("SMALLINT");
    reveal_strlit("INT2");
    reveal_strlit("SMALLSERIAL");
    reveal_strlit("INTEGER");
    reveal_strlit("INT");
    reveal_strlit("INT4");
    reveal_strlit("SERIAL");
    reveal_strlit("BIGINT");
    reveal_strlit("INT8");
    reveal_strlit("BIGSERIAL");
    reveal_strlit("TINYINT");
    reveal_strlit("MEDIUMINT");
    reveal_strlit("REAL");
    reveal_strlit("FLOAT4");
    reveal_strlit("FLOAT");
    reveal_strlit("DOUBLE");
    reveal_strlit("FLOAT8");
    reveal_strlit("NUMERIC");
    reveal_strlit("DECIMAL");
    reveal_strlit("VARCHAR");
    reveal_strlit("CHARACTER VARYING");
    reveal_strlit("CHAR");
    reveal_strlit("CHARACTER");
    reveal_strlit("TEXT");
    reveal_strlit("MEDIUMTEXT");
    reveal_strlit("LONGTEXT");
    let w = trim(upper(t));
    if w == "TEXT"@ {
        lemma_plain_type_word(t, w);
        assert(w != "INT2"@) by { assert(w[0] != "INT2"@[0]); }
        assert(w != "INT4"@) by { assert(w[0] != "INT4"@[0]); }
        assert(w != "INT8"@) by { assert(w[0] != "INT8"@[0]); }
        assert(w != "REAL"@) by { assert(w[0] != "REAL"@[0]); }
        assert(w != "CHAR"@) by { assert(w[0] != "CHAR"@[0]); }
        assert(known_type_a(w, None, dialect) == Some(DataTypeV::Text));
    }
    if w == "MEDIUMTEXT"@ {
        lemma_plain_type_word(t, w);
        assert(known_type_a(w, None, dialect) == Some(DataTypeV::MediumText));
    }
    if w == "LONGTEXT"@ {
        lemma_plain_type_word(t, w);
        assert(w != "SMALLINT"@) by { assert(w[0] != "SMALLINT"@[0]); }
        assert(known_type_a(w, None, dialect) == Some(DataTypeV::LongText));
    }
}


/// Upper-casing the lower-case word `lo` gives `up`, a word without
/// surrounding whitespace.
proof fn lemma_upper_word(lo: Seq<char>, up: Seq<char>)
    requires
        lo.len() == up.len(),
        lo.len() > 0,
        forall|i: int| 0 <= i < lo.len() ==> crate::text::upper_char(#[trigger] lo[i]) == up[i],
        !is_ws(up[0]),
        !is_ws(up[up.len() - 1]),
    ensures
        trim(upper(lo)) == up,
{
    assert(upper(lo) =~= up);
    crate::text::lemma_trim_untouched(up);
}

/// A type shown by `DataType::to_string` reads back as the same type, for
/// the integer, text, boolean, date, UUID and JSON types, in either dialect
/// and whatever follows it.
pub proof fn lemma_display_reads_back(d: DataTypeV, rest: Seq<Seq<char>>, dialect: Engine)
    requires
        d is SmallInt || d is Integer || d is BigInt || d is Text || d is MediumText
            || d is LongText || d is Boolean || d is Date || d is Uuid || d is Json || d is Jsonb,
    ensures
        data_type_spec(crate::schema::display(d), rest, dialect) == d,
{
    let t = crate::schema::display(d);
    lemma_integer_type_words(t, rest, dialect);
    lemma_text_type_words(t, rest, dialect);
    lemma_other_type_words(t, rest, dialect);
    match d {
        DataTypeV::Boolean => {
            reveal_strlit("boolean");
            reveal_strlit("BOOLEAN");
            lemma_upper_word(t, "BOOLEAN"@);
        },
        DataTypeV::Date => {
            reveal_strlit("date");
            reveal_strlit("DATE");
            lemma_upper_word(t, "DATE"@);
        },
        DataTypeV::Uuid => {
            reveal_strlit("uuid");
            reveal_strlit("UUID");
            lemma_upper_word(t, "UUID"@);
        },
        DataTypeV::Json => {
            reveal_strlit("json");
            reveal_strlit("JSON");
            lemma_upper_word(t, "JSON"@);
        },
        DataTypeV::Jsonb => {
            reveal_strlit("jsonb");
            reveal_strlit("JSONB");
            lemma_upper_word(t, "JSONB"@);
        },
        DataTypeV::SmallInt => {
            reveal_strlit("smallint");
            reveal_strlit("SMALLINT");
            lemma_upper_word(t, "SMALLINT"@);
        },
        DataTypeV::Integer => {
            reveal_strlit("integer");
            reveal_strlit("INTEGER");
            lemma_upper_word(t, "INTEGER"@);
        },
        DataTypeV::BigInt => {
            reveal_strlit("bigint");
            reveal_strlit("BIGINT");
            lemma_upper_word(t, "BIGINT"@);
        },
        DataTypeV::Text => {
            reveal_strlit("text");
            reveal_strlit("TEXT");
            lemma_upper_word(t, "TEXT"@);
        },
        DataTypeV::MediumText => {
            reveal_strlit("mediumtext");
            reveal_strlit("MEDIUMTEXT");
            lemma_upper_word(t, "MEDIUMTEXT"@);
        },
        DataTypeV::LongText => {
            reveal_strlit("longtext");
            reveal_strlit("LONGTEXT");
            lemma_upper_word(t, "LONGTEXT"@);
        },
        _ => {},
    }
}


/// Further type words name their types, in any case and dialect and
/// whatever follows them: `BOOLEAN`/`BOOL` give `Boolean`, `DATE` gives
/// `Date`, `UUID` gives `Uuid`, `JSON` gives `Json`, `JSONB` gives `Jsonb`.
pub proof fn lemma_other_type_words(t: Seq<char>, rest: Seq<Seq<char>>, dialect: Engine)
    ensures
        trim(upper(t)) == "BOOLEAN"@ || trim(upper(t)) == "BOOL"@ ==> data_type_spec(t, rest, dialect)
            == DataTypeV::Boolean,
        trim(upper(t)) == "DATE"@ ==> data_type_spec(t, rest, dialect) == DataTypeV::Date,
        trim(upper(t)) == "UUID"@ ==> data_type_spec(t, rest, dialect) == DataTypeV::Uuid,
        trim(upper(t)) == "JSON"@ ==> data_type_spec(t, rest, dialect) == DataTypeV::Json,
        trim(upper(t)) == "JSONB"@ ==> data_type_spec(t, rest, dialect) == DataTypeV::Jsonb,
{
    reveal_strlit("SMALLINT");
    reveal_strlit("INT2");
    reveal_strlit("SMALLSERIAL");
    reveal_strlit("INTEGER");
    reveal_strlit("INT");
    reveal_strlit("INT4");
    reveal_strlit("SERIAL");
    reveal_strlit("BIGINT");
    reveal_strlit("INT8");
    reveal_strlit("BIGSERIAL");
    reveal_strlit("TINYINT");
    reveal_strlit("MEDIUMINT");
    reveal_strlit("REAL");
    reveal_strlit("FLOAT4");
    reveal_strlit("FLOAT");
    reveal_strlit("DOUBLE");
    reveal_strlit("FLOAT8");
    reveal_strlit("NUMERIC");
    reveal_strlit("DECIMAL");
    reveal_strlit("VARCHAR");
    reveal_strlit("CHARACTER VARYING");
    reveal_strlit("CHAR");
    reveal_strlit("CHARACTER");
    reveal_strlit("TEXT");
    reveal_strlit("MEDIUMTEXT");
    reveal_strlit("LONGTEXT");
    reveal_strlit("BOOLEAN");
    reveal_strlit("BOOL");
    reveal_strlit("DATE");
    reveal_strlit("TIME");
    reveal_strlit("TIMESTAMP");
    reveal_strlit("TIMESTAMPTZ");
    reveal_strlit("DATETIME");
    reveal_strlit("INTERVAL");
    reveal_strlit("UUID");
    reveal_strlit("JSON");
    reveal_strlit("JSONB");
    reveal_strlit("BYTEA");
    assert("SMALLINT"@.len() == 8);
    assert("INT2"@.len() == 4);
    assert("SMALLSERIAL"@.len() == 11);
    assert("INTEGER"@.len() == 7);
    assert("INT"@.len() == 3);
    assert("INT4"@.len() == 4);
    assert("SERIAL"@.len() == 6);
    assert("BIGINT"@.len() == 6);
    assert("INT8"@.len() == 4);
    assert("BIGSERIAL"@.len() == 9);
    assert("TINYINT"@.len() == 7);
    assert("MEDIUMINT"@.len() == 9);
    assert("REAL"@.len() == 4);
    assert("FLOAT4"@.len() == 6);
    assert("FLOAT"@.len() == 5);
    assert("DOUBLE"@.len() == 6);
    assert("FLOAT8"@.len() == 6);
    assert("NUMERIC"@.len() == 7);
    assert("DECIMAL"@.len() == 7);
    assert("VARCHAR"@.len() == 7);
    assert("CHARACTER VARYING"@.len() == 17);
    assert("CHAR"@.len() == 4);
    assert("CHARACTER"@.len() == 9);
    assert("TEXT"@.len() == 4);
    assert("MEDIUMTEXT"@.len() == 10);
    assert("LONGTEXT"@.len() == 8);
    assert("BOOLEAN"@.len() == 7);
    assert("BOOL"@.len() == 4);
    assert("DATE"@.len() == 4);
    assert("TIME"@.len() == 4);
    assert("TIMESTAMP"@.len() == 9);
    assert("TIMESTAMPTZ"@.len() == 11);
    assert("DATETIME"@.len() == 8);
    assert("INTERVAL"@.len() == 8);
    assert("UUID"@.len() == 4);
    assert("JSON"@.len() == 4);
    assert("JSONB"@.len() == 5);
    assert("BYTEA"@.len() == 5);
    let w = trim(upper(t));
    if w == "BOOLEAN"@ || w == "BOOL"@ || w == "DATE"@ || w == "UUID"@ || w == "JSON"@ || w
        == "JSONB"@ {
        lemma_plain_type_word(t, w);
        if w.len() == 4 {
            assert(w != "INT2"@) by { assert(w[0] != "INT2"@[0]); }
            assert(w != "INT4"@) by { assert(w[0] != "INT4"@[0]); }
            assert(w != "INT8"@) by { assert(w[0] != "INT8"@[0]); }
            assert(w != "REAL"@) by { assert(w[0] != "REAL"@[0]); }
            assert(w != "CHAR"@) by { assert(w[0] != "CHAR"@[0]); }
            assert(w != "TEXT"@) by { assert(w[0] != "TEXT"@[0]); }
        }
        if w == "BOOL"@ {
            assert(known_type_a(w, None, dialect) == Some(DataTypeV::Boolean));
        } else if w == "BOOLEAN"@ {
            assert(w != "INTEGER"@) by { assert(w[0] != "INTEGER"@[0]); }
            assert(w != "TINYINT"@) by { assert(w[0] != "TINYINT"@[0]); }
            assert(w != "NUMERIC"@) by { assert(w[0] != "NUMERIC"@[0]); }
            assert(w != "DECIMAL"@) by { assert(w[0] != "DECIMAL"@[0]); }
            assert(w != "VARCHAR"@) by { assert(w[0] != "VARCHAR"@[0]); }
            assert(known_type_a(w, None, dialect) == Some(DataTypeV::Boolean));
        } else {
            if w == "JSONB"@ {
                assert(w != "FLOAT"@) by { assert(w[0] != "FLOAT"@[0]); }
            }
            if w == "DATE"@ || w == "UUID"@ || w == "JSON"@ {
                assert(w != "BOOL"@) by { assert(w[0] != "BOOL"@[0]); }
            }
            assert(known_type_a(w, None, dialect) is None);
            if w == "UUID"@ || w == "JSON"@ {
                assert(w != "DATE"@) by { assert(w[0] != "DATE"@[0]); }
                assert(w != "TIME"@) by { assert(w[0] != "TIME"@[0]); }
            }
            if w == "JSON"@ {
                assert(w != "UUID"@) by { assert(w[0] != "UUID"@[0]); }
            }
            if w == "JSONB"@ {
                assert(w != "BYTEA"@) by { assert(w[0] != "BYTEA"@[0]); }
            }
        }
    }
}


/// The SQL type that a migration writes for a column reads back as the same
/// type when parsed in the same dialect: for the integer, text, date and JSON
/// types in either dialect, and for the boolean, UUID and JSONB types under
/// Postgres.
pub proof fn lemma_type_sql_reads_back(d: DataTypeV, rest: Seq<Seq<char>>, engine: Engine)
    requires
        d is SmallInt || d is Integer || d is BigInt || d is Text || d is MediumText
            || d is LongText || d is Date || d is Json || (engine == Engine::Postgres && (
        d is Boolean || d is Uuid || d is Jsonb)),
    ensures
        data_type_spec(crate::migrate::type_sql_spec(d, engine), rest, engine) == d,
{
    let t = crate::migrate::type_sql_spec(d, engine);
    lemma_integer_type_words(t, rest, engine);
    lemma_text_type_words(t, rest, engine);
    lemma_other_type_words(t, rest, engine);
    match d {
        DataTypeV::SmallInt => {
            reveal_strlit("SMALLINT");
            lemma_upper_word(t, "SMALLINT"@);
        },
        DataTypeV::Integer => {
            reveal_strlit("INTEGER");
            lemma_upper_word(t, "INTEGER"@);
        },
        DataTypeV::BigInt => {
            reveal_strlit("BIGINT");
            lemma_upper_word(t, "BIGINT"@);
        },
        DataTypeV::Text => {
            reveal_strlit("TEXT");
            lemma_upper_word(t, "TEXT"@);
        },
        DataTypeV::MediumText => {
            reveal_strlit("MEDIUMTEXT");
            lemma_upper_word(t, "MEDIUMTEXT"@);
        },
        DataTypeV::LongText => {
            reveal_strlit("LONGTEXT");
            lemma_upper_word(t, "LONGTEXT"@);
        },
        DataTypeV::Date => {
            reveal_strlit("DATE");
            lemma_upper_word(t, "DATE"@);
        },
        DataTypeV::Json => {
            reveal_strlit("JSON");
            lemma_upper_word(t, "JSON"@);
        },
        DataTypeV::Boolean => {
            reveal_strlit("BOOLEAN");
            lemma_upper_word(t, "BOOLEAN"@);
        },
        DataTypeV::Uuid => {
            reveal_strlit("UUID");
            lemma_upper_word(t, "UUID"@);
        },
        DataTypeV::Jsonb => {
            reveal_strlit("JSONB");
            lemma_upper_word(t, "JSONB"@);
        },
        _ => {},
    }
}

} // verus!
