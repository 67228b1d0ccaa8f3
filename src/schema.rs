//! The numeric columns that a `CREATE TABLE` statement declares.
use crate::error::CommandError;
use crate::float_syntax::chars_of;
use sqlparser::ast::Statement as SqlStatement;
use sqlparser::dialect::GenericDialect;
use sqlparser::parser::Parser;
use vstd::prelude::*;

verus! {

/// A declared column: its name as written, and the text of its declared type.
pub struct Column {
    pub name: String,
    pub type_text: String,
}

/// One parsed SQL statement, as far as the schema reads it.
pub enum Statement {
    CreateTable(Vec<Column>),
    Other,
}

pub enum StatementModel {
    CreateTable(Seq<(Seq<char>, Seq<char>)>),
    Other,
}

pub open spec fn columns_view(cs: Seq<Column>) -> Seq<(Seq<char>, Seq<char>)> {
    cs.map_values(|c: Column| (c.name@, c.type_text@))
}

impl View for Statement {
    type V = StatementModel;

    open spec fn view(&self) -> StatementModel {
        match self {
            Statement::CreateTable(cs) => StatementModel::CreateTable(columns_view(cs@)),
            Statement::Other => StatementModel::Other,
        }
    }
}

/// The statements that the SQL text holds, or `None` where it does not parse.
pub uninterp spec fn sql_parse(text: Seq<char>) -> Option<Seq<StatementModel>>;

/// The lower-case form of a string.
pub uninterp spec fn lower_of(s: Seq<char>) -> Seq<char>;

/// Relies on sqlparser's `Parser::parse_sql` with the generic dialect, and on
/// `Display` of its `DataType` for the text of each column's type; the error's
/// message is kept.
#[verifier::external_body]
pub(crate) fn parse_statements(sql: &str) -> (r: Result<Vec<Statement>, String>)
    ensures
        match r {
            Ok(v) => sql_parse(sql@) == Some(v@.map_values(|s: Statement| s@)),
            Err(_) => sql_parse(sql@) is None,
        },
{
    let stmts = Parser::parse_sql(&GenericDialect {}, sql).map_err(|e| e.to_string())?;
    Ok(stmts.into_iter().map(|s| match s {
        SqlStatement::CreateTable(t) => Statement::CreateTable(t.columns.into_iter().map(|c| Column {
            name: c.name.value,
            type_text: c.data_type.to_string(),
        }).collect()),
        _ => Statement::Other,
    }).collect())
}

/// Relies on `str::to_lowercase`: the result depends on the characters alone.
#[verifier::external_body]
fn lowercase(s: &str) -> (r: String)
    ensures
        r@ == lower_of(s@),
{
    s.to_lowercase()
}

/// `needle` occurs in `hay` as a contiguous run.
pub open spec fn has_infix(hay: Seq<char>, needle: Seq<char>) -> bool {
    exists|i: int| 0 <= i <= hay.len() - needle.len() && #[trigger] hay.subrange(i, i + needle.len()) == needle
}

/// A lower-cased type name that names a numeric type.
pub open spec fn is_numeric_type(lowered: Seq<char>) -> bool {
    has_infix(lowered, seq!['i', 'n', 't']) || has_infix(lowered, seq!['n', 'u', 'm', 'e', 'r', 'i', 'c'])
        || has_infix(lowered, seq!['d', 'e', 'c', 'i', 'm', 'a', 'l']) || has_infix(
        lowered,
        seq!['f', 'l', 'o', 'a', 't'],
    ) || has_infix(lowered, seq!['d', 'o', 'u', 'b', 'l', 'e'])
}

/// The names of the columns whose declared type is numeric. Where a name is
/// declared more than once, its last declaration decides.
pub open spec fn numeric_column_set(cols: Seq<(Seq<char>, Seq<char>)>) -> Set<Seq<char>> {
    Set::new(
        |n: Seq<char>|
            exists|i: int|
                0 <= i < cols.len() && cols[i].0 == n && is_numeric_type(lower_of(#[trigger] cols[i].1))
                    && forall|j: int| i < j < cols.len() ==> cols[j].0 != n,
    )
}

/// The numeric columns of the first statement, where it creates a table.
pub open spec fn schema_of(stmts: Seq<StatementModel>) -> Option<Set<Seq<char>>> {
    if stmts.len() > 0 {
        match stmts[0] {
            StatementModel::CreateTable(cols) => Some(numeric_column_set(cols)),
            StatementModel::Other => None,
        }
    } else {
        None
    }
}

pub open spec fn names_view(v: Seq<String>) -> Seq<Seq<char>> {
    v.map_values(|s: String| s@)
}

pub open spec fn name_set(v: Seq<String>) -> Set<Seq<char>> {
    names_view(v).to_set()
}

/// Whether `needle` occurs in `hay`.
fn contains_infix(hay: &Vec<char>, needle: &Vec<char>) -> (r: bool)
    ensures
        r == has_infix(hay@, needle@),
{
    if needle.len() > hay.len() {
        return false;
    }
    let last = hay.len() - needle.len();
    let mut i: usize = 0;
    while i <= last
        invariant
            last == hay.len() - needle.len(),
            i <= last + 1,
            forall|j: int| 0 <= j < i ==> #[trigger] hay@.subrange(j, j + needle.len()) != needle@,
        decreases last + 1 - i,
    {
        let mut k: usize = 0;
        while k < needle.len() && hay[i + k] == needle[k]
            invariant
                i <= last,
                last == hay.len() - needle.len(),
                k <= needle.len(),
                forall|m: int| 0 <= m < k ==> hay@[i + m] == needle@[m],
            decreases needle.len() - k,
        {
            k += 1;
        }
        if k == needle.len() {
            assert(hay@.subrange(i as int, i + needle.len()) =~= needle@);
            return true;
        }
        assert(hay@.subrange(i as int, i + needle.len())[k as int] == hay@[i + k]);
        i += 1;
    }
    false
}

/// Whether a lower-cased type name names a numeric type.
pub fn numeric_type(lowered: &str) -> (r: bool)
    ensures
        r == is_numeric_type(lowered@),
{
    let cs = chars_of(lowered);
    contains_infix(&cs, &vec!['i', 'n', 't']) || contains_infix(&cs, &vec!['n', 'u', 'm', 'e', 'r', 'i', 'c'])
        || contains_infix(&cs, &vec!['d', 'e', 'c', 'i', 'm', 'a', 'l']) || contains_infix(
        &cs,
        &vec!['f', 'l', 'o', 'a', 't'],
    ) || contains_infix(&cs, &vec!['d', 'o', 'u', 'b', 'l', 'e'])
}

/// Whether `name` is one of `names`.
pub fn contains_name(names: &Vec<String>, name: &String) -> (r: bool)
    ensures
        r == name_set(names@).contains(name@),
{
    let mut i: usize = 0;
    while i < names.len()
        invariant
            i <= names.len(),
            forall|j: int| 0 <= j < i ==> names@[j]@ != name@,
        decreases names.len() - i,
    {
        if names[i] == *name {
            assert(names_view(names@)[i as int] == name@);
            return true;
        }
        i += 1;
    }
    assert(!names_view(names@).contains(name@));
    false
}

} // verus!

verus! {

/// Where `name` stands in `names`, if anywhere.
pub fn position_of(names: &Vec<String>, name: &String) -> (r: Option<usize>)
    ensures
        match r {
            Some(k) => k < names.len() && names@[k as int]@ == name@,
            None => !name_set(names@).contains(name@),
        },
{
    let mut i: usize = 0;
    while i < names.len()
        invariant
            i <= names.len(),
            forall|j: int| 0 <= j < i ==> names@[j]@ != name@,
        decreases names.len() - i,
    {
        if names[i] == *name {
            return Some(i);
        }
        i += 1;
    }
    assert(!names_view(names@).contains(name@));
    None
}

proof fn lemma_push_fresh(s: Seq<Seq<char>>, x: Seq<char>)
    requires
        s.no_duplicates(),
        !s.contains(x),
    ensures
        s.push(x).no_duplicates(),
        s.push(x).to_set() == s.to_set().insert(x),
{
    let t = s.push(x);
    assert forall|a: int, b: int| 0 <= a < t.len() && 0 <= b < t.len() && a != b implies t[a] != t[b] by {
        if a < s.len() && b < s.len() {
            assert(t[a] == s[a] && t[b] == s[b]);
        } else if a < s.len() {
            assert(t[a] == s[a]);
        } else if b < s.len() {
            assert(t[b] == s[b]);
        }
    }
    assert forall|n: Seq<char>| t.to_set().contains(n) <==> s.to_set().insert(x).contains(n) by {
        if t.contains(n) {
            let k = choose|k: int| 0 <= k < t.len() && t[k] == n;
            if k < s.len() {
                assert(s[k] == n);
            }
        }
        if s.contains(n) {
            let k = choose|k: int| 0 <= k < s.len() && s[k] == n;
            assert(t[k] == n);
        }
        if n == x {
            assert(t[s.len() as int] == n);
        }
    }
    assert(t.to_set() =~= s.to_set().insert(x));
}

proof fn lemma_remove_unique(s: Seq<Seq<char>>, k: int)
    requires
        s.no_duplicates(),
        0 <= k < s.len(),
    ensures
        s.remove(k).no_duplicates(),
        s.remove(k).to_set() == s.to_set().remove(s[k]),
{
    let t = s.remove(k);
    assert forall|a: int, b: int| 0 <= a < t.len() && 0 <= b < t.len() && a != b implies t[a] != t[b] by {
        let a2 = if a < k { a } else { a + 1 };
        let b2 = if b < k { b } else { b + 1 };
        assert(t[a] == s[a2] && t[b] == s[b2]);
    }
    assert forall|n: Seq<char>| t.to_set().contains(n) <==> s.to_set().remove(s[k]).contains(n) by {
        if t.contains(n) {
            let a = choose|a: int| 0 <= a < t.len() && t[a] == n;
            let a2 = if a < k { a } else { a + 1 };
            assert(s[a2] == n);
        }
        if s.contains(n) && n != s[k] {
            let a = choose|a: int| 0 <= a < s.len() && s[a] == n;
            if a < k {
                assert(t[a] == n);
            } else {
                assert(t[a - 1] == n);
            }
        }
    }
    assert(t.to_set() =~= s.to_set().remove(s[k]));
}

/// The names of the columns whose declared type is numeric, each once; where a
/// name is declared more than once, its last declaration decides.
pub fn numeric_columns(columns: &Vec<Column>) -> (r: Vec<String>)
    ensures
        name_set(r@) == numeric_column_set(columns_view(columns@)),
        names_view(r@).no_duplicates(),
{
    let ghost cols = columns_view(columns@);
    let mut out: Vec<String> = Vec::new();
    let mut i: usize = 0;
    while i < columns.len()
        invariant
            i <= columns.len(),
            cols == columns_view(columns@),
            names_view(out@).no_duplicates(),
            name_set(out@) == numeric_column_set(cols.take(i as int)),
        decreases columns.len() - i,
    {
        let col = &columns[i];
        let lowered = lowercase(col.type_text.as_str());
        let ghost before = out@;
        let ghost x = col.name@;
        assert(cols[i as int] == (col.name@, col.type_text@));
        let pos = position_of(&out, &col.name);
        if numeric_type(lowered.as_str()) {
            if pos.is_none() {
                out.push(col.name.clone());
                assert(names_view(out@) == names_view(before).push(x));
                proof {
                    lemma_push_fresh(names_view(before), x);
                }
            } else {
                assert(names_view(before)[pos.unwrap() as int] == x);
                assert(name_set(before).insert(x) =~= name_set(before));
            }
            assert(name_set(out@) == name_set(before).insert(x));
        } else {
            if let Some(k) = pos {
                out.remove(k);
                assert(names_view(out@) =~= names_view(before).remove(k as int));
                proof {
                    lemma_remove_unique(names_view(before), k as int);
                }
            } else {
                assert(name_set(before).remove(x) =~= name_set(before));
            }
            assert(name_set(out@) == name_set(before).remove(x));
        }
        proof {
            lemma_numeric_set_step(cols, i as int);
        }
        i += 1;
    }
    assert(cols.take(columns.len() as int) == cols);
    out
}

proof fn lemma_numeric_set_step(cols: Seq<(Seq<char>, Seq<char>)>, i: int)
    requires
        0 <= i < cols.len(),
    ensures
        numeric_column_set(cols.take(i + 1)) == if is_numeric_type(lower_of(cols[i].1)) {
            numeric_column_set(cols.take(i)).insert(cols[i].0)
        } else {
            numeric_column_set(cols.take(i)).remove(cols[i].0)
        },
{
    let c = cols.take(i + 1);
    let p = cols.take(i);
    let x = cols[i].0;
    let a = numeric_column_set(c);
    let b = if is_numeric_type(lower_of(cols[i].1)) {
        numeric_column_set(p).insert(x)
    } else {
        numeric_column_set(p).remove(x)
    };
    assert(c[i] == cols[i]);
    assert forall|n: Seq<char>| a.contains(n) implies b.contains(n) by {
        let j = choose|j: int|
            0 <= j < c.len() && c[j].0 == n && is_numeric_type(lower_of(#[trigger] c[j].1))
                && forall|m: int| j < m < c.len() ==> c[m].0 != n;
        if j < i {
            assert(c[i].0 != n);
            assert(p[j] == c[j]);
            assert forall|m: int| j < m < p.len() implies p[m].0 != n by {
                assert(p[m] == c[m]);
            }
            assert(numeric_column_set(p).contains(n));
        }
    }
    assert forall|n: Seq<char>| b.contains(n) implies a.contains(n) by {
        if is_numeric_type(lower_of(cols[i].1)) && n == x {
            assert(c[i].0 == n && is_numeric_type(lower_of(c[i].1)));
        } else {
            assert(n != x);
            assert(numeric_column_set(p).contains(n));
            let j = choose|j: int|
                0 <= j < p.len() && p[j].0 == n && is_numeric_type(lower_of(#[trigger] p[j].1))
                    && forall|m: int| j < m < p.len() ==> p[m].0 != n;
            assert(c[j] == p[j]);
            assert forall|m: int| j < m < c.len() implies c[m].0 != n by {
                if m < i {
                    assert(p[m] == c[m]);
                }
            }
        }
    }
    assert(a =~= b);
}

/// The numeric columns of the first statement, where that statement creates a
/// table; the error otherwise.
pub fn numeric_columns_of_statements(stmts: &Vec<Statement>) -> (r: Result<Vec<String>, CommandError>)
    ensures
        match schema_of(stmts@.map_values(|s: Statement| s@)) {
            Some(set) => r matches Ok(v) && name_set(v@) == set && names_view(v@).no_duplicates(),
            None => r matches Err(CommandError::Sql(_)),
        },
{
    if stmts.len() > 0 {
        if let Statement::CreateTable(columns) = &stmts[0] {
            return Ok(numeric_columns(columns));
        }
    }
    Err(CommandError::Sql("Could not parse a CREATE TABLE statement.".to_owned()))
}

/// The numeric columns that the DDL text declares, or an SQL error where it
/// does not parse or its first statement does not create a table.
pub fn numeric_columns_of(sql: &str) -> (r: Result<Vec<String>, CommandError>)
    ensures
        match schema_result(sql@) {
            Some(set) => r matches Ok(v) && name_set(v@) == set && names_view(v@).no_duplicates(),
            None => r matches Err(CommandError::Sql(_)),
        },
{
    match parse_statements(sql) {
        Ok(stmts) => numeric_columns_of_statements(&stmts),
        Err(msg) => Err(CommandError::Sql(msg)),
    }
}

/// The numeric columns that the DDL text declares, where it yields a schema.
pub open spec fn schema_result(sql: Seq<char>) -> Option<Set<Seq<char>>> {
    match sql_parse(sql) {
        Some(stmts) => schema_of(stmts),
        None => None,
    }
}

} // verus!

verus! {

/// Where the DDL text parses and its first statement creates a table, each
/// column whose lower-cased type name contains `int` is a numeric column,
/// unless a later column of that table has the same name.
pub proof fn lemma_int_columns_are_numeric(sql: Seq<char>, c: int)
    requires
        sql_parse(sql) is Some,
        sql_parse(sql)->0.len() > 0,
        sql_parse(sql)->0[0] is CreateTable,
        0 <= c < sql_parse(sql)->0[0]->CreateTable_0.len(),
        forall|j: int|
            c < j < sql_parse(sql)->0[0]->CreateTable_0.len() ==> sql_parse(sql)->0[0]->CreateTable_0[j].0
                != sql_parse(sql)->0[0]->CreateTable_0[c].0,
        has_infix(lower_of(sql_parse(sql)->0[0]->CreateTable_0[c].1), seq!['i', 'n', 't']),
    ensures
        schema_result(sql) matches Some(set) && set.contains(
            sql_parse(sql)->0[0]->CreateTable_0[c].0,
        ),
{
    let cols = sql_parse(sql)->0[0]->CreateTable_0;
    assert(is_numeric_type(lower_of(cols[c].1)));
    assert(numeric_column_set(cols).contains(cols[c].0));
}

} // verus!
