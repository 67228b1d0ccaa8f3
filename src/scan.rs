//! The two record-by-record scans of a JSON document: empty values, and values
//! of numeric columns that are not numbers.
use crate::document::{
    fields_view, json_parse, parse_json, Document, DocumentModel, Element, ElementModel,
    FieldModel, FieldValue,
};
use crate::error::CommandError;
use crate::float_syntax::{float_literal, is_float_literal};
use crate::schema::{contains_name, name_set, numeric_columns_of, schema_result};
use vstd::prelude::*;

verus! {

/// A field of a record whose value is null or the empty string.
#[derive(Debug, PartialEq, Eq)]
pub struct EmptyValueResult {
    pub index: usize,
    pub key: String,
}

/// A field of a numeric column whose value is not a number, with that value's text.
#[derive(Debug, PartialEq, Eq)]
pub struct InvalidNumericResult {
    pub index: usize,
    pub key: String,
    pub value: String,
}

impl View for EmptyValueResult {
    type V = (int, Seq<char>);

    open spec fn view(&self) -> (int, Seq<char>) {
        (self.index as int, self.key@)
    }
}

impl View for InvalidNumericResult {
    type V = (int, Seq<char>, Seq<char>);

    open spec fn view(&self) -> (int, Seq<char>, Seq<char>) {
        (self.index as int, self.key@, self.value@)
    }
}

pub open spec fn empty_view(v: Seq<EmptyValueResult>) -> Seq<(int, Seq<char>)> {
    v.map_values(|f: EmptyValueResult| f@)
}

pub open spec fn numeric_view(v: Seq<InvalidNumericResult>) -> Seq<(int, Seq<char>, Seq<char>)> {
    v.map_values(|f: InvalidNumericResult| f@)
}

/// A field value that counts as empty: null, or a string of no characters.
pub open spec fn is_empty_value(v: FieldModel) -> bool {
    match v {
        FieldModel::Null => true,
        FieldModel::Str(s) => s.len() == 0,
        _ => false,
    }
}

/// The empty fields of record `i`, in field order.
pub open spec fn empty_in_record(i: int, fs: Seq<(Seq<char>, FieldModel)>) -> Seq<(int, Seq<char>)>
    decreases fs.len(),
{
    if fs.len() == 0 {
        seq![]
    } else {
        let rest = empty_in_record(i, fs.drop_last());
        if is_empty_value(fs.last().1) {
            rest.push((i, fs.last().0))
        } else {
            rest
        }
    }
}

/// The empty fields of the records among `es`, by index, then field order.
pub open spec fn empty_in_elements(es: Seq<ElementModel>) -> Seq<(int, Seq<char>)>
    decreases es.len(),
{
    if es.len() == 0 {
        seq![]
    } else {
        empty_in_elements(es.drop_last()) + match es.last() {
            ElementModel::Record(fs) => empty_in_record(es.len() - 1, fs),
            ElementModel::NonObject => seq![],
        }
    }
}

/// What the emptiness scan finds in a document.
pub open spec fn empty_findings(d: DocumentModel) -> Seq<(int, Seq<char>)> {
    match d {
        DocumentModel::Records(es) => empty_in_elements(es),
        DocumentModel::NotArray => seq![],
    }
}

/// The text reported for a value of a numeric column that is not a number, or
/// `None` where the value is acceptable.
pub open spec fn numeric_violation(v: FieldModel) -> Option<Seq<char>> {
    match v {
        FieldModel::Number => None,
        FieldModel::Str(s) => if float_literal(s) {
            None
        } else {
            Some(s)
        },
        FieldModel::Null => Some(seq!['n', 'u', 'l', 'l']),
        FieldModel::Other(t) => Some(t),
    }
}

/// The fields of record `i` in the numeric columns `cols` whose values are not numbers.
pub open spec fn numeric_in_record(
    i: int,
    fs: Seq<(Seq<char>, FieldModel)>,
    cols: Set<Seq<char>>,
) -> Seq<(int, Seq<char>, Seq<char>)>
    decreases fs.len(),
{
    if fs.len() == 0 {
        seq![]
    } else {
        let rest = numeric_in_record(i, fs.drop_last(), cols);
        let (k, v) = fs.last();
        if cols.contains(k) && numeric_violation(v) is Some {
            rest.push((i, k, numeric_violation(v)->0))
        } else {
            rest
        }
    }
}

pub open spec fn numeric_in_elements(es: Seq<ElementModel>, cols: Set<Seq<char>>) -> Seq<
    (int, Seq<char>, Seq<char>),
>
    decreases es.len(),
{
    if es.len() == 0 {
        seq![]
    } else {
        numeric_in_elements(es.drop_last(), cols) + match es.last() {
            ElementModel::Record(fs) => numeric_in_record(es.len() - 1, fs, cols),
            ElementModel::NonObject => seq![],
        }
    }
}

/// What the numeric scan finds in a document, for the numeric columns `cols`.
pub open spec fn numeric_findings(d: DocumentModel, cols: Set<Seq<char>>) -> Seq<
    (int, Seq<char>, Seq<char>),
> {
    match d {
        DocumentModel::Records(es) => numeric_in_elements(es, cols),
        DocumentModel::NotArray => seq![],
    }
}


/// The empty fields of a parsed document: every field whose value is null or
/// the empty string, of every object in a top-level array, by index, then field
/// order; nothing where the top level is not an array.
pub fn empty_values_in(doc: &Document) -> (r: Vec<EmptyValueResult>)
    ensures
        empty_view(r@) == empty_findings(doc@),
{
    let mut out: Vec<EmptyValueResult> = Vec::new();
    if let Document::Records(es) = doc {
        let ghost em = es@.map_values(|e: Element| e@);
        let mut i: usize = 0;
        while i < es.len()
            invariant
                i <= es.len(),
                em == es@.map_values(|e: Element| e@),
                empty_view(out@) == empty_in_elements(em.take(i as int)),
            decreases es.len() - i,
        {
            let ghost base = out@;
            assert(em.take(i + 1).drop_last() == em.take(i as int));
            assert(em.take(i + 1).last() == es@[i as int]@);
            if let Element::Record(fs) = &es[i] {
                let ghost fm = fields_view(fs@);
                let mut j: usize = 0;
                while j < fs.len()
                    invariant
                        j <= fs.len(),
                        i < es.len(),
                        fm == fields_view(fs@),
                        empty_view(out@) == empty_view(base) + empty_in_record(i as int, fm.take(j as int)),
                    decreases fs.len() - j,
                {
                    let key = &fs[j].0;
                    let empty = match &fs[j].1 {
                        FieldValue::Null => true,
                        FieldValue::Str(s) => s.as_str().is_empty(),
                        _ => false,
                    };
                    assert(fm.take(j + 1).drop_last() == fm.take(j as int));
                    assert(fm.take(j + 1).last() == (fs@[j as int].0@, fs@[j as int].1@));
                    let ghost prev = out@;
                    if empty {
                        out.push(EmptyValueResult { index: i, key: key.clone() });
                        assert(empty_view(out@) == empty_view(prev).push((i as int, key@)));
                    }
                    assert(empty_view(out@) =~= empty_view(base) + empty_in_record(i as int, fm.take(j + 1)));
                    j += 1;
                }
                assert(fm.take(fs.len() as int) == fm);
            } else {
                assert(empty_view(out@) =~= empty_in_elements(em.take(i + 1)));
            }
            i += 1;
        }
        assert(em.take(es.len() as int) == em);
    }
    out
}

/// The fields of numeric columns whose values are not numbers: in every object
/// of a top-level array, each field named in `columns` whose value is neither a
/// number nor a string that parses as a floating-point number, with the string
/// itself, or else the value's JSON text; by index, then field order; nothing
/// where the top level is not an array.
pub fn invalid_numeric_values_in(doc: &Document, columns: &Vec<String>) -> (r: Vec<InvalidNumericResult>)
    ensures
        numeric_view(r@) == numeric_findings(doc@, name_set(columns@)),
{
    let ghost cols = name_set(columns@);
    let mut out: Vec<InvalidNumericResult> = Vec::new();
    if let Document::Records(es) = doc {
        let ghost em = es@.map_values(|e: Element| e@);
        let mut i: usize = 0;
        while i < es.len()
            invariant
                i <= es.len(),
                em == es@.map_values(|e: Element| e@),
                cols == name_set(columns@),
                numeric_view(out@) == numeric_in_elements(em.take(i as int), cols),
            decreases es.len() - i,
        {
            let ghost base = out@;
            assert(em.take(i + 1).drop_last() == em.take(i as int));
            assert(em.take(i + 1).last() == es@[i as int]@);
            if let Element::Record(fs) = &es[i] {
                let ghost fm = fields_view(fs@);
                let mut j: usize = 0;
                while j < fs.len()
                    invariant
                        j <= fs.len(),
                        i < es.len(),
                        fm == fields_view(fs@),
                        cols == name_set(columns@),
                        numeric_view(out@) == numeric_view(base) + numeric_in_record(i as int, fm.take(j as int), cols),
                    decreases fs.len() - j,
                {
                    let key = &fs[j].0;
                    assert(fm.take(j + 1).drop_last() == fm.take(j as int));
                    assert(fm.take(j + 1).last() == (fs@[j as int].0@, fs@[j as int].1@));
                    let ghost prev = out@;
                    if contains_name(columns, key) {
                        let bad: Option<String> = match &fs[j].1 {
                            FieldValue::Number => None,
                            FieldValue::Str(s) => if is_float_literal(s.as_str()) {
                                None
                            } else {
                                Some(s.clone())
                            },
                            FieldValue::Null => Some("null".to_owned()),
                            FieldValue::Other(t) => Some(t.clone()),
                        };
                        proof {
                            reveal_strlit("null");
                        }
                        assert(match bad {
                            Some(t) => numeric_violation(fs@[j as int].1@) == Some(t@),
                            None => numeric_violation(fs@[j as int].1@) is None,
                        });
                        if let Some(text) = bad {
                            out.push(InvalidNumericResult { index: i, key: key.clone(), value: text });
                            assert(numeric_view(out@) == numeric_view(prev).push((i as int, key@, text@)));
                        }
                    }
                    assert(numeric_view(out@) =~= numeric_view(base) + numeric_in_record(i as int, fm.take(j + 1), cols));
                    j += 1;
                }
                assert(fm.take(fs.len() as int) == fm);
            } else {
                assert(numeric_view(out@) =~= numeric_in_elements(em.take(i + 1), cols));
            }
            i += 1;
        }
        assert(em.take(es.len() as int) == em);
    }
    out
}


/// What the emptiness scan gives for a JSON text: the findings, or `None` where
/// the text is not valid JSON.
pub open spec fn empty_scan(json: Seq<char>) -> Option<Seq<(int, Seq<char>)>> {
    match json_parse(json) {
        Some(d) => Some(empty_findings(d)),
        None => None,
    }
}

/// What the numeric scan gives for a JSON text and a DDL text: the findings, or
/// `None` where either text fails to yield what the scan needs.
pub open spec fn numeric_scan(json: Seq<char>, sql: Seq<char>) -> Option<
    Seq<(int, Seq<char>, Seq<char>)>,
> {
    match schema_result(sql) {
        Some(cols) => match json_parse(json) {
            Some(d) => Some(numeric_findings(d, cols)),
            None => None,
        },
        None => None,
    }
}

/// Parses the JSON text and reports its empty fields; a JSON error where the
/// text is not valid JSON.
pub fn find_empty_values(json_str: &str) -> (r: Result<Vec<EmptyValueResult>, CommandError>)
    ensures
        match json_parse(json_str@) {
            Some(d) => r matches Ok(v) && empty_view(v@) == empty_findings(d),
            None => r matches Err(CommandError::Json(_)),
        },
        match empty_scan(json_str@) {
            Some(f) => r matches Ok(v) && empty_view(v@) == f,
            None => r is Err,
        },
{
    match parse_json(json_str) {
        Ok(doc) => Ok(empty_values_in(&doc)),
        Err(msg) => Err(CommandError::Json(msg)),
    }
}

/// Derives the numeric columns from the DDL text, then parses the JSON text
/// and reports the fields of those columns whose values are not numbers. An
/// SQL error where the DDL text yields no schema, whatever the JSON text; else
/// a JSON error where the JSON text is not valid JSON.
pub fn find_invalid_numeric_values(json_str: &str, sql_str: &str) -> (r: Result<
    Vec<InvalidNumericResult>,
    CommandError,
>)
    ensures
        match schema_result(sql_str@) {
            Some(cols) => match json_parse(json_str@) {
                Some(d) => r matches Ok(v) && numeric_view(v@) == numeric_findings(d, cols),
                None => r matches Err(CommandError::Json(_)),
            },
            None => r matches Err(CommandError::Sql(_)),
        },
        match numeric_scan(json_str@, sql_str@) {
            Some(f) => r matches Ok(v) && numeric_view(v@) == f,
            None => r is Err,
        },
{
    let columns = numeric_columns_of(sql_str)?;
    match parse_json(json_str) {
        Ok(doc) => Ok(invalid_numeric_values_in(&doc, &columns)),
        Err(msg) => Err(CommandError::Json(msg)),
    }
}


proof fn lemma_empty_in_record(i: int, fs: Seq<(Seq<char>, FieldModel)>)
    ensures
        forall|j: int|
            0 <= j < fs.len() && is_empty_value(#[trigger] fs[j].1) ==> empty_in_record(
                i,
                fs,
            ).contains((i, fs[j].0)),
        forall|f: (int, Seq<char>)|
            #[trigger] empty_in_record(i, fs).contains(f) ==> f.0 == i && exists|j: int|
                0 <= j < fs.len() && fs[j].0 == f.1 && is_empty_value(#[trigger] fs[j].1),
    decreases fs.len(),
{
    if fs.len() > 0 {
        let init = fs.drop_last();
        lemma_empty_in_record(i, init);
        let r = empty_in_record(i, fs);
        let ri = empty_in_record(i, init);
        assert forall|j: int|
            0 <= j < fs.len() && is_empty_value(#[trigger] fs[j].1) implies r.contains((i, fs[j].0)) by {
            if j < fs.len() - 1 {
                assert(init[j] == fs[j]);
                let k = choose|k: int| 0 <= k < ri.len() && ri[k] == (i, fs[j].0);
                assert(r[k] == ri[k]);
            } else {
                assert(r[r.len() - 1] == (i, fs[j].0));
            }
        }
        assert forall|f: (int, Seq<char>)| #[trigger] r.contains(f) implies f.0 == i && exists|j: int|
            0 <= j < fs.len() && fs[j].0 == f.1 && is_empty_value(#[trigger] fs[j].1) by {
            let k = choose|k: int| 0 <= k < r.len() && r[k] == f;
            if k < ri.len() {
                assert(ri[k] == f);
                assert(ri.contains(f));
                let j = choose|j: int| 0 <= j < init.len() && init[j].0 == f.1 && is_empty_value(#[trigger] init[j].1);
                assert(fs[j] == init[j]);
            } else {
                assert(fs[fs.len() - 1].0 == f.1);
            }
        }
    }
}

/// Every field of an object in the array whose value is null or the empty
/// string is reported with its index and key, and every report names such a
/// field; where the keys of each object are distinct, no field with any other
/// value is reported.
pub proof fn lemma_empty_findings_exact(es: Seq<ElementModel>)
    ensures
        forall|i: int, j: int|
            0 <= i < es.len() && es[i] is Record && 0 <= j < es[i]->Record_0.len() && is_empty_value(
                #[trigger] es[i]->Record_0[j].1,
            ) ==> empty_findings(DocumentModel::Records(es)).contains((i, es[i]->Record_0[j].0)),
        forall|f: (int, Seq<char>)|
            #[trigger] empty_findings(DocumentModel::Records(es)).contains(f) ==> 0 <= f.0 < es.len()
                && es[f.0] is Record && exists|j: int|
                0 <= j < es[f.0]->Record_0.len() && es[f.0]->Record_0[j].0 == f.1 && is_empty_value(
                    #[trigger] es[f.0]->Record_0[j].1,
                ),
        forall|i: int, j: int|
            0 <= i < es.len() && es[i] is Record && 0 <= j < es[i]->Record_0.len() && !is_empty_value(
                #[trigger] es[i]->Record_0[j].1,
            ) && (forall|m: int|
                0 <= m < es[i]->Record_0.len() && m != j ==> es[i]->Record_0[m].0
                    != es[i]->Record_0[j].0) ==> !empty_findings(DocumentModel::Records(es)).contains(
                (i, es[i]->Record_0[j].0),
            ),
    decreases es.len(),
{
    if es.len() > 0 {
        let init = es.drop_last();
        let n = es.len() - 1;
        lemma_empty_findings_exact(init);
        let ri = empty_in_elements(init);
        let tail = match es.last() {
            ElementModel::Record(fs) => empty_in_record(n, fs),
            ElementModel::NonObject => seq![],
        };
        let r = empty_in_elements(es);
        assert(r == ri + tail);
        if es.last() is Record {
            lemma_empty_in_record(n, es.last()->Record_0);
        }
        assert forall|f: (int, Seq<char>)| r.contains(f) <==> ri.contains(f) || tail.contains(f) by {
            if r.contains(f) {
                let k = choose|k: int| 0 <= k < r.len() && r[k] == f;
                if k < ri.len() {
                    assert(ri[k] == f);
                } else {
                    assert(tail[k - ri.len()] == f);
                }
            }
            if ri.contains(f) {
                let k = choose|k: int| 0 <= k < ri.len() && ri[k] == f;
                assert(r[k] == f);
            }
            if tail.contains(f) {
                let k = choose|k: int| 0 <= k < tail.len() && tail[k] == f;
                assert(r[k + ri.len()] == f);
            }
        }
        assert forall|i: int, j: int|
            0 <= i < es.len() && es[i] is Record && 0 <= j < es[i]->Record_0.len() && is_empty_value(
                #[trigger] es[i]->Record_0[j].1,
            ) implies r.contains((i, es[i]->Record_0[j].0)) by {
            if i < n {
                assert(init[i] == es[i]);
            }
        }
        assert forall|f: (int, Seq<char>)| #[trigger] r.contains(f) implies 0 <= f.0 < es.len()
            && es[f.0] is Record && exists|j: int|
            0 <= j < es[f.0]->Record_0.len() && es[f.0]->Record_0[j].0 == f.1 && is_empty_value(
                #[trigger] es[f.0]->Record_0[j].1,
            ) by {
            if ri.contains(f) {
                assert(empty_findings(DocumentModel::Records(init)).contains(f));
                let j = choose|j: int|
                    0 <= j < init[f.0]->Record_0.len() && init[f.0]->Record_0[j].0 == f.1
                        && is_empty_value(#[trigger] init[f.0]->Record_0[j].1);
                assert(init[f.0] == es[f.0]);
                assert(es[f.0]->Record_0[j].0 == f.1);
            } else {
                assert(tail.contains(f));
                assert(es.last() is Record);
                assert(empty_in_record(n, es.last()->Record_0).contains(f));
            }
        }
        assert forall|i: int, j: int|
            0 <= i < es.len() && es[i] is Record && 0 <= j < es[i]->Record_0.len() && !is_empty_value(
                #[trigger] es[i]->Record_0[j].1,
            ) && (forall|m: int|
                0 <= m < es[i]->Record_0.len() && m != j ==> es[i]->Record_0[m].0
                    != es[i]->Record_0[j].0) implies !r.contains((i, es[i]->Record_0[j].0)) by {
            if i < n {
                assert(init[i] == es[i]);
            }
            if r.contains((i, es[i]->Record_0[j].0)) {
                let fs = es[i]->Record_0;
                let m = choose|m: int| 0 <= m < fs.len() && fs[m].0 == fs[j].0 && is_empty_value(#[trigger] fs[m].1);
            }
        }
    }
}


proof fn lemma_numeric_in_record(i: int, fs: Seq<(Seq<char>, FieldModel)>, cols: Set<Seq<char>>)
    ensures
        forall|j: int|
            0 <= j < fs.len() && cols.contains(fs[j].0) && numeric_violation(#[trigger] fs[j].1) is Some
                ==> numeric_in_record(i, fs, cols).contains(
                (i, fs[j].0, numeric_violation(fs[j].1)->0),
            ),
        forall|f: (int, Seq<char>, Seq<char>)|
            #[trigger] numeric_in_record(i, fs, cols).contains(f) ==> f.0 == i && exists|j: int|
                0 <= j < fs.len() && fs[j].0 == f.1 && cols.contains(f.1) && numeric_violation(
                    #[trigger] fs[j].1,
                ) == Some(f.2),
    decreases fs.len(),
{
    if fs.len() > 0 {
        let init = fs.drop_last();
        lemma_numeric_in_record(i, init, cols);
        let r = numeric_in_record(i, fs, cols);
        let ri = numeric_in_record(i, init, cols);
        assert forall|j: int|
            0 <= j < fs.len() && cols.contains(fs[j].0) && numeric_violation(#[trigger] fs[j].1) is Some
                implies r.contains((i, fs[j].0, numeric_violation(fs[j].1)->0)) by {
            if j < fs.len() - 1 {
                assert(init[j] == fs[j]);
                let k = choose|k: int|
                    0 <= k < ri.len() && ri[k] == (i, fs[j].0, numeric_violation(fs[j].1)->0);
                assert(r[k] == ri[k]);
            } else {
                assert(r[r.len() - 1] == (i, fs[j].0, numeric_violation(fs[j].1)->0));
            }
        }
        assert forall|f: (int, Seq<char>, Seq<char>)| #[trigger] r.contains(f) implies f.0 == i
            && exists|j: int|
            0 <= j < fs.len() && fs[j].0 == f.1 && cols.contains(f.1) && numeric_violation(
                #[trigger] fs[j].1,
            ) == Some(f.2) by {
            let k = choose|k: int| 0 <= k < r.len() && r[k] == f;
            if k < ri.len() {
                assert(ri[k] == f);
                assert(ri.contains(f));
                let j = choose|j: int|
                    0 <= j < init.len() && init[j].0 == f.1 && cols.contains(f.1) && numeric_violation(
                        #[trigger] init[j].1,
                    ) == Some(f.2);
                assert(fs[j] == init[j]);
            } else {
                assert(fs[fs.len() - 1].0 == f.1);
            }
        }
    }
}

/// For the numeric columns `cols`: every field of an object in the array whose
/// key is a numeric column and whose value is neither a number nor a string
/// that parses as a floating-point number is reported with its index, key and
/// text, and every report is of such a field; where the keys of each object
/// are distinct, a number or a parsing string is never reported.
pub proof fn lemma_numeric_findings_exact(es: Seq<ElementModel>, cols: Set<Seq<char>>)
    ensures
        forall|i: int, j: int|
            0 <= i < es.len() && es[i] is Record && 0 <= j < es[i]->Record_0.len() && cols.contains(
                es[i]->Record_0[j].0,
            ) && numeric_violation(#[trigger] es[i]->Record_0[j].1) is Some ==> numeric_findings(
                DocumentModel::Records(es),
                cols,
            ).contains((i, es[i]->Record_0[j].0, numeric_violation(es[i]->Record_0[j].1)->0)),
        forall|f: (int, Seq<char>, Seq<char>)|
            #[trigger] numeric_findings(DocumentModel::Records(es), cols).contains(f) ==> 0 <= f.0
                < es.len() && es[f.0] is Record && cols.contains(f.1) && exists|j: int|
                0 <= j < es[f.0]->Record_0.len() && es[f.0]->Record_0[j].0 == f.1
                    && numeric_violation(#[trigger] es[f.0]->Record_0[j].1) == Some(f.2),
        forall|i: int, j: int|
            0 <= i < es.len() && es[i] is Record && 0 <= j < es[i]->Record_0.len()
                && numeric_violation(#[trigger] es[i]->Record_0[j].1) is None && (forall|m: int|
                0 <= m < es[i]->Record_0.len() && m != j ==> es[i]->Record_0[m].0
                    != es[i]->Record_0[j].0) ==> forall|t: Seq<char>|
                !#[trigger] numeric_findings(DocumentModel::Records(es), cols).contains(
                    (i, es[i]->Record_0[j].0, t),
                ),
    decreases es.len(),
{
    if es.len() > 0 {
        let init = es.drop_last();
        let n = es.len() - 1;
        lemma_numeric_findings_exact(init, cols);
        let ri = numeric_in_elements(init, cols);
        let tail = match es.last() {
            ElementModel::Record(fs) => numeric_in_record(n, fs, cols),
            ElementModel::NonObject => seq![],
        };
        let r = numeric_in_elements(es, cols);
        assert(r == ri + tail);
        if es.last() is Record {
            lemma_numeric_in_record(n, es.last()->Record_0, cols);
        }
        assert forall|f: (int, Seq<char>, Seq<char>)| r.contains(f) <==> ri.contains(f) || tail.contains(f) by {
            if r.contains(f) {
                let k = choose|k: int| 0 <= k < r.len() && r[k] == f;
                if k < ri.len() {
                    assert(ri[k] == f);
                } else {
                    assert(tail[k - ri.len()] == f);
                }
            }
            if ri.contains(f) {
                let k = choose|k: int| 0 <= k < ri.len() && ri[k] == f;
                assert(r[k] == f);
            }
            if tail.contains(f) {
                let k = choose|k: int| 0 <= k < tail.len() && tail[k] == f;
                assert(r[k + ri.len()] == f);
            }
        }
        assert forall|i: int, j: int|
            0 <= i < es.len() && es[i] is Record && 0 <= j < es[i]->Record_0.len() && cols.contains(
                es[i]->Record_0[j].0,
            ) && numeric_violation(#[trigger] es[i]->Record_0[j].1) is Some implies r.contains(
            (i, es[i]->Record_0[j].0, numeric_violation(es[i]->Record_0[j].1)->0),
        ) by {
            if i < n {
                assert(init[i] == es[i]);
            }
        }
        assert forall|f: (int, Seq<char>, Seq<char>)| #[trigger] r.contains(f) implies 0 <= f.0
            < es.len() && es[f.0] is Record && cols.contains(f.1) && exists|j: int|
            0 <= j < es[f.0]->Record_0.len() && es[f.0]->Record_0[j].0 == f.1 && numeric_violation(
                #[trigger] es[f.0]->Record_0[j].1,
            ) == Some(f.2) by {
            if ri.contains(f) {
                assert(numeric_findings(DocumentModel::Records(init), cols).contains(f));
                let j = choose|j: int|
                    0 <= j < init[f.0]->Record_0.len() && init[f.0]->Record_0[j].0 == f.1
                        && numeric_violation(#[trigger] init[f.0]->Record_0[j].1) == Some(f.2);
                assert(init[f.0] == es[f.0]);
                assert(es[f.0]->Record_0[j].0 == f.1);
            } else {
                assert(tail.contains(f));
                assert(es.last() is Record);
                assert(numeric_in_record(n, es.last()->Record_0, cols).contains(f));
            }
        }
        assert forall|i: int, j: int|
            0 <= i < es.len() && es[i] is Record && 0 <= j < es[i]->Record_0.len()
                && numeric_violation(#[trigger] es[i]->Record_0[j].1) is None && (forall|m: int|
                0 <= m < es[i]->Record_0.len() && m != j ==> es[i]->Record_0[m].0
                    != es[i]->Record_0[j].0) implies forall|t: Seq<char>|
            !#[trigger] r.contains((i, es[i]->Record_0[j].0, t)) by {
            assert forall|t: Seq<char>| !#[trigger] r.contains((i, es[i]->Record_0[j].0, t)) by {
                if r.contains((i, es[i]->Record_0[j].0, t)) {
                    let fs = es[i]->Record_0;
                    let m = choose|m: int|
                        0 <= m < fs.len() && fs[m].0 == fs[j].0 && numeric_violation(
                            #[trigger] fs[m].1,
                        ) == Some(t);
                }
            }
        }
    }
}

/// Scanning the same texts again gives the same outcome: the result of each
/// scan is fixed by its inputs' text, so two runs report identical findings in
/// identical order.
pub proof fn lemma_scans_repeatable(json_a: Seq<char>, json_b: Seq<char>, sql_a: Seq<char>, sql_b: Seq<char>)
    requires
        json_a == json_b,
        sql_a == sql_b,
    ensures
        empty_scan(json_a) == empty_scan(json_b),
        numeric_scan(json_a, sql_a) == numeric_scan(json_b, sql_b),
{
}

} // verus!
