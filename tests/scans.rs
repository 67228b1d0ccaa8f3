use data_validator::document::{Document, Element, FieldValue};
use data_validator::error::CommandError;
use data_validator::float_syntax::{chars_of, is_float_literal};
use data_validator::scan::{
    empty_values_in, find_empty_values, find_invalid_numeric_values, invalid_numeric_values_in,
    EmptyValueResult, InvalidNumericResult,
};
use data_validator::schema::{
    contains_name, numeric_columns, numeric_columns_of, numeric_columns_of_statements,
    numeric_type, position_of, Column, Statement,
};

fn empty(index: usize, key: &str) -> EmptyValueResult {
    EmptyValueResult { index, key: key.to_string() }
}

fn invalid(index: usize, key: &str, value: &str) -> InvalidNumericResult {
    InvalidNumericResult { index, key: key.to_string(), value: value.to_string() }
}

#[test]
fn empty_scan_scenario() {
    let r = find_empty_values(r#"[{"a": null, "b": "x"}, {"a": 5, "b": ""}]"#).unwrap();
    assert_eq!(r, vec![empty(0, "a"), empty(1, "b")]);
}

#[test]
fn numeric_scan_scenario() {
    let r = find_invalid_numeric_values(
        r#"[{"a": "five", "b": "ok"}, {"a": 5, "b": "ok"}]"#,
        "CREATE TABLE t (a INT, b VARCHAR(10))",
    )
    .unwrap();
    assert_eq!(r, vec![invalid(0, "a", "five")]);
}

#[test]
fn malformed_json_fails_both_scans() {
    assert!(matches!(find_empty_values("{not json"), Err(CommandError::Json(_))));
    assert!(matches!(
        find_invalid_numeric_values("{not json", "CREATE TABLE t (a INT)"),
        Err(CommandError::Json(_))
    ));
}

#[test]
fn ddl_without_create_table_fails_before_json() {
    assert!(matches!(
        find_invalid_numeric_values("{not json", "SELECT * FROM t"),
        Err(CommandError::Sql(_))
    ));
    assert!(matches!(
        find_invalid_numeric_values("[]", "SELECT * FROM t"),
        Err(CommandError::Sql(_))
    ));
}

#[test]
fn malformed_ddl_is_an_sql_error() {
    assert!(matches!(numeric_columns_of("CREATE TABLE ("), Err(CommandError::Sql(_))));
    assert!(matches!(numeric_columns_of(""), Err(CommandError::Sql(_))));
}

#[test]
fn only_the_first_statement_counts() {
    let r = numeric_columns_of("CREATE TABLE t (a INT); CREATE TABLE u (b INT)").unwrap();
    assert_eq!(r, vec!["a".to_string()]);
    assert!(matches!(
        numeric_columns_of("SELECT 1; CREATE TABLE t (a INT)"),
        Err(CommandError::Sql(_))
    ));
}

#[test]
fn scans_repeat_identically() {
    let json = r#"[{"a": null, "b": ""}, {"a": "x", "b": true}, 3]"#;
    let sql = "CREATE TABLE t (a INT, b FLOAT)";
    assert_eq!(find_empty_values(json).unwrap(), find_empty_values(json).unwrap());
    assert_eq!(
        find_invalid_numeric_values(json, sql).unwrap(),
        find_invalid_numeric_values(json, sql).unwrap()
    );
}

#[test]
fn whitespace_is_not_empty() {
    let r = find_empty_values(r#"[{"a": " ", "b": "\t", "c": 0, "d": false, "e": [], "f": {}}]"#)
        .unwrap();
    assert_eq!(r, vec![]);
}

#[test]
fn empty_fields_keep_field_order() {
    let r = find_empty_values(r#"[{"z": null, "a": "", "m": 1}, {}, {"k": ""}]"#).unwrap();
    assert_eq!(r, vec![empty(0, "z"), empty(0, "a"), empty(2, "k")]);
}

#[test]
fn non_array_top_level_finds_nothing() {
    assert_eq!(find_empty_values(r#"{"a": null}"#).unwrap(), vec![]);
    assert_eq!(find_empty_values("null").unwrap(), vec![]);
    assert_eq!(
        find_invalid_numeric_values(r#"{"a": "x"}"#, "CREATE TABLE t (a INT)").unwrap(),
        vec![]
    );
}

#[test]
fn non_object_elements_are_skipped() {
    let r = find_empty_values(r#"[null, "", [null], {"a": null}]"#).unwrap();
    assert_eq!(r, vec![empty(3, "a")]);
    let r = find_invalid_numeric_values(r#"["x", {"a": "y"}]"#, "CREATE TABLE t (a INT)").unwrap();
    assert_eq!(r, vec![invalid(1, "a", "y")]);
}

#[test]
fn numeric_values_by_kind() {
    let json = r#"[{"a": 1, "b": -2.5e3, "c": "3.5", "d": "abc", "e": true, "f": null, "g": [1,2], "h": {"x": 1}, "i": " 1", "j": "inf", "k": "1e", "l": ".5"}]"#;
    let sql = "CREATE TABLE t (a INT, b INT, c INT, d INT, e INT, f INT, g INT, h INT, i INT, j INT, k INT, l INT)";
    let r = find_invalid_numeric_values(json, sql).unwrap();
    assert_eq!(
        r,
        vec![
            invalid(0, "d", "abc"),
            invalid(0, "e", "true"),
            invalid(0, "f", "null"),
            invalid(0, "g", "[1,2]"),
            invalid(0, "h", r#"{"x":1}"#),
            invalid(0, "i", " 1"),
            invalid(0, "k", "1e"),
        ]
    );
}

#[test]
fn null_in_numeric_column_is_reported_by_both_scans() {
    let json = r#"[{"a": null}]"#;
    assert_eq!(find_empty_values(json).unwrap(), vec![empty(0, "a")]);
    assert_eq!(
        find_invalid_numeric_values(json, "CREATE TABLE t (a BIGINT)").unwrap(),
        vec![invalid(0, "a", "null")]
    );
}

#[test]
fn non_numeric_columns_are_ignored() {
    let r = find_invalid_numeric_values(
        r#"[{"a": "x", "b": "y", "c": "z"}]"#,
        "CREATE TABLE t (a TEXT, b VARCHAR(3), c DATE)",
    )
    .unwrap();
    assert_eq!(r, vec![]);
}

#[test]
fn numeric_type_names() {
    let r = numeric_columns_of(
        "CREATE TABLE t (a BIGINT, b DOUBLE PRECISION, c DECIMAL(10,2), d NUMERIC, e FLOAT, f TEXT, g int, h SMALLINT, i REAL)",
    )
    .unwrap();
    assert_eq!(
        r,
        vec!["a", "b", "c", "d", "e", "g", "h"].into_iter().map(String::from).collect::<Vec<_>>()
    );
}

#[test]
fn column_names_keep_their_case_and_collapse() {
    let cols = vec![
        Column { name: "Amount".to_string(), type_text: "INT".to_string() },
        Column { name: "amount".to_string(), type_text: "Float".to_string() },
        Column { name: "Amount".to_string(), type_text: "DOUBLE".to_string() },
        Column { name: "note".to_string(), type_text: "TEXT".to_string() },
    ];
    assert_eq!(numeric_columns(&cols), vec!["Amount".to_string(), "amount".to_string()]);
}

#[test]
fn schema_from_statements() {
    let cols = vec![Column { name: "n".to_string(), type_text: "Integer".to_string() }];
    let r = numeric_columns_of_statements(&vec![Statement::CreateTable(cols), Statement::Other]);
    assert_eq!(r.unwrap(), vec!["n".to_string()]);
    assert!(matches!(numeric_columns_of_statements(&vec![]), Err(CommandError::Sql(_))));
    assert!(matches!(
        numeric_columns_of_statements(&vec![Statement::Other]),
        Err(CommandError::Sql(_))
    ));
}

#[test]
fn statements_are_parsed() {
    let r = numeric_columns_of("CREATE TABLE t (a INT, b VARCHAR(10), c DOUBLE); SELECT 1").unwrap();
    assert_eq!(r, vec!["a".to_string(), "c".to_string()]);
    assert!(matches!(numeric_columns_of("CREATE TABLE ("), Err(CommandError::Sql(m)) if !m.is_empty()));
}

#[test]
fn last_declaration_of_a_column_decides() {
    assert_eq!(numeric_columns_of("CREATE TABLE t (a INT, a TEXT)").unwrap(), Vec::<String>::new());
    assert_eq!(numeric_columns_of("CREATE TABLE t (a TEXT, a INT)").unwrap(), vec!["a".to_string()]);
    let cols = vec![
        Column { name: "x".to_string(), type_text: "INT".to_string() },
        Column { name: "y".to_string(), type_text: "INT".to_string() },
        Column { name: "x".to_string(), type_text: "DATE".to_string() },
    ];
    assert_eq!(numeric_columns(&cols), vec!["y".to_string()]);
}

#[test]
fn numeric_type_matches_infixes() {
    assert!(numeric_type("bigint"));
    assert!(numeric_type("double precision"));
    assert!(numeric_type("decimal(10,2)"));
    assert!(numeric_type("numeric"));
    assert!(numeric_type("float"));
    assert!(!numeric_type("text"));
    assert!(!numeric_type("in"));
    assert!(!numeric_type("INT"));
    assert!(!numeric_type(""));
}

#[test]
fn names_are_looked_up_exactly() {
    let names = vec!["a".to_string(), "Bc".to_string()];
    assert!(contains_name(&names, &"Bc".to_string()));
    assert!(!contains_name(&names, &"bc".to_string()));
    assert!(!contains_name(&vec![], &"a".to_string()));
}

#[test]
fn float_literals_follow_the_standard_parser() {
    let cases = [
        "0", "1", "-1", "+1", "1.", ".5", "1.5", "-.5", "1e5", "1E5", "1e+5", "1e-5", "1.5e3",
        ".5e1", "inf", "-inf", "+infinity", "Infinity", "NaN", "nan", "-NAN", "INF", "", ".",
        "+", "-", "e5", "1e", "1e+", "1.2.3", "1..2", " 1", "1 ", "abc", "five", "0x10", "1_000",
        "++1", "+-1", "infinit", "nana", "1e5.0", "..", "00.00", "123456789012345678901234567890",
        "1e400", "٣",
    ];
    for c in cases {
        assert_eq!(is_float_literal(c), c.parse::<f64>().is_ok(), "{:?}", c);
    }
}

#[test]
fn chars_are_collected_in_order() {
    assert_eq!(chars_of("aé1"), vec!['a', 'é', '1']);
    assert_eq!(chars_of(""), Vec::<char>::new());
}

#[test]
fn documents_keep_field_order_and_value_text() {
    let json = r#"[{"b": true, "a": "s", "n": 2, "z": null, "o": [1, {"k": "v"}]}, 7]"#;
    let r = find_invalid_numeric_values(json, "CREATE TABLE t (o INT, b INT, z INT, n INT, a INT)")
        .unwrap();
    assert_eq!(
        r,
        vec![
            invalid(0, "b", "true"),
            invalid(0, "a", "s"),
            invalid(0, "z", "null"),
            invalid(0, "o", r#"[1,{"k":"v"}]"#),
        ]
    );
    assert!(matches!(find_empty_values("[1,"), Err(CommandError::Json(m)) if !m.is_empty()));
}

#[test]
fn names_are_found_by_position() {
    let names = vec!["a".to_string(), "b".to_string(), "c".to_string()];
    assert_eq!(position_of(&names, &"c".to_string()), Some(2));
    assert_eq!(position_of(&names, &"d".to_string()), None);
}

#[test]
fn scans_of_built_documents() {
    let doc = Document::Records(vec![
        Element::Record(vec![
            ("a".to_string(), FieldValue::Str(String::new())),
            ("b".to_string(), FieldValue::Number),
            ("c".to_string(), FieldValue::Str("1.5".to_string())),
            ("d".to_string(), FieldValue::Other("false".to_string())),
        ]),
        Element::NonObject,
        Element::Record(vec![("a".to_string(), FieldValue::Null)]),
    ]);
    assert_eq!(empty_values_in(&doc), vec![empty(0, "a"), empty(2, "a")]);
    let cols = vec!["a".to_string(), "b".to_string(), "c".to_string(), "d".to_string()];
    assert_eq!(
        invalid_numeric_values_in(&doc, &cols),
        vec![invalid(0, "a", ""), invalid(0, "d", "false"), invalid(2, "a", "null")]
    );
    assert_eq!(empty_values_in(&Document::NotArray), vec![]);
    assert_eq!(invalid_numeric_values_in(&Document::NotArray, &cols), vec![]);
}

#[test]
fn errors_carry_their_message() {
    let e = CommandError::Sql("bad".to_string());
    assert_eq!(e.message(), "bad");
    match find_invalid_numeric_values("[]", "SELECT 1") {
        Err(CommandError::Sql(m)) => assert_eq!(m, "Could not parse a CREATE TABLE statement."),
        _ => panic!("expected an SQL error"),
    }
}
