use querybox::db::types::{Column, QueryResult, Value};
use querybox::export::csv_export::export;
use querybox::export::ExportError;

fn col(name: &str, ty: &str, pk: bool) -> Column {
    Column {
        name: name.into(),
        data_type: ty.into(),
        nullable: false,
        default_value: None,
        is_primary_key: pk,
        extra: String::new(),
    }
}

fn sample_result() -> QueryResult {
    QueryResult {
        columns: vec![col("id", "INT", true), col("name", "VARCHAR", false)],
        rows: vec![
            vec![Value::Int(1), Value::String("alice".into())],
            vec![Value::Int(2), Value::String("bob".into())],
        ],
        affected_rows: 0,
        execution_time_ms: 5,
    }
}

#[test]
fn test_csv_export() {
    let result = export(&sample_result()).unwrap();
    assert!(result.contains("id,name"));
    assert!(result.contains("1,alice"));
    assert!(result.contains("2,bob"));
}

#[test]
fn test_csv_export_exact_text_and_quoting() {
    let r = QueryResult {
        columns: vec![col("a", "TEXT", false), col("b", "TEXT", false)],
        rows: vec![vec![Value::String("x,y".into()), Value::Null]],
        affected_rows: 0,
        execution_time_ms: 0,
    };
    assert_eq!(export(&r).unwrap(), "a,b\n\"x,y\",NULL\n");
}

#[test]
fn test_csv_export_refuses_short_row() {
    let r = QueryResult {
        columns: vec![col("a", "TEXT", false), col("b", "TEXT", false)],
        rows: vec![vec![Value::Int(1)]],
        affected_rows: 0,
        execution_time_ms: 0,
    };
    assert!(matches!(export(&r), Err(ExportError::Csv(_))));
}

#[test]
fn test_csv_export_doubles_quotes_and_quotes_empty_records() {
    let r = QueryResult {
        columns: vec![col("a", "TEXT", false)],
        rows: vec![
            vec![Value::String("say \"hi\"".into())],
            vec![Value::String(String::new())],
            vec![Value::String("two\nlines".into())],
        ],
        affected_rows: 0,
        execution_time_ms: 0,
    };
    assert_eq!(export(&r).unwrap(), "a\n\"say \"\"hi\"\"\"\n\"\"\n\"two\nlines\"\n");
}
