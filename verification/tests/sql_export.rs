use querybox::db::datetime::DateTimeValue;
use querybox::db::types::{Column, QueryResult, Value};
use querybox::export::sql_export::{export, sql_literal};

fn col(name: &str, data_type: &str, pk: bool) -> Column {
    Column {
        name: name.into(),
        data_type: data_type.into(),
        nullable: false,
        default_value: None,
        is_primary_key: pk,
        extra: String::new(),
    }
}

#[test]
fn test_sql_export() {
    let result = QueryResult {
        columns: vec![col("id", "INT", true), col("name", "VARCHAR", false)],
        rows: vec![vec![Value::Int(1), Value::String("alice".into())]],
        affected_rows: 0,
        execution_time_ms: 5,
    };
    let output = export(&result, "users");
    assert_eq!(output, "INSERT INTO users (id, name) VALUES (1, 'alice');");
}

#[test]
fn test_sql_escaping() {
    let val = Value::String("O'Brien".into());
    assert_eq!(sql_literal(&val), "'O''Brien'");
}

#[test]
fn test_sql_literals_of_each_kind() {
    assert_eq!(sql_literal(&Value::Null), "NULL");
    assert_eq!(sql_literal(&Value::Bool(false)), "FALSE");
    assert_eq!(sql_literal(&Value::Bytes(vec![0xde, 0xad, 0x0f])), "X'dead0f'");
    assert_eq!(sql_literal(&Value::RawSql("NOW()".into())), "NOW()");
    let dt = DateTimeValue::new(2024, 2, 29, 13, 5, 9, 0).unwrap();
    assert_eq!(sql_literal(&Value::DateTime(dt)), "'2024-02-29 13:05:09'");
    assert!(DateTimeValue::new(2023, 2, 29, 0, 0, 0, 0).is_none());
}

#[test]
fn test_sql_export_rows_on_separate_lines() {
    let result = QueryResult {
        columns: vec![col("a", "INT", false)],
        rows: vec![vec![Value::Int(1)], vec![Value::Null]],
        affected_rows: 0,
        execution_time_ms: 0,
    };
    assert_eq!(export(&result, "t"), "INSERT INTO t (a) VALUES (1);\nINSERT INTO t (a) VALUES (NULL);");
    assert_eq!(export(&QueryResult::empty(), "t"), "");
}

#[test]
fn test_datetime_texts() {
    let dt = DateTimeValue::new(2024, 2, 29, 13, 5, 9, 500_000_000).unwrap();
    assert_eq!(dt.to_display_string(), "2024-02-29 13:05:09.500");
    assert_eq!(dt.to_sql_string(), "2024-02-29 13:05:09");
    let whole = DateTimeValue::new(1999, 12, 31, 23, 59, 59, 0).unwrap();
    assert_eq!(whole.to_display_string(), "1999-12-31 23:59:59");
    let leap = DateTimeValue::new(2016, 12, 31, 23, 59, 59, 1_500_000_000).unwrap();
    assert_eq!(leap.to_display_string(), "2016-12-31 23:59:60.500");
    assert_eq!(leap.to_sql_string(), "2016-12-31 23:59:60");
    let early = DateTimeValue::new(-5, 1, 2, 3, 4, 5, 1_000).unwrap();
    assert_eq!(early.to_display_string(), "-0005-01-02 03:04:05.000001");
    assert_eq!(early.to_sql_string(), "-0005-01-02 03:04:05");
    let late = DateTimeValue::new(10000, 6, 7, 8, 9, 10, 123).unwrap();
    assert_eq!(late.to_display_string(), "+10000-06-07 08:09:10.000000123");
}
