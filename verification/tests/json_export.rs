use querybox::db::types::{Column, QueryResult, Value};
use querybox::db::datetime::DateTimeValue;
use querybox::export::json_export::{json_rows, json_scalar, JsonScalar};

fn col(name: &str, ty: &str, pk: bool) -> Column {
    Column {
        name: name.into(),
        data_type: ty.into(),
        nullable: false,
        default_value: None,
        is_primary_key: pk,
        extra: String::new(),
    }
}

#[test]
fn test_json_export() {
    let result = QueryResult {
        columns: vec![col("id", "INT", true), col("name", "VARCHAR", false)],
        rows: vec![vec![Value::Int(1), Value::String("alice".into())]],
        affected_rows: 0,
        execution_time_ms: 5,
    };
    let rows = json_rows(&result);
    assert_eq!(rows.len(), 1);
    assert_eq!(rows[0][0], ("id".to_string(), Value::Int(1)));
    assert_eq!(rows[0][1], ("name".to_string(), Value::String("alice".into())));
}

#[test]
fn test_json_key_past_last_column_is_unknown() {
    let result = QueryResult {
        columns: vec![col("id", "INT", true)],
        rows: vec![vec![Value::Int(1), Value::Bool(true)]],
        affected_rows: 0,
        execution_time_ms: 0,
    };
    let rows = json_rows(&result);
    assert_eq!(rows[0][1], ("unknown".to_string(), Value::Bool(true)));
}

#[test]
fn test_json_scalars_of_each_kind() {
    assert_eq!(json_scalar(&Value::Null), JsonScalar::Null);
    assert_eq!(json_scalar(&Value::Bool(true)), JsonScalar::Bool(true));
    assert_eq!(json_scalar(&Value::Int(-3)), JsonScalar::Int(-3));
    assert_eq!(json_scalar(&Value::Float("1.5".into())), JsonScalar::Float("1.5".into()));
    assert_eq!(json_scalar(&Value::Bytes(vec![1, 2, 3])), JsonScalar::Text("<3 bytes>".into()));
    let dt = DateTimeValue::new(2024, 1, 2, 3, 4, 5, 0).unwrap();
    assert_eq!(json_scalar(&Value::DateTime(dt)), JsonScalar::Text("2024-01-02 03:04:05".into()));
    assert_eq!(json_scalar(&Value::RawSql("NOW()".into())), JsonScalar::Text("NOW()".into()));
}
