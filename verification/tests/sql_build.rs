use querybox::db::types::{Column, Dialect, QueryResult, Value};
use querybox::query::filter::{Filter, FilterOp};
use querybox::query::sql_build::{
    count_from_result, foreign_key_filter, insert_statement, table_page_queries, update_statement,
};
use querybox::ui::table_view::{CellEdit, NewRowInsert, RowUpdate};

#[test]
fn test_page_and_count_queries() {
    let filters = vec![Filter { column: "age".into(), op: FilterOp::GreaterThan, value: Some("18".into()) }];
    let (data, count, params) = table_page_queries("shop", "users", &filters, Dialect::MySql, 2);
    assert_eq!(data, "SELECT * FROM `shop`.`users` WHERE `age` > ? LIMIT 100 OFFSET 200");
    assert_eq!(count, "SELECT COUNT(*) FROM `shop`.`users` WHERE `age` > ?");
    assert_eq!(params, vec![Value::String("18".into())]);
    let (data0, _, _) = table_page_queries("d", "t", &[], Dialect::MySql, 0);
    assert_eq!(data0, "SELECT * FROM `d`.`t`  LIMIT 100 OFFSET 0");
}

#[test]
fn test_update_statement_inlines_raw_sql() {
    let u = RowUpdate {
        database: "db".into(),
        table: "t`x".into(),
        pk_columns: vec!["id".into(), "k".into()],
        pk_values: vec![Value::Int(7), Value::String("a".into())],
        edits: vec![
            CellEdit { column: "name".into(), new_value: Value::String("bob".into()) },
            CellEdit { column: "updated".into(), new_value: Value::RawSql("NOW()".into()) },
        ],
    };
    let (sql, params) = update_statement(&u);
    assert_eq!(sql, "UPDATE `db`.`t``x` SET `name` = ?, `updated` = NOW() WHERE `id` = ? AND `k` = ?");
    assert_eq!(params, vec![Value::String("bob".into()), Value::Int(7), Value::String("a".into())]);
}

#[test]
fn test_insert_statement() {
    let ins = NewRowInsert {
        database: "db".into(),
        table: "t".into(),
        column_values: vec![
            ("name".into(), Value::String("x".into())),
            ("created".into(), Value::RawSql("CURRENT_TIMESTAMP".into())),
        ],
    };
    let (sql, params) = insert_statement(&ins);
    assert_eq!(sql, "INSERT INTO `db`.`t` (`name`, `created`) VALUES (?, CURRENT_TIMESTAMP)");
    assert_eq!(params, vec![Value::String("x".into())]);
}

#[test]
fn test_count_from_result() {
    let col = Column { name: "c".into(), data_type: String::new(), nullable: true, default_value: None, is_primary_key: false, extra: String::new() };
    let mk = |v: Value| QueryResult { columns: vec![col.clone()], rows: vec![vec![v]], affected_rows: 0, execution_time_ms: 0 };
    assert_eq!(count_from_result(&mk(Value::Int(42))), Some(42));
    assert_eq!(count_from_result(&mk(Value::String("+17".into()))), Some(17));
    assert_eq!(count_from_result(&mk(Value::String("x".into()))), None);
    assert_eq!(count_from_result(&mk(Value::Null)), None);
    assert_eq!(count_from_result(&QueryResult::empty()), None);
}

#[test]
fn test_foreign_key_filter() {
    let f = foreign_key_filter("user_id", &Value::Int(5));
    assert_eq!(f.column, "user_id");
    assert_eq!(f.op, FilterOp::Equals);
    assert_eq!(f.value, Some("5".to_string()));
    let g = foreign_key_filter("code", &Value::Bool(true));
    assert_eq!(g.value, Some("true".to_string()));
}
