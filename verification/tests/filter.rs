use querybox::db::types::{Dialect, Value};
use querybox::query::filter::{filters_to_sql, Filter, FilterOp};

#[test]
fn test_empty_filters() {
    let (clause, params) = filters_to_sql(&[], Dialect::MySql);
    assert_eq!(clause, "");
    assert!(params.is_empty());
}

#[test]
fn test_equals_filter_mysql() {
    let filters = vec![Filter {
        column: "username".to_string(),
        op: FilterOp::Equals,
        value: Some("alice".to_string()),
    }];
    let (clause, params) = filters_to_sql(&filters, Dialect::MySql);
    assert_eq!(clause, "WHERE `username` = ?");
    assert_eq!(params, vec![Value::String("alice".to_string())]);
}

#[test]
fn test_in_filter() {
    let filters = vec![Filter {
        column: "status".to_string(),
        op: FilterOp::In,
        value: Some("active, inactive".to_string()),
    }];
    let (clause, params) = filters_to_sql(&filters, Dialect::MySql);
    assert_eq!(clause, "WHERE `status` IN (?, ?)");
    assert_eq!(params.len(), 2);
}

#[test]
fn test_between_filter() {
    let filters = vec![Filter {
        column: "age".to_string(),
        op: FilterOp::Between,
        value: Some("18, 65".to_string()),
    }];
    let (clause, params) = filters_to_sql(&filters, Dialect::MySql);
    assert_eq!(clause, "WHERE `age` BETWEEN ? AND ?");
    assert_eq!(params.len(), 2);
}

#[test]
fn test_filters_combine_with_and_and_keep_param_order() {
    let filters = vec![
        Filter { column: "name".to_string(), op: FilterOp::Contains, value: Some("li".to_string()) },
        Filter { column: "deleted_at".to_string(), op: FilterOp::IsNull, value: None },
        Filter { column: "id".to_string(), op: FilterOp::NotIn, value: Some(" 1 ,2,, 3".to_string()) },
        Filter { column: "age".to_string(), op: FilterOp::Between, value: Some("18".to_string()) },
    ];
    let (clause, params) = filters_to_sql(&filters, Dialect::PostgreSql);
    assert_eq!(
        clause,
        "WHERE \"name\" LIKE ? AND \"deleted_at\" IS NULL AND \"id\" NOT IN (?, ?, ?, ?) AND \"age\" BETWEEN ? AND ?"
    );
    let texts: Vec<String> = params
        .iter()
        .map(|p| match p {
            Value::String(s) => s.clone(),
            _ => panic!("non-string parameter"),
        })
        .collect();
    assert_eq!(texts, vec!["%li%", "1", "2", "", "3", "18", ""]);
}

#[test]
fn test_pattern_filters() {
    let f = |op| Filter { column: "c".to_string(), op, value: Some("x".to_string()) };
    let (c1, p1) = filters_to_sql(&[f(FilterOp::StartsWith)], Dialect::Sqlite);
    assert_eq!(c1, "WHERE \"c\" LIKE ?");
    assert_eq!(p1, vec![Value::String("x%".to_string())]);
    let (_, p2) = filters_to_sql(&[f(FilterOp::EndsWith)], Dialect::Sqlite);
    assert_eq!(p2, vec![Value::String("%x".to_string())]);
    let (c3, _) = filters_to_sql(&[f(FilterOp::GreaterOrEqual)], Dialect::MySql);
    assert_eq!(c3, "WHERE `c` >= ?");
}

#[test]
fn test_filter_op_labels_and_values() {
    let all = FilterOp::all();
    assert_eq!(all.len(), 17);
    assert_eq!(all[0], FilterOp::Equals);
    assert_eq!(all[16], FilterOp::Between);
    assert_eq!(FilterOp::NotEquals.label(), "≠ not equals");
    assert!(!FilterOp::IsNull.needs_value());
    assert!(FilterOp::In.needs_value());
}

#[test]
fn test_filter_summary() {
    let f = Filter { column: "age".to_string(), op: FilterOp::GreaterThan, value: Some("18".to_string()) };
    assert_eq!(f.summary(), "age > greater than 18");
    let g = Filter { column: "x".to_string(), op: FilterOp::IsNotNull, value: None };
    assert_eq!(g.summary(), "x is not null");
    let h = Filter { column: "y".to_string(), op: FilterOp::Equals, value: None };
    assert_eq!(h.summary(), "y = equals ");
}

#[test]
fn test_where_placeholders_match_params() {
    let filters = vec![
        Filter { column: "a".into(), op: FilterOp::In, value: Some("1, 2, 3".into()) },
        Filter { column: "b".into(), op: FilterOp::Between, value: Some("4, 5".into()) },
        Filter { column: "c".into(), op: FilterOp::IsNull, value: None },
        Filter { column: "d".into(), op: FilterOp::Contains, value: Some("x".into()) },
    ];
    for d in [Dialect::MySql, Dialect::PostgreSql, Dialect::Sqlite] {
        let (sql, params) = filters_to_sql(&filters, d);
        assert_eq!(sql.matches('?').count(), params.len());
        assert_eq!(params.len(), 6);
    }
}
