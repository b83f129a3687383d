use querybox::query::format::format_sql;

#[test]
fn test_empty_returns_empty() {
    assert_eq!(format_sql("").unwrap(), "");
}

#[test]
fn test_whitespace_only_returns_empty() {
    assert_eq!(format_sql("   \n  ").unwrap(), "");
}

#[test]
fn test_invalid_sql_returns_err() {
    assert!(format_sql("SELEKT garbage *** from").is_err());
}

#[test]
fn test_simple_select_all() {
    let out = format_sql("select * from users").unwrap();
    assert_eq!(out, "SELECT\n    *\nFROM users");
}

#[test]
fn test_select_columns() {
    let out = format_sql("select id, name from users").unwrap();
    assert_eq!(out, "SELECT\n    id,\n    name\nFROM users");
}

#[test]
fn test_where_single_condition() {
    let out = format_sql("select id from users where active = 1").unwrap();
    assert_eq!(out, "SELECT\n    id\nFROM users\nWHERE\n    active = 1");
}

#[test]
fn test_where_and_conditions() {
    let out = format_sql("select id from users where active = 1 and age > 18").unwrap();
    assert_eq!(
        out,
        "SELECT\n    id\nFROM users\nWHERE\n    active = 1\n    AND age > 18"
    );
}

#[test]
fn test_where_or_conditions() {
    let out = format_sql("select id from users where active = 1 or age > 18").unwrap();
    assert_eq!(
        out,
        "SELECT\n    id\nFROM users\nWHERE\n    active = 1\n    OR age > 18"
    );
}

#[test]
fn test_join_on() {
    let out = format_sql("select u.id from users as u join orders as o on o.user_id = u.id").unwrap();
    assert!(out.contains("JOIN orders AS o\n    ON o.user_id = u.id"), "actual output:\n{out}");
}

#[test]
fn test_left_join() {
    let out = format_sql("select u.id from users as u left join orders as o on o.user_id = u.id").unwrap();
    assert!(out.contains("LEFT JOIN"), "actual output:\n{out}");
}

#[test]
fn test_order_by() {
    let out = format_sql("select id from users order by id desc").unwrap();
    assert!(out.contains("ORDER BY\n    id DESC"), "actual output:\n{out}");
}

#[test]
fn test_limit() {
    let out = format_sql("select id from users limit 10").unwrap();
    assert!(out.contains("LIMIT 10"), "actual output:\n{out}");
}

#[test]
fn test_group_by_having() {
    let out = format_sql("select user_id, count(*) from orders group by user_id having count(*) > 5").unwrap();
    assert!(out.contains("GROUP BY\n    user_id"), "actual output:\n{out}");
    assert!(out.contains("HAVING"), "actual output:\n{out}");
}

#[test]
fn test_multiple_statements() {
    let out = format_sql("select 1; select 2").unwrap();
    assert!(out.contains("\n\n"), "actual output:\n{out}");
}

#[test]
fn test_alias() {
    let out = format_sql("select id as user_id from users").unwrap();
    assert!(out.contains("id AS user_id"), "actual output:\n{out}");
}

#[test]
fn test_format_mixed_and_or_chain() {
    let out = format_sql("select a from t where x = 1 and y = 2 or z = 3").unwrap();
    assert_eq!(out, "SELECT\n    a\nFROM t\nWHERE\n    x = 1\n    AND y = 2\n    OR z = 3");
}

#[test]
fn test_format_subquery_is_indented() {
    let out = format_sql("select * from (select id from users) as s").unwrap();
    assert_eq!(out, "SELECT\n    *\nFROM (\n    SELECT\n        id\n    FROM users\n) AS s");
}

#[test]
fn test_format_with_cte_distinct_and_offset() {
    let out = format_sql("with c as (select 1) select distinct x from c order by x asc limit 5 offset 2").unwrap();
    assert_eq!(
        out,
        "WITH c AS (\n    SELECT\n        1\n)\nSELECT DISTINCT\n    x\nFROM c\nORDER BY\n    x ASC\nLIMIT 5\nOFFSET 2"
    );
}

#[test]
fn test_format_other_statement_is_kept() {
    let out = format_sql("insert into t (a) values (1)").unwrap();
    assert_eq!(out, "INSERT INTO t (a) VALUES (1)");
}

#[test]
fn test_format_using_and_cross_join() {
    let out = format_sql("select * from a join b using (id) cross join c").unwrap();
    assert_eq!(out, "SELECT\n    *\nFROM a\nJOIN b USING (id)\nCROSS JOIN c");
}
