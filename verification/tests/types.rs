use querybox::strings::{str_contains, u128_to_decimal};
use querybox::db::types::{is_sql_expression, text_to_value, Dialect, Value};

#[test]
fn test_is_sql_expression_keywords() {
    assert!(is_sql_expression("NULL"));
    assert!(is_sql_expression("null"));
    assert!(is_sql_expression("  NULL  "));
    assert!(is_sql_expression("DEFAULT"));
    assert!(is_sql_expression("CURRENT_TIMESTAMP"));
    assert!(is_sql_expression("current_date"));
    assert!(is_sql_expression("TRUE"));
    assert!(is_sql_expression("FALSE"));
}

#[test]
fn test_is_sql_expression_functions() {
    assert!(is_sql_expression("NOW()"));
    assert!(is_sql_expression("now()"));
    assert!(is_sql_expression("UUID()"));
    assert!(is_sql_expression("DATE_ADD(NOW(), INTERVAL 1 DAY)"));
    assert!(is_sql_expression("COALESCE(NULL, 0)"));
}

#[test]
fn test_is_sql_expression_plain_strings() {
    assert!(!is_sql_expression("hello"));
    assert!(!is_sql_expression("123"));
    assert!(!is_sql_expression("some text with spaces"));
    assert!(!is_sql_expression(""));
    assert!(!is_sql_expression("O'Brien"));
}

#[test]
fn test_is_sql_expression_known_trade_off() {
    assert!(is_sql_expression("John (Jr)"));
    assert!(!is_sql_expression("(x)"));
    assert!(!is_sql_expression("NOW("));
}

#[test]
fn test_text_to_value_sql() {
    assert_eq!(text_to_value("NOW()"), Value::RawSql("NOW()".to_string()));
    assert_eq!(text_to_value("NULL"), Value::RawSql("NULL".to_string()));
    assert_eq!(text_to_value("  NOW()  "), Value::RawSql("NOW()".to_string()));
}

#[test]
fn test_text_to_value_string() {
    assert_eq!(text_to_value("hello"), Value::String("hello".to_string()));
    assert_eq!(text_to_value(""), Value::String("".to_string()));
}

#[test]
fn test_quote_identifier_escapes_quote() {
    assert_eq!(Dialect::MySql.quote_identifier("we`ird"), "`we``ird`");
    assert_eq!(Dialect::PostgreSql.quote_identifier("a\"b"), "\"a\"\"b\"");
    assert_eq!(Dialect::Sqlite.quote_identifier("users"), "\"users\"");
}

#[test]
fn test_value_display() {
    assert_eq!(Value::Null.to_display_string(), "NULL");
    assert_eq!(Value::Bool(true).to_display_string(), "true");
    assert_eq!(Value::Int(-42).to_display_string(), "-42");
    assert_eq!(Value::Int(i64::MIN).to_display_string(), "-9223372036854775808");
    assert_eq!(Value::Bytes(vec![1, 2, 3]).to_display_string(), "<3 bytes>");
    assert_eq!(Value::Float("1.5".to_string()).to_display_string(), "1.5");
}

#[test]
fn test_str_contains_and_u128_text() {
    assert!(str_contains("int auto_increment", "auto_increment"));
    assert!(!str_contains("auto", "auto_increment"));
    assert!(str_contains("abc", ""));
    assert_eq!(u128_to_decimal(340282366920938463463374607431768211455), "340282366920938463463374607431768211455");
}
