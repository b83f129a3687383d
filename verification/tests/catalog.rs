use querybox::connection::profile::{ConnectionProfile, DatabaseEngine};
use querybox::db::catalog::{
    bytes_to_value, column_from_catalog, column_from_pragma, group_indexes, mysql_date_string,
    mysql_time_string, pg_read_kind, postgres_conn_string, pragma_statement, sqlite_databases,
    sqlite_file_path, use_database_statement, zero_pad, IndexRow, PgReadAs,
};
use querybox::db::types::Value;
use querybox::db::DbError;

#[test]
fn test_columns_from_catalog_rows() {
    let c = column_from_catalog("id".into(), "int".into(), "NO", None, "PRI", "auto_increment".into());
    assert!(!c.nullable && c.is_primary_key);
    let d = column_from_catalog("n".into(), "text".into(), "YES", Some("x".into()), "", String::new());
    assert!(d.nullable && !d.is_primary_key);
    let p = column_from_pragma("id".into(), "INTEGER".into(), 1, None, 1);
    assert!(!p.nullable && p.is_primary_key && p.extra.is_empty());
}

#[test]
fn test_index_rows_are_grouped_by_name() {
    let rows = vec![
        IndexRow { name: "PRIMARY".into(), column: "id".into(), unique: true },
        IndexRow { name: "ix".into(), column: "a".into(), unique: false },
        IndexRow { name: "ix".into(), column: "b".into(), unique: true },
    ];
    let ixs = group_indexes(rows);
    assert_eq!(ixs.len(), 2);
    assert_eq!(ixs[1].columns, vec!["a".to_string(), "b".to_string()]);
    assert!(!ixs[1].unique);
}

#[test]
fn test_statements_and_connection_strings() {
    assert_eq!(pragma_statement("table_info", "we\"ird"), "PRAGMA table_info(\"we\"\"ird\")");
    assert_eq!(use_database_statement("shop"), "USE `shop`");
    let mut p = ConnectionProfile {
        id: "1".into(),
        name: "n".into(),
        engine: DatabaseEngine::PostgreSql,
        host: "h".into(),
        port: 5432,
        user: "u".into(),
        default_database: None,
        file_path: None,
    };
    assert_eq!(postgres_conn_string(&p, "pw"), "host=h port=5432 user=u password=pw dbname=postgres");
    assert!(matches!(sqlite_file_path(&p), Err(DbError::Connection(m)) if m == "No file path specified for SQLite"));
    p.file_path = Some("/tmp/a.db".into());
    assert_eq!(sqlite_file_path(&p).unwrap(), "/tmp/a.db");
    assert_eq!(sqlite_databases(), vec!["main".to_string()]);
}

#[test]
fn test_cell_value_texts() {
    assert_eq!(zero_pad(7, 2), "07");
    assert_eq!(zero_pad(123, 2), "123");
    assert_eq!(mysql_date_string(2024, 1, 5, 9, 3, 0), "2024-01-05 09:03:00");
    assert_eq!(mysql_time_string(true, 1, 2, 3, 4), "-26:03:04");
    assert_eq!(mysql_time_string(false, 0, 5, 0, 9), "05:00:09");
    assert_eq!(bytes_to_value(b"hi".to_vec()), Value::String("hi".into()));
    assert_eq!(bytes_to_value(vec![0xff, 0x00]), Value::Bytes(vec![0xff, 0x00]));
    assert_eq!(pg_read_kind("int4"), PgReadAs::Int32);
    assert_eq!(pg_read_kind("int8"), PgReadAs::Int64);
    assert_eq!(pg_read_kind("float8"), PgReadAs::Float64);
    assert_eq!(pg_read_kind("bool"), PgReadAs::Bool);
    assert_eq!(pg_read_kind("uuid"), PgReadAs::Text);
}
