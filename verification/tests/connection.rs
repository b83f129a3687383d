use querybox::connection::profile::{profile_from_form, profile_id_from_nanos, ConnectionProfile, DatabaseEngine};
use querybox::connection::{delete_profile, save_profile, ConnectionManager};

fn profile(id: &str, name: &str) -> ConnectionProfile {
    ConnectionProfile {
        id: id.into(),
        name: name.into(),
        engine: DatabaseEngine::PostgreSql,
        host: "db.local".into(),
        port: 5432,
        user: "admin".into(),
        default_database: Some("app".into()),
        file_path: None,
    }
}

#[test]
fn test_keyring_key_and_engine_names() {
    assert_eq!(profile("abc", "x").keyring_key(), "querybox:abc");
    assert_eq!(DatabaseEngine::MySql.to_display_string(), "MySQL");
    assert_eq!(DatabaseEngine::PostgreSql.to_display_string(), "PostgreSQL");
    assert_eq!(DatabaseEngine::Sqlite.to_display_string(), "SQLite");
    assert_eq!(DatabaseEngine::PostgreSql.default_port(), "5432");
    assert_eq!(DatabaseEngine::Sqlite.default_port(), "");
}

#[test]
fn test_active_info_and_clear() {
    let mut m = ConnectionManager::new(vec![]);
    assert!(m.active_info().is_none());
    m.set_active(profile("1", "Prod"));
    assert_eq!(m.active_database.as_deref(), Some("app"));
    assert_eq!(m.active_info(), Some(("Prod".to_string(), "PostgreSQL • db.local".to_string())));
    m.clear();
    assert!(m.active_profile.is_none());
    assert!(m.active_database.is_none());
}

#[test]
fn test_form_becomes_profile() {
    let p = profile_from_form(None, "ff".into(), "Local".into(), DatabaseEngine::MySql, "127.0.0.1".into(), "3307", "root".into(), String::new());
    assert_eq!(p.id, "ff");
    assert_eq!(p.port, 3307);
    assert!(p.default_database.is_none());
    assert!(p.file_path.is_none());
    let q = profile_from_form(Some("keep".into()), "ff".into(), "L".into(), DatabaseEngine::MySql, "h".into(), "not a port", "u".into(), "db".into());
    assert_eq!(q.id, "keep");
    assert_eq!(q.port, 3306);
    assert_eq!(q.default_database.as_deref(), Some("db"));
    let r = profile_from_form(None, "x".into(), "L".into(), DatabaseEngine::MySql, "h".into(), "70000", "u".into(), String::new());
    assert_eq!(r.port, 3306);
}

#[test]
fn test_port_text_round_trip() {
    let p = profile("1", "a");
    let shown = p.port.to_string();
    let q = profile_from_form(Some(p.id.clone()), String::new(), p.name.clone(), p.engine, p.host.clone(), &shown, p.user.clone(), "app".into());
    assert_eq!(q.port, p.port);
}

#[test]
fn test_profile_id_is_lower_hex_of_nanos() {
    assert_eq!(profile_id_from_nanos(0), "0");
    assert_eq!(profile_id_from_nanos(255), "ff");
    assert_eq!(profile_id_from_nanos(0x1a2b3c), "1a2b3c");
}

#[test]
fn test_save_replaces_or_appends_and_delete_removes() {
    let mut list = vec![profile("1", "a"), profile("2", "b")];
    save_profile(&mut list, profile("2", "B"));
    assert_eq!(list.len(), 2);
    assert_eq!(list[1].name, "B");
    save_profile(&mut list, profile("3", "c"));
    assert_eq!(list.len(), 3);
    delete_profile(&mut list, &"2".to_string());
    assert_eq!(list.iter().map(|p| p.id.as_str()).collect::<Vec<_>>(), vec!["1", "3"]);
    save_profile(&mut list, profile("9", "z"));
    delete_profile(&mut list, &"9".to_string());
    assert_eq!(list.iter().map(|p| p.id.as_str()).collect::<Vec<_>>(), vec!["1", "3"]);
}
