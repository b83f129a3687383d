use querybox::connection::profile::{ConnectionProfile, DatabaseEngine};
use querybox::db::types::{Column, Index, QueryResult};
use querybox::query::filter::FilterOp;
use querybox::ui::app_view::window_title;
use querybox::ui::connection_dialog::{status_color, status_for, ConnStatus, ConnectionDialog, TestState};
use querybox::ui::editor_view::EditorView;
use querybox::ui::filter_panel::FilterPanel;
use querybox::ui::schema_view::{column_row, index_row, SchemaView};
use querybox::ui::sidebar::{Sidebar, SidebarEvent};
use querybox::ui::tab_bar::TabBar;

#[test]
fn test_filter_panel_chips_and_bounds() {
    let mut p = FilterPanel::new();
    assert!(!p.shows_anything());
    p.toggle();
    p.add_filter("age".into(), FilterOp::GreaterThan, Some("18".into()));
    p.add_filter("email".into(), FilterOp::IsNull, None);
    assert!(p.shows_anything());
    assert_eq!(p.chip_labels(), vec!["age > greater than 18".to_string(), "email is null".to_string()]);
    p.remove_filter(5);
    assert_eq!(p.filters.len(), 2);
    p.remove_filter(0);
    assert_eq!(p.filters.len(), 1);
    p.clear();
    assert!(p.filters.is_empty());
}

#[test]
fn test_schema_rows_and_headings() {
    let c = Column {
        name: "id".into(),
        data_type: "INT".into(),
        nullable: false,
        default_value: None,
        is_primary_key: true,
        extra: "auto_increment".into(),
    };
    let r = column_row(&c);
    assert_eq!((r.nullable.as_str(), r.default_value.as_str(), r.key.as_str()), ("NO", "NULL", "PRI"));
    let ix = Index { name: "idx".into(), columns: vec!["a".into(), "b".into()], unique: true };
    let ir = index_row(&ix);
    assert_eq!(ir.columns, "a, b");
    assert_eq!(ir.unique, "UNIQUE");
    let mut s = SchemaView::new("db".into(), "t".into());
    assert!(s.loading);
    s.set_schema(vec![c], vec![ix]);
    assert!(!s.loading);
    assert_eq!(s.columns_heading(), "Columns (1)");
    assert_eq!(s.indexes_heading(), "Indexes (1)");
}

#[test]
fn test_sidebar_texts_and_events() {
    let mut s = Sidebar::new();
    assert_eq!(s.connection_header(), ("No connection".to_string(), "Click to connect".to_string()));
    assert_eq!(s.database_label(), "Select database");
    assert_eq!(s.empty_tables_text(), Some("Select a database"));
    s.toggle_databases();
    assert!(!s.db_expanded);
    s.databases = vec!["shop".into()];
    s.toggle_databases();
    assert!(s.db_expanded);
    match s.select_database("shop".into()) {
        SidebarEvent::SelectDatabase(d) => assert_eq!(d, "shop"),
        _ => panic!("expected SelectDatabase"),
    }
    assert!(!s.db_expanded);
    assert_eq!(s.empty_tables_text(), Some("No tables"));
    match s.select_table("users".into()) {
        SidebarEvent::OpenTable { database, table } => {
            assert_eq!(database, "shop");
            assert_eq!(table, "users");
        }
        _ => panic!("expected OpenTable"),
    }
}

#[test]
fn test_editor_view_records_history() {
    let mut e = EditorView::new(Some("shop".into()));
    assert!(!e.begin_run("   ", true));
    assert!(!e.begin_run("select 1", false));
    assert!(e.begin_run("select 1", true));
    assert!(e.running);
    let r = QueryResult { columns: vec![], rows: vec![], affected_rows: 0, execution_time_ms: 7 };
    e.set_result("select 1".into(), r);
    assert!(!e.running);
    e.set_error("selec".into(), "syntax".into());
    let h = e.history.entries();
    assert_eq!(h.len(), 2);
    assert!(h[0].success && h[0].execution_time_ms == 7);
    assert!(!h[1].success && h[1].execution_time_ms == 0);
    assert_eq!(e.error.as_deref(), Some("syntax"));
    e.set_format_error("bad".into());
    assert_eq!(e.error.as_deref(), Some("bad"));
}

#[test]
fn test_window_title() {
    let mut bar = TabBar::new();
    assert_eq!(window_title(&None, &bar), "Querybox - Configuring a connection");
    assert_eq!(window_title(&Some("Prod".into()), &bar), "Querybox - Prod");
    bar.open_table("db".into(), "users".into());
    assert_eq!(window_title(&Some("Prod".into()), &bar), "Querybox - Prod - users");
    bar.open_query();
    assert_eq!(window_title(&Some("Prod".into()), &bar), "Querybox - Prod - New Query");
}

#[test]
fn test_connection_dialog_form() {
    let saved = ConnectionProfile {
        id: "p1".into(),
        name: "Prod".into(),
        engine: DatabaseEngine::PostgreSql,
        host: "db".into(),
        port: 6543,
        user: "admin".into(),
        default_database: None,
        file_path: None,
    };
    let mut d = ConnectionDialog::new(vec![saved.clone()]);
    assert!(d.visible);
    assert_eq!(status_for(&d.conn_statuses, &"p1".to_string()), ConnStatus::Checking);
    assert_eq!(d.port, "3306");
    d.select_engine(DatabaseEngine::PostgreSql);
    assert_eq!(d.port, "5432");
    d.load_profile_into_form(&saved, "pw".into());
    assert_eq!(d.port, "6543");
    let p = d.to_profile("fresh".into());
    assert_eq!(p.id, "p1");
    assert_eq!(p.port, 6543);
    assert_eq!(d.password(), "pw");
    d.start_test();
    d.finish_test(Err("refused".into()));
    assert!(matches!(d.test_state, TestState::Failed(ref m) if m == "refused"));
    d.set_status("p1".into(), true);
    assert_eq!(status_for(&d.conn_statuses, &"p1".to_string()), ConnStatus::Reachable);
    assert_eq!(status_color(ConnStatus::Reachable), 0xa6e3a1ff);
    assert!(d.after_delete(vec![], &"p1".to_string()));
    assert_eq!(d.name, "New Connection");
    assert!(d.form_profile_id.is_none());
    d.hide_dialog();
    assert!(!d.visible);
}

#[test]
fn test_sidebar_auto_selects_default_database() {
    let mut s = Sidebar::new();
    let picked = s.set_databases(vec!["app".to_string(), "shop".to_string()], Some("shop".to_string()));
    assert_eq!(picked, Some("shop".to_string()));
    assert_eq!(s.selected_database, Some("shop".to_string()));
    assert_eq!(s.databases.len(), 2);

    let mut s = Sidebar::new();
    assert_eq!(s.set_databases(vec!["app".to_string()], Some("missing".to_string())), None);
    assert_eq!(s.selected_database, None);
    assert_eq!(s.set_databases(vec!["app".to_string()], None), None);
    assert_eq!(s.databases, vec!["app".to_string()]);
}
