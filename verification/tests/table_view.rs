use querybox::db::types::{Column, ForeignKey, QueryResult, Value};
use querybox::query::filter::FilterOp;
use querybox::ui::table_view::{GridStatus, NewRowCell, TableView, ViewMode};

fn col(name: &str, pk: bool, extra: &str) -> Column {
    Column {
        name: name.into(),
        data_type: "TEXT".into(),
        nullable: true,
        default_value: None,
        is_primary_key: pk,
        extra: extra.into(),
    }
}

fn loaded(total: Option<u64>) -> TableView {
    let mut v = TableView::new("shop".into(), "users".into());
    let result = QueryResult {
        columns: vec![col("id", true, "auto_increment"), col("name", false, "")],
        rows: vec![
            vec![Value::Int(1), Value::String("alice".into())],
            vec![Value::Int(2), Value::Null],
        ],
        affected_rows: 0,
        execution_time_ms: 3,
    };
    v.set_data(result, total);
    v
}

#[test]
fn test_table_view_starts_loading_on_first_page() {
    let v = TableView::new("shop".into(), "users".into());
    assert!(v.loading);
    assert_eq!(v.page, 0);
    assert_eq!(v.page_size, 100);
    assert_eq!(v.grid_status(), GridStatus::Loading);
}

#[test]
fn test_paging_moves_within_bounds() {
    let mut v = loaded(Some(250));
    assert_eq!(v.max_page(), 2);
    assert!(v.go_next_page());
    assert!(v.go_next_page());
    assert!(!v.go_next_page());
    assert_eq!(v.page, 2);
    assert!(v.go_prev_page());
    assert_eq!(v.page, 1);
    assert_eq!(v.go_to_page(" 1 "), Some(true));
    assert_eq!(v.page, 0);
    assert_eq!(v.go_to_page("99"), Some(true));
    assert_eq!(v.page, 2);
    assert_eq!(v.go_to_page("3"), Some(false));
    assert_eq!(v.go_to_page("x"), None);
    assert_eq!(v.go_to_page("0"), Some(true));
    assert_eq!(v.page, 0);
}

#[test]
fn test_toolbar_texts() {
    let mut v = loaded(Some(250));
    v.go_next_page();
    let info = v.toolbar_info();
    assert_eq!(info.row_info, "101\u{2013}102 of 250");
    assert!(!info.on_first_page);
    assert!(!info.on_last_page);
    assert!(info.has_multiple_pages);
    assert_eq!(info.pending_count, 0);
    assert!(info.save_label.is_none());
    let w = loaded(None);
    let info = w.toolbar_info();
    assert_eq!(info.row_info, "2 rows");
    assert!(info.on_last_page);
    assert!(!info.has_multiple_pages);
}

#[test]
fn test_editing_and_saving_changes() {
    let mut v = loaded(Some(2));
    assert_eq!(v.start_editing(0, 1, String::new()), "alice");
    assert_eq!(v.start_editing(1, 1, "bob".into()), "");
    let info = v.toolbar_info();
    assert_eq!(info.pending_count, 2);
    assert_eq!(info.save_label.as_deref(), Some("Save 2 changes"));
    assert_eq!(v.cell_text(0, 1), "bob");
    assert_eq!(v.cell_color(0, 1), 0xf9e2afff);
    assert_eq!(v.cell_color(1, 0), 0xfab387ff);
    let updates = v.save_changes("NOW()".into()).unwrap();
    assert_eq!(updates.len(), 2);
    assert_eq!(updates[0].pk_columns, vec!["id".to_string()]);
    assert_eq!(updates[0].pk_values, vec![Value::Int(1)]);
    assert_eq!(updates[0].edits[0].column, "name");
    assert_eq!(updates[0].edits[0].new_value, Value::String("bob".into()));
    assert_eq!(updates[1].pk_values, vec![Value::Int(2)]);
    assert_eq!(updates[1].edits[0].new_value, Value::RawSql("NOW()".into()));
    assert_eq!(updates[1].database, "shop");
    assert_eq!(updates[1].table, "users");
}

#[test]
fn test_editing_same_cell_keeps_last_text() {
    let mut v = loaded(Some(2));
    v.start_editing(0, 1, String::new());
    v.commit_edit("x".into());
    v.start_editing(0, 1, String::new());
    v.commit_edit("y".into());
    assert_eq!(v.pending_edits.len(), 1);
    assert_eq!(v.cell_text(0, 1), "y");
}

#[test]
fn test_save_without_primary_key_sets_error() {
    let mut v = TableView::new("db".into(), "t".into());
    let result = QueryResult {
        columns: vec![col("a", false, "")],
        rows: vec![vec![Value::Int(1)]],
        affected_rows: 0,
        execution_time_ms: 0,
    };
    v.set_data(result, None);
    v.start_editing(0, 0, String::new());
    assert!(v.save_changes("2".into()).is_none());
    assert_eq!(v.save_error.as_deref(), Some("Cannot save: table has no primary key"));
    let mut w = loaded(None);
    assert!(w.save_changes(String::new()).is_none());
    assert!(w.save_error.is_none());
}

#[test]
fn test_new_row_cells_and_insert() {
    let mut v = loaded(None);
    v.toggle_new_row();
    assert!(v.new_row_active);
    assert!(matches!(v.new_row_cell(0), NewRowCell::Auto));
    assert_eq!(v.begin_new_row_cell(1, String::new()), "");
    assert!(matches!(v.new_row_cell(1), NewRowCell::Editing));
    assert!(v.new_row_dirty);
    let ins = v.save_new_row("carol".into()).unwrap();
    assert_eq!(ins.column_values, vec![("name".to_string(), Value::String("carol".into()))]);
    match v.new_row_cell(1) {
        NewRowCell::Text { text, pending } => {
            assert_eq!(text, "carol");
            assert!(pending);
        }
        _ => panic!("expected text"),
    }
    v.set_insert_error("duplicate".into());
    assert!(!v.insert_enabled());
    v.toggle_new_row();
    assert!(!v.new_row_active);
    assert!(v.new_row_edits.is_empty());
    let mut w = loaded(None);
    assert!(w.save_new_row(String::new()).is_none());
}

#[test]
fn test_filter_form_adds_and_removes_filters() {
    let mut v = loaded(Some(500));
    v.go_next_page();
    v.toggle_filter_form();
    assert!(v.filter_form_visible);
    v.select_filter_column(1);
    assert_eq!(v.filter_column_label(), "name");
    assert!(!v.add_filter(String::new()));
    assert!(v.add_filter("alice".into()));
    assert_eq!(v.page, 0);
    assert!(!v.filter_form_visible);
    assert_eq!(v.active_filters[0].op, FilterOp::Equals);
    assert_eq!(v.active_filters[0].value.as_deref(), Some("alice"));
    v.select_filter_op(12);
    assert_eq!(v.selected_op(), FilterOp::IsNull);
    assert!(v.add_filter(String::new()));
    assert!(v.active_filters[1].value.is_none());
    v.remove_filter(0);
    assert_eq!(v.active_filters.len(), 1);
    v.select_filter_column(7);
    assert_eq!(v.filter_column_label(), "\u{2014}");
    assert!(!v.add_filter("x".into()));
}

#[test]
fn test_view_mode_and_foreign_keys() {
    let mut v = loaded(None);
    v.toggle_filter_form();
    v.toggle_new_row();
    v.set_view_mode(ViewMode::Schema);
    assert!(!v.filter_form_visible);
    assert!(!v.new_row_active);
    v.set_foreign_keys(vec![ForeignKey {
        column: "name".into(),
        ref_database: "shop".into(),
        ref_table: "people".into(),
        ref_column: "name".into(),
    }]);
    assert_eq!(v.foreign_key_for(1), Some(0));
    assert_eq!(v.foreign_key_for(0), None);
    v.set_error("boom".into());
    assert_eq!(v.grid_status(), GridStatus::Error);
    v.set_loading();
    assert_eq!(v.grid_status(), GridStatus::Loading);
}
