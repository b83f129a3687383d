use querybox::ui::tab_bar::{TabBar, TabKind};

#[test]
fn test_tab_bar_reuses_table_tabs_and_names_queries() {
    let mut bar = TabBar::new();
    let a = bar.open_table("db".into(), "users".into());
    let q1 = bar.open_query();
    let b = bar.open_table("db".into(), "orders".into());
    let again = bar.open_table("db".into(), "users".into());
    assert_eq!(a, again);
    assert_eq!(bar.tabs.len(), 3);
    assert_eq!(bar.active_tab, Some(a));
    let q2 = bar.open_query();
    assert_eq!(bar.tabs.last().unwrap().label(), "Query 2");
    assert_eq!(bar.tabs[1].label(), "Query 1");
    assert_eq!(bar.tabs[1].icon(), "Q");
    assert_eq!(bar.tabs[0].icon(), "T");
    assert!(matches!(bar.tabs[2].kind, TabKind::Table { .. }));
    assert!(q1 != q2 && b != a);
}

#[test]
fn test_close_active_tab_activates_last() {
    let mut bar = TabBar::new();
    let a = bar.open_table("db".into(), "a".into());
    let b = bar.open_table("db".into(), "b".into());
    let c = bar.open_query();
    bar.set_active(a);
    bar.close_tab(a);
    assert_eq!(bar.active_tab, Some(c));
    bar.close_tab(b);
    assert_eq!(bar.active_tab, Some(c));
    bar.close_tab(c);
    assert_eq!(bar.active_tab, None);
    assert!(bar.tabs.is_empty());
}

#[test]
fn test_switch_to_position_clamps_to_last_tab() {
    let mut bar = TabBar::new();
    bar.switch_to_position(0);
    assert_eq!(bar.active_tab, None);
    let a = bar.open_table("db".into(), "a".into());
    let b = bar.open_query();
    let c = bar.open_table("db".into(), "c".into());
    bar.switch_to_position(0);
    assert_eq!(bar.active_tab, Some(a));
    bar.switch_to_position(1);
    assert_eq!(bar.active_tab, Some(b));
    bar.switch_to_position(8);
    assert_eq!(bar.active_tab, Some(c));
}
