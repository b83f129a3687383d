use querybox::query::history::QueryHistory;

#[test]
fn test_history_keeps_newest_within_cap() {
    let mut h = QueryHistory::new();
    for i in 0..502u64 {
        h.add_at(format!("SELECT {i}"), i as i64, i, true);
    }
    let entries = h.entries();
    assert_eq!(entries.len(), 500);
    assert_eq!(entries[0].sql, "SELECT 2");
    assert_eq!(entries[499].sql, "SELECT 501");
    assert_eq!(entries[499].timestamp, 501);
}

#[test]
fn test_history_add_stamps_entry() {
    let mut h = QueryHistory::new();
    h.add("SELECT 1".to_string(), 7, false);
    assert_eq!(h.entries().len(), 1);
    assert_eq!(h.entries()[0].execution_time_ms, 7);
    assert!(!h.entries()[0].success);
    assert!(h.entries()[0].timestamp > 0);
}
