use bava::profiling::{collection_enabled, is_long_lived, merge_by_name, report_due, scope_name, top_rows, truncate, ScopeStats, SpanStack, REPORT_ROWS};

#[test]
fn process_long_spans_are_not_scopes() {
    assert!(is_long_lived("bevy_app"));
    assert!(is_long_lived("render thread"));
    assert!(!is_long_lived("system"));
}

#[test]
fn collection_is_off_only_when_asked() {
    assert!(collection_enabled(&None));
    assert!(!collection_enabled(&Some(" OFF ".into())));
    assert!(!collection_enabled(&Some("0".into())));
    assert!(!collection_enabled(&Some("False".into())));
    assert!(collection_enabled(&Some("on".into())));
}

#[test]
fn exits_unwind_through_out_of_order_spans() {
    let mut s = SpanStack::new();
    s.push(1, 10);
    s.push(2, 20);
    s.push(3, 30);
    assert_eq!(s.close_through(2), (vec![30, 20], true));
    assert_eq!(s.open, vec![(1, 10)]);
    assert_eq!(s.close_through(7), (vec![], false));
    assert_eq!(s.close_through(1), (vec![10], false));
    assert!(s.open.is_empty());
}

#[test]
fn scope_names_keep_the_path_tail() {
    assert_eq!(scope_name("system", &Some("bava::vis::bars::update_bars".into())), "system: update_bars");
    assert_eq!(scope_name("system", &Some("plain".into())), "system: plain");
    assert_eq!(scope_name("render node", &None), "render node");
}

#[test]
fn report_rows_keep_the_tail_of_long_names() {
    assert_eq!(truncate("short", 44), "short");
    assert_eq!(truncate("abcdefgh", 5), "…efgh");
    assert_eq!(truncate("abcdefgh", 5).chars().count(), 5);
}

#[test]
fn scope_stats_accumulate_and_merge() {
    let mut a = ScopeStats::new();
    a.record(100, 40);
    a.record(300, 0);
    assert_eq!(a, ScopeStats { total_ns: 400, self_ns: 360, max_ns: 300, calls: 2 });
    let mut b = ScopeStats::new();
    b.record(500, 100);
    a.merge(&b);
    assert_eq!(a, ScopeStats { total_ns: 900, self_ns: 760, max_ns: 500, calls: 3 });
    assert!(report_due(300, 300));
    assert!(!report_due(299, 300));
}

fn stats(total_ns: i64, self_ns: i64, max_ns: i64, calls: u64) -> ScopeStats {
    ScopeStats { total_ns, self_ns, max_ns, calls }
}

#[test]
fn report_merges_rows_that_share_a_name() {
    let entries = vec![
        ("update".to_string(), stats(10, 4, 7, 2)),
        ("draw".to_string(), stats(5, 5, 5, 1)),
        ("update".to_string(), stats(20, 6, 9, 3)),
    ];
    let merged = merge_by_name(&entries);
    assert_eq!(merged.len(), 2);
    let update = merged.iter().find(|r| r.0 == "update").unwrap();
    assert_eq!(update.1, stats(30, 10, 9, 5));
    let draw = merged.iter().find(|r| r.0 == "draw").unwrap();
    assert_eq!(draw.1, stats(5, 5, 5, 1));
    assert!(merge_by_name(&Vec::new()).is_empty());
}

#[test]
fn report_shows_the_slowest_rows_first_up_to_the_limit() {
    let rows = vec![
        ("a".to_string(), stats(1, 1, 1, 1)),
        ("b".to_string(), stats(9, 9, 9, 1)),
        ("c".to_string(), stats(5, 5, 5, 1)),
        ("d".to_string(), stats(7, 7, 7, 1)),
    ];
    let top = top_rows(&rows, 3);
    let names: Vec<&str> = top.iter().map(|r| r.0.as_str()).collect();
    assert_eq!(names, vec!["b", "d", "c"]);
    assert_eq!(top_rows(&rows, REPORT_ROWS).len(), 4);
    assert!(top_rows(&rows, 0).is_empty());
}
