use wdrc::recent_changes::{RecentChanges, RecentChangesResults, RecentDeletions, RecentRedirects};

fn row(title: &str, is_new: bool, old: u64, new: u64, ts: &str) -> RecentChanges {
    RecentChanges::from_row(
        Some(ts.to_string()),
        Some(title.to_string()),
        Some(is_new),
        Some(new),
        Some(old),
    )
    .expect("valid row")
}

fn changed(rc: &RecentChangesResults) -> Vec<(String, u64, u64, String)> {
    rc.changed_items()
        .iter()
        .map(|c| (c.q().to_string(), c.rev_old(), c.rev_new(), c.timestamp().to_string()))
        .collect()
}

fn created(rc: &RecentChangesResults) -> Vec<(String, String)> {
    rc.new_items().iter().map(|n| (n.q().to_string(), n.timestamp().to_string())).collect()
}

#[test]
fn aggregates_the_batch_end_to_end() {
    let events = vec![
        row("Q1", true, 0, 0, "20240101000000"),
        row("Q2", false, 100, 101, "20240101000100"),
        row("Q2", false, 100, 105, "20240101000200"),
    ];
    let rc = RecentChangesResults::new(&events);
    assert_eq!(created(&rc), vec![("Q1".to_string(), "20240101000000".to_string())]);
    assert_eq!(
        changed(&rc),
        vec![("Q2".to_string(), 100, 105, "20240101000200".to_string())]
    );
}

#[test]
fn old_is_first_seen_and_new_is_the_maximum() {
    let events = vec![
        row("Q5", false, 10, 20, "20240101000001"),
        row("Q6", false, 7, 8, "20240101000002"),
        row("Q5", false, 20, 30, "20240101000003"),
        row("Q5", false, 15, 25, "20240101000004"),
    ];
    let rc = RecentChangesResults::new(&events);
    assert_eq!(
        changed(&rc),
        vec![
            ("Q5".to_string(), 10, 30, "20240101000003".to_string()),
            ("Q6".to_string(), 7, 8, "20240101000002".to_string()),
        ]
    );
}

#[test]
fn a_later_edit_that_is_not_newer_changes_nothing() {
    let events = vec![
        row("Q5", false, 10, 30, "20240101000001"),
        row("Q5", false, 30, 30, "20240101000009"),
    ];
    let rc = RecentChangesResults::new(&events);
    assert_eq!(changed(&rc), vec![("Q5".to_string(), 10, 30, "20240101000001".to_string())]);
}

#[test]
fn a_batch_taken_twice_gives_the_same_changed_items() {
    let events = || {
        vec![
            row("Q5", false, 10, 20, "20240101000001"),
            row("Q9", true, 0, 1, "20240101000002"),
            row("Q6", false, 7, 8, "20240101000003"),
            row("Q5", false, 20, 30, "20240101000004"),
        ]
    };
    let once = RecentChangesResults::new(&events());
    let mut doubled = events();
    doubled.extend(events());
    let twice = RecentChangesResults::new(&doubled);
    assert_eq!(changed(&twice), changed(&once));
    assert_eq!(changed(&once)[0], ("Q5".to_string(), 10, 30, "20240101000004".to_string()));
}

#[test]
fn a_created_item_keeps_its_last_timestamp() {
    let events = vec![
        row("Q1", true, 0, 1, "20240101000000"),
        row("Q2", true, 0, 2, "20240101000001"),
        row("Q1", true, 0, 3, "20240101000002"),
    ];
    let rc = RecentChangesResults::new(&events);
    assert_eq!(
        created(&rc),
        vec![
            ("Q1".to_string(), "20240101000002".to_string()),
            ("Q2".to_string(), "20240101000001".to_string()),
        ]
    );
    assert!(rc.changed_items().is_empty());
}

#[test]
fn created_and_edited_in_one_batch_stands_in_both_sets() {
    let events = vec![
        row("Q1", true, 0, 1, "20240101000000"),
        row("Q1", false, 1, 2, "20240101000001"),
    ];
    let rc = RecentChangesResults::new(&events);
    assert_eq!(created(&rc), vec![("Q1".to_string(), "20240101000000".to_string())]);
    assert_eq!(changed(&rc), vec![("Q1".to_string(), 1, 2, "20240101000001".to_string())]);
}

#[test]
fn an_empty_batch_has_no_work() {
    let rc = RecentChangesResults::new(&vec![]);
    assert!(rc.new_items().is_empty());
    assert!(rc.changed_items().is_empty());
}

#[test]
fn last_timestamp_is_the_fallback_only_without_changed_items() {
    let none = RecentChangesResults::new(&vec![row("Q1", true, 0, 1, "20240101000000")]);
    assert_eq!(none.get_last_rc_timetamp("20000101000000"), "20000101000000");
    let some = RecentChangesResults::new(&vec![
        row("Q2", false, 1, 2, "20240101000100"),
        row("Q3", false, 1, 2, "20240101000300"),
        row("Q4", false, 1, 2, "20240101000200"),
    ]);
    assert_eq!(some.get_last_rc_timetamp("20000101000000"), "20240101000300");
}

#[test]
fn last_timestamp_is_the_maximum_whatever_the_fallback() {
    let some = RecentChangesResults::new(&vec![row("Q2", false, 1, 2, "20240101000100")]);
    assert_eq!(some.get_last_rc_timetamp("20990101000000"), "20240101000100");
}

#[test]
fn feed_rows_need_every_column_and_a_valid_title() {
    let ts = || Some("20240101000000".to_string());
    let title = || Some("Q42".to_string());
    assert!(RecentChanges::from_row(ts(), title(), Some(false), Some(2), Some(1)).is_some());
    assert!(RecentChanges::from_row(None, title(), Some(false), Some(2), Some(1)).is_none());
    assert!(RecentChanges::from_row(ts(), None, Some(false), Some(2), Some(1)).is_none());
    assert!(RecentChanges::from_row(ts(), title(), None, Some(2), Some(1)).is_none());
    assert!(RecentChanges::from_row(ts(), title(), Some(false), None, Some(1)).is_none());
    assert!(RecentChanges::from_row(ts(), title(), Some(false), Some(2), None).is_none());
    let bad = Some("Property:P1".to_string());
    assert!(RecentChanges::from_row(ts(), bad, Some(false), Some(2), Some(1)).is_none());
}

#[test]
fn feed_row_keeps_its_columns() {
    let r = row("Q42", false, 1, 2, "20240101000000");
    assert_eq!(r.item_id(), 42);
    assert_eq!(r.rc_title, "Q42");
    assert_eq!(r.rc_timestamp, "20240101000000");
    assert!(!r.rc_new);
    assert_eq!(r.rc_this_oldid, 2);
    assert_eq!(r.rc_last_oldid, 1);
}

#[test]
fn redirect_rows_need_every_column() {
    let s = |t: &str| Some(t.to_string());
    let r = RecentRedirects::from_row(s("Q1"), s("Q2"), s("20240101000000")).unwrap();
    assert_eq!(r.source(), "Q1");
    assert_eq!(r.target(), "Q2");
    assert_eq!(r.timestamp(), "20240101000000");
    assert!(RecentRedirects::from_row(None, s("Q2"), s("t")).is_none());
    assert!(RecentRedirects::from_row(s("Q1"), None, s("t")).is_none());
    assert!(RecentRedirects::from_row(s("Q1"), s("Q2"), None).is_none());
}

#[test]
fn deletion_rows_need_every_column() {
    let s = |t: &str| Some(t.to_string());
    let d = RecentDeletions::from_row(s("Q1"), s("20240101000000")).unwrap();
    assert_eq!(d.q(), "Q1");
    assert_eq!(d.timestamp(), "20240101000000");
    assert!(RecentDeletions::from_row(None, s("t")).is_none());
    assert!(RecentDeletions::from_row(s("Q1"), None).is_none());
}
