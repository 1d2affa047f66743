use wdrc::change::{Change, ChangeSubject, ChangeType};
use wdrc::json::Json;
use wdrc::recent_changes::{RecentChanges, RecentChangesResults, RecentDeletions, RecentRedirects};
use wdrc::text_cache::TextCache;
use wdrc::timestamp::{upper_limit, upper_limit_of, HOUR};
use wdrc::rows::{ItemRow, LabelRow, RedirectRow, StatementRow};
use wdrc::watermark::Stream;
use wdrc::wdrc::{
    ChangeBatch, CycleStep, SyncError, WdRc, MAX_API_CONCURRENT, MAX_RECENT_CHANGES,
};

fn config(text: &str) -> WdRc {
    WdRc::new(&Json::parse(text).expect("valid JSON"))
}

fn redirect(source: &str, target: &str, ts: &str) -> RecentRedirects {
    RecentRedirects::from_row(
        Some(source.to_string()),
        Some(target.to_string()),
        Some(ts.to_string()),
    )
    .unwrap()
}

fn deletion(q: &str, ts: &str) -> RecentDeletions {
    RecentDeletions::from_row(Some(q.to_string()), Some(ts.to_string())).unwrap()
}

fn change(subject: ChangeSubject, key: &str) -> Change {
    let mut c = Change {
        subject,
        change_type: ChangeType::Added,
        item_id: 42,
        revision_id: 7,
        timestamp: "20240101000000".to_string(),
        ..Default::default()
    };
    match subject {
        ChangeSubject::Sitelinks => c.site = key.to_string(),
        ChangeSubject::Claims => c.property = key.to_string(),
        _ => c.language = key.to_string(),
    }
    c
}

#[test]
fn identifiers_are_a_letter_and_a_positive_number() {
    assert_eq!(WdRc::make_id_numeric("Q42"), Ok(42));
    assert_eq!(WdRc::make_id_numeric("P31"), Ok(31));
    assert_eq!(WdRc::make_id_numeric("Q007"), Ok(7));
    assert_eq!(WdRc::make_id_numeric("Q+5"), Ok(5));
    assert_eq!(WdRc::make_id_numeric("Q18446744073709551615"), Ok(u64::MAX));
    assert_eq!(WdRc::make_id_numeric("é12"), Ok(12));
}

#[test]
fn bad_identifiers_are_rejected() {
    for id in ["", "Q", "Q0", "Q000", "Qx", "Q1x", "Q-1", "Q+", "Q++1", "Q 1", "Q1 ",
        "Q18446744073709551616", "Q99999999999999999999999", "QQ1", "Q１"]
    {
        assert_eq!(WdRc::make_id_numeric(id), Err(SyncError::InvalidIdentifier), "{:?}", id);
    }
}

#[test]
fn configuration_has_defaults() {
    let plain = config("{}");
    assert!(!plain.logging());
    assert_eq!(plain.max_recent_changes(), 500);
    assert_eq!(MAX_RECENT_CHANGES, 500);
    assert_eq!(MAX_API_CONCURRENT, 50);
    let set = config(r#"{"logging": true, "max_recent_changes": 25}"#);
    assert!(set.logging());
    assert_eq!(set.max_recent_changes(), 25);
    let odd = config(r#"{"logging": "yes", "max_recent_changes": -3}"#);
    assert!(!odd.logging());
    assert_eq!(odd.max_recent_changes(), 500);
    let fraction = config(r#"{"max_recent_changes": 2.5}"#);
    assert_eq!(fraction.max_recent_changes(), 500);
}

#[test]
fn streams_have_keys_and_first_watermarks() {
    assert_eq!(Stream::Changes.key(), "timestamp");
    assert_eq!(Stream::Redirects.key(), "timestamp_redirect");
    assert_eq!(Stream::Deletions.key(), "timestamp_deletion");
    assert_eq!(Stream::Changes.watermark(None), "");
    assert_eq!(Stream::Redirects.watermark(None), "20000101000000");
    assert_eq!(Stream::Deletions.watermark(None), "20000101000000");
    assert_eq!(Stream::Changes.watermark(Some("20240101000000".to_string())), "20240101000000");
    assert_eq!(Stream::Deletions.watermark(Some("x".to_string())), "x");
}

#[test]
fn cycle_goes_on_after_a_failed_side_stream_only() {
    let mut step = CycleStep::RefreshSideStreams;
    step = WdRc::run_once(step, false);
    assert_eq!(step, CycleStep::PullChanges);
    step = WdRc::run_once(step, true);
    assert_eq!(step, CycleStep::StoreChanges);
    step = WdRc::run_once(step, true);
    assert_eq!(step, CycleStep::StoreNewItems);
    step = WdRc::run_once(step, true);
    assert_eq!(step, CycleStep::Done);
    assert_eq!(WdRc::run_once(step, true), CycleStep::Done);
    assert_eq!(WdRc::run_once(CycleStep::PullChanges, false), CycleStep::Failed);
    assert_eq!(WdRc::run_once(CycleStep::StoreChanges, false), CycleStep::Failed);
    assert_eq!(WdRc::run_once(CycleStep::StoreNewItems, false), CycleStep::Failed);
    assert_eq!(WdRc::run_once(CycleStep::Failed, true), CycleStep::Failed);
    assert_eq!(WdRc::run_once(CycleStep::RefreshSideStreams, true), CycleStep::PullChanges);
}

#[test]
fn window_ends_one_hour_after_the_watermark() {
    assert_eq!(upper_limit("20240101000000"), "20240101010000");
    assert_eq!(upper_limit("20231231233000"), "20240101003000");
    assert_eq!(upper_limit("20240228233000"), "20240229003000");
    assert_eq!(upper_limit("20230228233000"), "20230301003000");
    assert_eq!(upper_limit("00000101000000"), "00000101010000");
    assert_eq!(upper_limit("99991231225959"), "99991231235959");
}

#[test]
fn window_is_open_where_the_watermark_is_no_timestamp() {
    assert_eq!(upper_limit(""), "99991231235900");
    assert_eq!(upper_limit("2024"), "99991231235900");
    assert_eq!(upper_limit("20241301000000"), "99991231235900");
    assert_eq!(upper_limit("2024-01-01 00:00"), "99991231235900");
    assert_eq!(upper_limit("20240101006000"), "99991231235900");
    assert_eq!(upper_limit("20230229000000"), "99991231235900");
}

#[test]
fn window_end_falls_back_to_the_latest_timestamp() {
    assert_eq!(HOUR, 3600);
    assert_eq!(upper_limit_of(None), "99991231235900");
    assert_eq!(upper_limit_of(Some("20240101010000".to_string())), "20240101010000");
}

#[test]
fn interning_twice_gives_the_same_id_and_no_second_write() {
    let mut wdrc = config("{}");
    assert!(wdrc.needs_texts());
    wdrc.chache_texts_in_memory(&vec![("enwiki".to_string(), 3), ("dewiki".to_string(), 4)]);
    assert!(!wdrc.needs_texts());
    // A text that the table has: no write either time.
    assert_eq!(wdrc.get_or_create_text_id("enwiki"), Some(3));
    assert_eq!(wdrc.get_or_create_text_id("enwiki"), Some(3));
    // A text that it lacks: one write, then none.
    assert_eq!(wdrc.get_or_create_text_id("aawikibooks"), None);
    wdrc.text_id_created("aawikibooks", 1252);
    assert_eq!(wdrc.get_or_create_text_id("aawikibooks"), Some(1252));
    assert_eq!(wdrc.get_or_create_text_id("aawikibooks"), Some(1252));
    assert_eq!(wdrc.get_or_create_text_id("dewiki"), Some(4));
}

#[test]
fn a_warm_cache_is_not_loaded_again() {
    let mut wdrc = config("{}");
    wdrc.chache_texts_in_memory(&vec![("en".to_string(), 1)]);
    wdrc.chache_texts_in_memory(&vec![("en".to_string(), 9), ("de".to_string(), 2)]);
    assert_eq!(wdrc.get_or_create_text_id("en"), Some(1));
    assert_eq!(wdrc.get_or_create_text_id("de"), None);
}

#[test]
fn text_cache_keeps_the_last_row_of_a_text() {
    let mut cache = TextCache::new();
    assert!(cache.is_empty());
    assert_eq!(cache.get("en"), None);
    cache.warm(&vec![("en".to_string(), 1), ("de".to_string(), 2), ("en".to_string(), 3)]);
    assert!(!cache.is_empty());
    assert_eq!(cache.get("en"), Some(3));
    assert_eq!(cache.get("de"), Some(2));
    cache.insert("fr", 4);
    assert_eq!(cache.get("fr"), Some(4));
    assert_eq!(cache.get("en"), Some(3));
    cache.warm(&vec![("it".to_string(), 5)]);
    assert_eq!(cache.get("it"), None);
}

#[test]
fn redirects_give_rows_and_a_watermark() {
    let results = vec![
        redirect("Q1", "Q2", "20240101000200"),
        redirect("Property:P1", "Q2", "20240101000900"),
        redirect("Q3", "Q0", "20240101000800"),
        redirect("Q5", "Q6", "20240101000100"),
    ];
    let (rows, watermark) = WdRc::update_recent_redirects("20000101000000", &results).unwrap();
    assert_eq!(
        rows,
        vec![
            RedirectRow { source: 1, target: 2, timestamp: "20240101000200".to_string() },
            RedirectRow { source: 5, target: 6, timestamp: "20240101000100".to_string() },
        ]
    );
    assert_eq!(watermark, "20240101000200");
}

#[test]
fn redirects_without_a_row_leave_the_watermark() {
    assert_eq!(WdRc::update_recent_redirects("20240101000000", &vec![]), None);
    let bad = vec![redirect("x", "Q2", "20250101000000")];
    assert_eq!(WdRc::update_recent_redirects("20240101000000", &bad), None);
}

#[test]
fn a_watermark_never_moves_back() {
    let results = vec![redirect("Q1", "Q2", "20230101000000")];
    let (rows, watermark) = WdRc::update_recent_redirects("20240101000000", &results).unwrap();
    assert_eq!(rows.len(), 1);
    assert_eq!(watermark, "20240101000000");
    let deletions = vec![deletion("Q1", "20230101000000")];
    let (_, watermark) = WdRc::update_recent_deletions("20240101000000", &deletions).unwrap();
    assert_eq!(watermark, "20240101000000");
}

#[test]
fn deletions_give_rows_and_a_watermark() {
    let results = vec![
        deletion("Q10", "20240101000100"),
        deletion("Q", "20240101000900"),
        deletion("Q11", "20240101000300"),
    ];
    let (rows, watermark) = WdRc::update_recent_deletions("20000101000000", &results).unwrap();
    assert_eq!(
        rows,
        vec![
            ItemRow { q: 10, timestamp: "20240101000100".to_string() },
            ItemRow { q: 11, timestamp: "20240101000300".to_string() },
        ]
    );
    assert_eq!(watermark, "20240101000300");
    assert_eq!(WdRc::update_recent_deletions("20000101000000", &vec![]), None);
}

fn feed(title: &str, is_new: bool, old: u64, new: u64, ts: &str) -> RecentChanges {
    RecentChanges::from_row(
        Some(ts.to_string()),
        Some(title.to_string()),
        Some(is_new),
        Some(new),
        Some(old),
    )
    .unwrap()
}

#[test]
fn new_items_give_creation_rows() {
    let rc = RecentChangesResults::new(&vec![
        feed("Q1", true, 0, 1, "20240101000000"),
        feed("Q2", false, 1, 2, "20240101000100"),
        feed("Q3", true, 0, 1, "20240101000200"),
    ]);
    assert_eq!(
        WdRc::log_new_items(&rc),
        vec![
            ItemRow { q: 1, timestamp: "20240101000000".to_string() },
            ItemRow { q: 3, timestamp: "20240101000200".to_string() },
        ]
    );
    let none = RecentChangesResults::new(&vec![]);
    assert_eq!(WdRc::log_new_items(&none), vec![]);
}

#[test]
fn a_new_item_with_a_bad_identifier_is_passed_over() {
    let mut bad = feed("Q1", true, 0, 1, "20240101000000");
    bad.rc_title = "Lexeme:L1".to_string();
    let rc = RecentChangesResults::new(&vec![
        feed("Q2", true, 0, 1, "20240101000000"),
        bad,
        feed("Q3", true, 0, 1, "20240101000100"),
    ]);
    assert_eq!(
        WdRc::log_new_items(&rc),
        vec![
            ItemRow { q: 2, timestamp: "20240101000000".to_string() },
            ItemRow { q: 3, timestamp: "20240101000100".to_string() },
        ]
    );
}

#[test]
fn rows_that_could_not_be_read_are_passed_over() {
    let unreadable = RecentChanges::from_row(
        Some("20240101000000".to_string()),
        Some("Talk:Q2".to_string()),
        Some(false),
        Some(9),
        Some(8),
    );
    assert!(unreadable.is_none());
    let rc = WdRc::get_recent_changes(vec![
        Some(feed("Q2", false, 1, 2, "20240101000100")),
        unreadable,
        None,
        Some(feed("Q2", false, 2, 3, "20240101000200")),
        Some(feed("Q7", true, 0, 1, "20240101000300")),
    ]);
    assert_eq!(rc.changed_items().len(), 1);
    assert_eq!(rc.changed_items()[0].q(), "Q2");
    assert_eq!(rc.changed_items()[0].rev_old(), 1);
    assert_eq!(rc.changed_items()[0].rev_new(), 3);
    assert_eq!(rc.new_items().len(), 1);
    assert_eq!(rc.new_items()[0].q(), "Q7");
    assert_eq!(rc.new_items()[0].timestamp(), "20240101000300");
}

#[test]
fn failed_tasks_add_nothing() {
    let a = change(ChangeSubject::Labels, "en");
    let b = change(ChangeSubject::Sitelinks, "enwiki");
    let c = change(ChangeSubject::Claims, "P1");
    let outcomes = vec![
        Ok(vec![a.clone(), b.clone()]),
        Err(SyncError::RevisionFetch),
        Ok(vec![]),
        Err(SyncError::InvalidIdentifier),
        Ok(vec![c.clone()]),
    ];
    assert_eq!(
        WdRc::collect_changes(outcomes),
        (vec![a, b, c], vec![SyncError::RevisionFetch, SyncError::InvalidIdentifier])
    );
    assert_eq!(WdRc::collect_changes(vec![]), (vec![], vec![]));
}

#[test]
fn recent_changes_give_changes_and_a_watermark() {
    let rc = RecentChangesResults::new(&vec![
        feed("Q2", false, 1, 2, "20240101000100"),
        feed("Q3", false, 1, 2, "20240101000300"),
    ]);
    let a = change(ChangeSubject::Labels, "en");
    let outcomes = vec![Err(SyncError::RevisionFetch), Ok(vec![a.clone()])];
    assert_eq!(
        WdRc::log_recent_changes(&rc, outcomes),
        Some(ChangeBatch {
            changes: vec![a],
            failures: vec![SyncError::RevisionFetch],
            watermark: "20240101000300".to_string(),
        })
    );
    let all_failed = vec![Err(SyncError::RevisionFetch), Err(SyncError::InvalidIdentifier)];
    assert_eq!(
        WdRc::log_recent_changes(&rc, all_failed),
        Some(ChangeBatch {
            changes: vec![],
            failures: vec![SyncError::RevisionFetch, SyncError::InvalidIdentifier],
            watermark: "20240101000300".to_string(),
        })
    );
}

#[test]
fn recent_changes_without_changed_items_store_nothing() {
    let rc = RecentChangesResults::new(&vec![feed("Q1", true, 0, 1, "20240101000000")]);
    assert_eq!(WdRc::log_recent_changes(&rc, vec![]), None);
}

#[test]
fn statement_rows_take_claims_with_valid_properties() {
    let mut removed = change(ChangeSubject::Claims, "P31");
    removed.change_type = ChangeType::Removed;
    let changes = vec![
        change(ChangeSubject::Labels, "en"),
        removed,
        change(ChangeSubject::Claims, "nonsense"),
        change(ChangeSubject::Claims, "P279"),
    ];
    assert_eq!(
        WdRc::log_statement_changes(&changes),
        vec![
            StatementRow {
                item: 42,
                revision: 7,
                property: 31,
                timestamp: "20240101000000".to_string(),
                change_type: ChangeType::Removed,
            },
            StatementRow {
                item: 42,
                revision: 7,
                property: 279,
                timestamp: "20240101000000".to_string(),
                change_type: ChangeType::Added,
            },
        ]
    );
    assert_eq!(
        change(ChangeSubject::Claims, "P0").log_statement_change(),
        Err(SyncError::InvalidIdentifier)
    );
}

#[test]
fn label_rows_take_the_changes_whose_text_is_interned() {
    let mut wdrc = config("{}");
    wdrc.chache_texts_in_memory(&vec![("en".to_string(), 1), ("enwiki".to_string(), 2)]);
    let changes = vec![
        change(ChangeSubject::Labels, "en"),
        change(ChangeSubject::Sitelinks, "enwiki"),
        change(ChangeSubject::Descriptions, "de"),
        change(ChangeSubject::Aliases, "en"),
        change(ChangeSubject::Claims, "P1"),
        change(ChangeSubject::Sitelinks, "dewiki"),
        change(ChangeSubject::Labels, "de"),
    ];
    assert_eq!(wdrc.missing_texts(&changes, true), vec!["dewiki".to_string()]);
    assert_eq!(wdrc.missing_texts(&changes, false), vec!["de".to_string()]);
    let row = |subject, language| LabelRow {
        item: 42,
        revision: 7,
        subject,
        timestamp: "20240101000000".to_string(),
        change_type: ChangeType::Added,
        language,
    };
    assert_eq!(wdrc.log_sitelinks_changes(&changes), vec![row(ChangeSubject::Sitelinks, 2)]);
    assert_eq!(
        wdrc.log_label_changes(&changes),
        vec![row(ChangeSubject::Labels, 1), row(ChangeSubject::Aliases, 1)]
    );
    wdrc.text_id_created("de", 10);
    wdrc.text_id_created("dewiki", 11);
    assert_eq!(wdrc.missing_texts(&changes, true), Vec::<String>::new());
    assert_eq!(
        wdrc.log_sitelinks_changes(&changes),
        vec![row(ChangeSubject::Sitelinks, 2), row(ChangeSubject::Sitelinks, 11)]
    );
    assert_eq!(
        wdrc.log_label_changes(&changes),
        vec![
            row(ChangeSubject::Labels, 1),
            row(ChangeSubject::Descriptions, 10),
            row(ChangeSubject::Aliases, 1),
            row(ChangeSubject::Labels, 10),
        ]
    );
    assert_eq!(change(ChangeSubject::Labels, "en").log_label_change(5), row(ChangeSubject::Labels, 5));
}

#[test]
fn subjects_and_kinds_have_names() {
    assert_eq!(ChangeSubject::Labels.as_str(), "labels");
    assert_eq!(ChangeSubject::Descriptions.as_str(), "descriptions");
    assert_eq!(ChangeSubject::Aliases.as_str(), "aliases");
    assert_eq!(ChangeSubject::Claims.as_str(), "claims");
    assert_eq!(ChangeSubject::Sitelinks.as_str(), "sitelinks");
    assert_eq!(ChangeType::Changed.as_str(), "changed");
    assert_eq!(ChangeType::Removed.as_str(), "removed");
    assert_eq!(ChangeType::Added.as_str(), "added");
    assert_eq!(ChangeSubject::default(), ChangeSubject::Labels);
    assert_eq!(ChangeType::default(), ChangeType::Changed);
    let blank = Change::default();
    assert_eq!(blank.item_id, 0);
    assert_eq!(blank.revision_id, 0);
    assert_eq!(blank.language, "");
    assert_eq!(blank.timestamp, "");
}
