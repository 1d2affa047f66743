use wdrc::change::{Change, ChangeSubject, ChangeType};
use wdrc::json::Json;
use wdrc::revision_compare::RevisionCompare;
use wdrc::wdrc::SyncError;

fn doc(text: &str) -> Json {
    Json::parse(text).expect("valid JSON")
}

fn term(subject: ChangeSubject, change_type: ChangeType, language: &str, text: &str) -> Change {
    Change {
        subject,
        change_type,
        language: language.to_string(),
        text: text.to_string(),
        ..Default::default()
    }
}

fn claim(change_type: ChangeType, property: &str, id: &str) -> Change {
    Change {
        subject: ChangeSubject::Claims,
        change_type,
        property: property.to_string(),
        id: id.to_string(),
        ..Default::default()
    }
}

#[test]
fn test_compare_labels() {
    let old = doc(
        r#"{"labels":{
            "en": {"value": "old"},
            "de": {"value": "alt"},
            "fr": {"value": "ancien"}}
        }"#,
    );
    let new = doc(
        r#"{"labels":{
            "en": {"value": "new"},
            "de": {"value": "alt"},
            "it": {"value":"nuovo"}}
        }"#,
    );
    let rc = RevisionCompare::new();
    let changes = rc.compare_labels(&old, &new);
    let expected = vec![
        Change {
            subject: ChangeSubject::Labels,
            change_type: ChangeType::Changed,
            language: "en".to_string(),
            text: "new".to_string(),
            ..Default::default()
        },
        Change {
            subject: ChangeSubject::Labels,
            change_type: ChangeType::Removed,
            language: "fr".to_string(),
            text: "ancien".to_string(),
            ..Default::default()
        },
        Change {
            subject: ChangeSubject::Labels,
            change_type: ChangeType::Added,
            language: "it".to_string(),
            text: "nuovo".to_string(),
            ..Default::default()
        },
    ];
    assert_eq!(changes, expected);
}

#[test]
fn test_compare_descriptions() {
    let old = doc(
        r#"{"descriptions":{
            "en": {"value": "old"},
            "de": {"value": "alt"},
            "fr": {"value": "ancien"}}
        }"#,
    );
    let new = doc(
        r#"{"descriptions":{
            "en": {"value":"new"},
            "de": {"value": "alt"},
            "it": {"value":"nuovo"}}
        }"#,
    );
    let rc = RevisionCompare::new();
    let changes = rc.compare_descriptions(&old, &new);
    let expected = vec![
        Change {
            subject: ChangeSubject::Descriptions,
            change_type: ChangeType::Changed,
            language: "en".to_string(),
            text: "new".to_string(),
            ..Default::default()
        },
        Change {
            subject: ChangeSubject::Descriptions,
            change_type: ChangeType::Removed,
            language: "fr".to_string(),
            text: "ancien".to_string(),
            ..Default::default()
        },
        Change {
            subject: ChangeSubject::Descriptions,
            change_type: ChangeType::Added,
            language: "it".to_string(),
            text: "nuovo".to_string(),
            ..Default::default()
        },
    ];
    assert_eq!(changes, expected);
}

#[test]
fn test_compare_aliases() {
    let old = doc(
        r#"{"aliases":{
            "en": [{"value":"old"},{"value":"older"}],
            "de": [{"value":"alt"}],
            "fr": [{"value":"ancien"}]}
        }"#,
    );
    let new = doc(
        r#"{"aliases":{
            "en": [{"value":"new"},{"value":"older"}],
            "de": [{"value":"alt"}],
            "it": [{"value":"nuovo"}]}
        }"#,
    );
    let rc = RevisionCompare::new();
    let changes = rc.compare_aliases(&old, &new);
    let expected = vec![
        Change {
            subject: ChangeSubject::Aliases,
            change_type: ChangeType::Removed,
            language: "en".to_string(),
            text: "old".to_string(),
            ..Default::default()
        },
        Change {
            subject: ChangeSubject::Aliases,
            change_type: ChangeType::Added,
            language: "en".to_string(),
            text: "new".to_string(),
            ..Default::default()
        },
        Change {
            subject: ChangeSubject::Aliases,
            change_type: ChangeType::Removed,
            language: "fr".to_string(),
            text: "ancien".to_string(),
            ..Default::default()
        },
        Change {
            subject: ChangeSubject::Aliases,
            change_type: ChangeType::Added,
            language: "it".to_string(),
            text: "nuovo".to_string(),
            ..Default::default()
        },
    ];
    assert_eq!(changes, expected);
}

#[test]
fn test_compare_sitelinks() {
    let old = doc(
        r#"{"sitelinks":{
            "enwiki": {"title":"old"},
            "dewiki": {"title":"alt"},
            "frwiki": {"title":"ancien"}}
        }"#,
    );
    let new = doc(
        r#"{"sitelinks":{
            "enwiki": {"title":"new"},
            "dewiki": {"title":"alt"},
            "itwiki": {"title":"nuovo"}}
        }"#,
    );
    let rc = RevisionCompare::new();
    let changes = rc.compare_sitelinks(&old, &new);
    let expected = vec![
        Change {
            subject: ChangeSubject::Sitelinks,
            change_type: ChangeType::Changed,
            site: "enwiki".to_string(),
            title: "new".to_string(),
            ..Default::default()
        },
        Change {
            subject: ChangeSubject::Sitelinks,
            change_type: ChangeType::Removed,
            site: "frwiki".to_string(),
            title: "ancien".to_string(),
            ..Default::default()
        },
        Change {
            subject: ChangeSubject::Sitelinks,
            change_type: ChangeType::Added,
            site: "itwiki".to_string(),
            title: "nuovo".to_string(),
            ..Default::default()
        },
    ];
    assert_eq!(changes, expected);
}

#[test]
fn test_compare_claims() {
    let old = doc(
        r#"{"claims":{
            "P1": [
                {"id": "Q1$123", "mainsnak": {"snaktype": "value", "datavalue": {"value": "old"}}},
                {"id": "Q1$124", "mainsnak": {"snaktype": "value", "datavalue": {"value": "old2"}}},
                {"id": "Q1$125", "mainsnak": {"snaktype": "value", "datavalue": {"value": "old3"}}}
            ],
            "P2": [
                {"id": "Q1$126", "mainsnak": {"snaktype": "value", "datavalue": {"value": "old"}}}
            ]
        }}"#,
    );
    let new = doc(
        r#"{"claims":{
            "P1": [
                {"id": "Q1$123", "mainsnak": {"snaktype": "value", "datavalue": {"value": "new"}}},
                {"id": "Q1$124", "mainsnak": {"snaktype": "value", "datavalue": {"value": "old2"}}},
                {"id": "Q1$127", "mainsnak": {"snaktype": "value", "datavalue": {"value": "new2"}}}
            ],
            "P3": [
                {"id": "Q1$128", "mainsnak": {"snaktype": "value", "datavalue": {"value": "new"}}}
            ]
        }}"#,
    );
    let rc = RevisionCompare::new();
    let changes = rc.compare_statements(&old, &new);
    let expected = vec![
        Change {
            subject: ChangeSubject::Claims,
            change_type: ChangeType::Changed,
            property: "P1".to_string(),
            id: "Q1$123".to_string(),
            ..Default::default()
        },
        Change {
            subject: ChangeSubject::Claims,
            change_type: ChangeType::Removed,
            property: "P1".to_string(),
            id: "Q1$125".to_string(),
            ..Default::default()
        },
        Change {
            subject: ChangeSubject::Claims,
            change_type: ChangeType::Removed,
            property: "P2".to_string(),
            id: "Q1$126".to_string(),
            ..Default::default()
        },
        Change {
            subject: ChangeSubject::Claims,
            change_type: ChangeType::Added,
            property: "P1".to_string(),
            id: "Q1$127".to_string(),
            ..Default::default()
        },
        Change {
            subject: ChangeSubject::Claims,
            change_type: ChangeType::Added,
            property: "P3".to_string(),
            id: "Q1$128".to_string(),
            ..Default::default()
        },
    ];
    assert_eq!(changes, expected);
}

#[test]
fn equal_label_gives_no_change() {
    let old = doc(r#"{"labels":{"en":{"value":"same"}}}"#);
    let new = doc(r#"{"labels":{"en":{"value":"same"}}}"#);
    assert_eq!(RevisionCompare::new().compare_labels(&old, &new), vec![]);
}

#[test]
fn added_label_end_to_end() {
    let old = doc(r#"{"labels":{"en":{"value":"old"}}}"#);
    let new = doc(r#"{"labels":{"en":{"value":"old"},"de":{"value":"neu"}}}"#);
    let changes = RevisionCompare::new().compare_revisions(&old, &new);
    assert_eq!(
        changes,
        vec![term(ChangeSubject::Labels, ChangeType::Added, "de", "neu")]
    );
}

#[test]
fn labels_without_a_text_are_skipped() {
    // An old entry without a string value yields nothing, and since its key
    // is in the old section the new entry is no addition either.
    let old = doc(r#"{"labels":{"en":{"value":7},"de":{"value":"alt"},"fr":{}}}"#);
    let new = doc(r#"{"labels":{"en":{"value":"new"},"de":{"value":null},"it":{"v":"x"}}}"#);
    assert_eq!(RevisionCompare::new().compare_labels(&old, &new), vec![]);
}

#[test]
fn missing_sections_count_as_empty() {
    let old = doc(r#"{}"#);
    let new = doc(r#"{"labels":{"en":{"value":"new"}},"sitelinks":"none","claims":[1,2]}"#);
    let changes = RevisionCompare::new().compare_revisions(&old, &new);
    assert_eq!(
        changes,
        vec![term(ChangeSubject::Labels, ChangeType::Added, "en", "new")]
    );
    let not_an_object = doc(r#"[1, 2, 3]"#);
    assert_eq!(
        RevisionCompare::new().compare_revisions(&not_an_object, &not_an_object),
        vec![]
    );
}

#[test]
fn alias_diff_is_a_symmetric_difference() {
    let rc = RevisionCompare::new();
    let old = vec!["a".to_string(), "b".to_string()];
    let new = vec!["b".to_string(), "c".to_string()];
    let changes = rc.compare_aliases_in_language("L", &old, &new);
    assert_eq!(
        changes,
        vec![
            term(ChangeSubject::Aliases, ChangeType::Removed, "L", "a"),
            term(ChangeSubject::Aliases, ChangeType::Added, "L", "c"),
        ]
    );
}

#[test]
fn alias_lists_that_are_equal_give_nothing() {
    let rc = RevisionCompare::new();
    let same = vec!["a".to_string(), "b".to_string()];
    assert_eq!(rc.compare_aliases_in_language("en", &same, &same), vec![]);
}

#[test]
fn alias_order_and_repetition() {
    let rc = RevisionCompare::new();
    // The lists differ as sequences, but each text of one is in the other.
    let old = vec!["a".to_string(), "b".to_string()];
    let new = vec!["b".to_string(), "a".to_string(), "a".to_string()];
    assert_eq!(rc.compare_aliases_in_language("en", &old, &new), vec![]);
}

#[test]
fn aliases_of_languages_in_first_seen_order() {
    let old = doc(r#"{"aliases":{"z":[{"value":"last"}]}}"#);
    let new = doc(r#"{"aliases":{"a":[{"value":"first"}, {"novalue":1}, "bare"]}}"#);
    let changes = RevisionCompare::new().compare_aliases(&old, &new);
    assert_eq!(
        changes,
        vec![
            term(ChangeSubject::Aliases, ChangeType::Removed, "z", "last"),
            term(ChangeSubject::Aliases, ChangeType::Added, "a", "first"),
        ]
    );
}

#[test]
fn extract_aliases_reads_texts_only() {
    let section = match doc(r#"{"en":[{"value":"x"},{"value":3},{"value":"y"}],"de":"no list"}"#) {
        Json::Object(members) => members,
        _ => unreachable!(),
    };
    assert_eq!(
        RevisionCompare::extract_aliases_from_map(&section, "en"),
        vec!["x".to_string(), "y".to_string()]
    );
    assert_eq!(RevisionCompare::extract_aliases_from_map(&section, "de"), Vec::<String>::new());
    assert_eq!(RevisionCompare::extract_aliases_from_map(&section, "fr"), Vec::<String>::new());
}

#[test]
fn reordered_claims_give_no_change() {
    let old = doc(
        r#"{"claims":{"P1":[{"id":"a","rank":"normal"},{"id":"b","rank":"preferred"}],
                       "P2":[{"id":"c"}]}}"#,
    );
    let new = doc(
        r#"{"claims":{"P1":[{"id":"b","rank":"preferred"},{"id":"a","rank":"normal"}],
                       "P2":[{"id":"c"}]}}"#,
    );
    assert_eq!(RevisionCompare::new().compare_statements(&old, &new), vec![]);
}

#[test]
fn nested_change_gives_one_changed_claim() {
    let old = doc(
        r#"{"claims":{"P1":[{"id":"a","qualifiers":{"P9":[{"hash":"1"}]}},{"id":"b"}]}}"#,
    );
    let new = doc(
        r#"{"claims":{"P1":[{"id":"b"},{"id":"a","qualifiers":{"P9":[{"hash":"2"}]}}]}}"#,
    );
    assert_eq!(
        RevisionCompare::new().compare_statements(&old, &new),
        vec![claim(ChangeType::Changed, "P1", "a")]
    );
}

#[test]
fn claim_moved_to_another_property_is_found_by_id() {
    let old = doc(r#"{"claims":{"P1":[{"id":"a","v":1}]}}"#);
    let new = doc(r#"{"claims":{"P2":[{"id":"a","v":1}]}}"#);
    assert_eq!(RevisionCompare::new().compare_statements(&old, &new), vec![]);
}

#[test]
fn negative_zero_is_no_change_of_a_claim() {
    let old = doc(r#"{"claims":{"P625":[{"id":"a","latitude":0.0,"longitude":1.5}]}}"#);
    let new = doc(r#"{"claims":{"P625":[{"id":"a","latitude":-0.0,"longitude":1.5}]}}"#);
    assert_eq!(RevisionCompare::new().compare_statements(&old, &new), vec![]);
    let moved = doc(r#"{"claims":{"P625":[{"id":"a","latitude":0.0,"longitude":-1.5}]}}"#);
    assert_eq!(
        RevisionCompare::new().compare_statements(&old, &moved),
        vec![claim(ChangeType::Changed, "P625", "a")]
    );
}

#[test]
fn claims_without_an_identifier_are_skipped() {
    let old = doc(r#"{"claims":{"P1":[{"v":1},{"id":5},{"id":"a"}],"P2":"none"}}"#);
    let new = doc(r#"{"claims":{"P1":[{"v":2}]}}"#);
    assert_eq!(
        RevisionCompare::new().compare_statements(&old, &new),
        vec![claim(ChangeType::Removed, "P1", "a")]
    );
}

#[test]
fn get_claim_by_id_scans_all_properties() {
    let section = match doc(r#"{"P1":[{"id":"a"}],"P2":[{"id":"b","x":1},{"id":"b","x":2}]}"#) {
        Json::Object(members) => members,
        _ => unreachable!(),
    };
    let found = RevisionCompare::get_claim_by_id("b", &section);
    assert_eq!(found, Some(&doc(r#"{"id":"b","x":1}"#)));
    assert_eq!(RevisionCompare::get_claim_by_id("c", &section), None);
}

#[test]
fn revisions_come_in_the_fixed_order_of_subjects() {
    let old = doc(r#"{}"#);
    let new = doc(
        r#"{"sitelinks":{"enwiki":{"title":"T"}},
            "claims":{"P1":[{"id":"c1"}]},
            "aliases":{"en":[{"value":"A"}]},
            "descriptions":{"en":{"value":"D"}},
            "labels":{"en":{"value":"L"}}}"#,
    );
    let subjects: Vec<ChangeSubject> = RevisionCompare::new()
        .compare_revisions(&old, &new)
        .iter()
        .map(|c| c.subject)
        .collect();
    assert_eq!(
        subjects,
        vec![
            ChangeSubject::Labels,
            ChangeSubject::Descriptions,
            ChangeSubject::Aliases,
            ChangeSubject::Claims,
            ChangeSubject::Sitelinks,
        ]
    );
}

#[test]
fn revisions_url_is_spelled_out() {
    assert_eq!(
        RevisionCompare::get_revisions_url("Q42", 2208025531, 2208025540),
        "https://www.wikidata.org/w/api.php?action=query&prop=revisions&titles=Q42&rvprop=ids|content&rvstartid=2208025540&rvendid=2208025531&rvslots=main&format=json"
    );
    assert_eq!(
        RevisionCompare::get_revisions_url("Q1", 0, 18446744073709551615),
        "https://www.wikidata.org/w/api.php?action=query&prop=revisions&titles=Q1&rvprop=ids|content&rvstartid=18446744073709551615&rvendid=0&rvslots=main&format=json"
    );
}

const RESPONSE: &str = r#"{"query":{"pages":{"138":{"pageid":138,"title":"Q42","revisions":[
    {"revid":101,"parentid":100,"slots":{"main":{"contentmodel":"wikibase-item","*":"{\"id\":\"Q42\",\"labels\":{\"en\":{\"value\":\"new\"}}}"}}},
    {"revid":100,"parentid":99,"slots":{"main":{"contentmodel":"wikibase-item","*":"{\"id\":\"Q42\",\"labels\":{\"en\":{\"value\":\"old\"}}}"}}},
    {"revid":99,"parentid":98,"slots":{"main":{"*":"{\"id\":\"Q42\"}"}}},
    {"revid":"100","slots":{"main":{"*":"{}"}}}
]}}}}"#;

#[test]
fn extract_revisions_takes_the_two_asked_for() {
    let revisions = RevisionCompare::extract_revisions(100, 101, &doc(RESPONSE));
    assert_eq!(revisions.len(), 2);
    assert_eq!(revisions[0].0, 101);
    assert_eq!(revisions[1].0, 100);
    assert_eq!(revisions[0].1.text_field("id"), Some("Q42"));
    assert_eq!(revisions[1].1.text_field("id"), Some("Q42"));
}

#[test]
fn extract_revisions_skips_what_cannot_be_read() {
    let response = doc(
        r#"{"query":{"pages":{"1":{"revisions":[
            {"revid":7,"slots":{"main":{"*":"not json"}}},
            {"revid":8,"slots":{"main":{}}},
            {"revid":8,"slots":{"main":{"*":"[1]"}}}
        ]},"2":{"revisions":"none"},"3":7}}}"#,
    );
    let revisions = RevisionCompare::extract_revisions(7, 8, &response);
    assert_eq!(revisions, vec![(8, doc("[1]"))]);
    assert_eq!(RevisionCompare::extract_revisions(7, 8, &doc(r#"{"pages":{}}"#)), vec![]);
}

#[test]
fn revision_slot_takes_the_content_of_a_revision_asked_for() {
    let revision = doc(r#"{"revid":7,"slots":{"main":{"*":"{\"a\":1}"}}}"#);
    assert_eq!(RevisionCompare::revision_slot(7, 8, &revision), Some((7, "{\"a\":1}")));
    assert_eq!(RevisionCompare::revision_slot(6, 7, &revision), Some((7, "{\"a\":1}")));
    assert_eq!(RevisionCompare::revision_slot(8, 9, &revision), None);
    let no_content = doc(r#"{"revid":7,"slots":{"main":{"*":5}}}"#);
    assert_eq!(RevisionCompare::revision_slot(7, 8, &no_content), None);
    let no_number = doc(r#"{"revid":"7","slots":{"main":{"*":"{}"}}}"#);
    assert_eq!(RevisionCompare::revision_slot(7, 8, &no_number), None);
    assert_eq!(RevisionCompare::revision_slot(7, 8, &doc("[]")), None);
}

#[test]
fn run_compares_the_two_revisions() {
    let mut rc = RevisionCompare::new();
    let changes = rc.run("Q42", 100, 101, "20240101000100", RESPONSE);
    assert_eq!(
        changes,
        Ok(vec![Change {
            subject: ChangeSubject::Labels,
            change_type: ChangeType::Changed,
            language: "en".to_string(),
            text: "new".to_string(),
            item_id: 42,
            revision_id: 101,
            timestamp: "20240101000100".to_string(),
            ..Default::default()
        }])
    );
}

#[test]
fn run_fails_without_both_revisions() {
    let mut rc = RevisionCompare::new();
    assert_eq!(rc.run("Q42", 98, 101, "20240101000100", RESPONSE), Err(SyncError::RevisionFetch));
    assert_eq!(rc.run("Q42", 100, 102, "20240101000100", RESPONSE), Err(SyncError::RevisionFetch));
    assert_eq!(rc.run("Q42", 100, 101, "20240101000100", "<html>"), Err(SyncError::RevisionFetch));
    assert_eq!(rc.run("Q42", 100, 101, "20240101000100", "{}"), Err(SyncError::RevisionFetch));
}

#[test]
fn run_rejects_a_bad_identifier_first() {
    let mut rc = RevisionCompare::new();
    assert_eq!(
        rc.run("Q0", 100, 101, "20240101000100", RESPONSE),
        Err(SyncError::InvalidIdentifier)
    );
    assert_eq!(
        rc.run("item", 100, 101, "20240101000100", "<html>"),
        Err(SyncError::InvalidIdentifier)
    );
}

#[test]
fn run_of_one_revision_against_itself_is_empty() {
    let mut rc = RevisionCompare::new();
    assert_eq!(rc.run("Q42", 100, 100, "20240101000100", RESPONSE), Ok(vec![]));
}

#[test]
fn compare_response_takes_a_parsed_response() {
    let mut rc = RevisionCompare::new();
    let changes = rc.compare_response("Q7", 100, 101, "t", &doc(RESPONSE)).unwrap();
    assert_eq!(changes.len(), 1);
    assert_eq!(changes[0].item_id, 7);
    assert_eq!(changes[0].revision_id, 101);
    assert_eq!(changes[0].timestamp, "t");
}
