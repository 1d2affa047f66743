use wdrc::json::{find_member, json_array, json_object, Json};

fn text(s: &str) -> Json {
    Json::Text(s.to_string())
}

#[test]
fn parse_builds_the_tree() {
    let tree = Json::parse(r#"{"b": [1, -2, 2.5, "x", true, null], "a": {"k": "v"}}"#).unwrap();
    // Members come in the order of their keys.
    let expected = Json::Object(vec![
        ("a".to_string(), Json::Object(vec![("k".to_string(), text("v"))])),
        (
            "b".to_string(),
            Json::Array(vec![
                Json::Number("1".to_string()),
                Json::Number("-2".to_string()),
                Json::Number("2.5".to_string()),
                text("x"),
                Json::Bool(true),
                Json::Null,
            ]),
        ),
    ]);
    assert_eq!(tree, expected);
    assert!(tree.deep_eq(&expected));
}

#[test]
fn parse_rejects_what_is_no_json() {
    assert_eq!(Json::parse(""), None);
    assert_eq!(Json::parse("{"), None);
    assert_eq!(Json::parse(r#"{"a": 1,}"#), None);
    assert_eq!(Json::parse("nul"), None);
    assert_eq!(Json::parse("1 2"), None);
}

#[test]
fn parse_keeps_the_last_of_a_repeated_key() {
    let tree = Json::parse(r#"{"a": 1, "a": 2}"#).unwrap();
    assert_eq!(tree, Json::Object(vec![("a".to_string(), Json::Number("2".to_string()))]));
}

#[test]
fn numbers_are_kept_as_written_by_value() {
    assert_eq!(Json::parse("10").unwrap().as_u64(), Some(10));
    assert_eq!(Json::parse("18446744073709551615").unwrap().as_u64(), Some(u64::MAX));
    assert_eq!(Json::parse("0").unwrap().as_u64(), Some(0));
    assert_eq!(Json::parse("-1").unwrap().as_u64(), None);
    assert_eq!(Json::parse("1.0").unwrap().as_u64(), None);
    assert_eq!(Json::parse("1e3").unwrap().as_u64(), None);
    assert_eq!(Json::parse("18446744073709551616").unwrap().as_u64(), None);
    assert_eq!(Json::parse("\"10\"").unwrap().as_u64(), None);
    assert!(Json::parse("1.50").unwrap().deep_eq(&Json::parse("1.5").unwrap()));
    assert!(!Json::parse("1").unwrap().deep_eq(&Json::parse("1.0").unwrap()));
    assert!(Json::parse("-0.0").unwrap().deep_eq(&Json::parse("0.0").unwrap()));
    assert!(Json::parse("-0").unwrap().deep_eq(&Json::parse("0.0").unwrap()));
    assert!(!Json::parse("0").unwrap().deep_eq(&Json::parse("0.0").unwrap()));
    assert!(!Json::parse("-0.5").unwrap().deep_eq(&Json::parse("0.5").unwrap()));
}

#[test]
fn accessors_read_by_kind() {
    let tree = Json::parse(r#"{"s": "text", "t": true, "n": 3, "o": {"x": "y"}, "l": [1]}"#).unwrap();
    assert_eq!(tree.get("s"), Some(&text("text")));
    assert_eq!(tree.get("missing"), None);
    assert_eq!(tree.text_field("s"), Some("text"));
    assert_eq!(tree.text_field("n"), None);
    assert_eq!(tree.get("t").unwrap().as_bool(), Some(true));
    assert_eq!(tree.get("s").unwrap().as_bool(), None);
    assert_eq!(tree.get("s").unwrap().as_str(), Some("text"));
    assert_eq!(tree.get("t").unwrap().as_str(), None);
    assert_eq!(text("x").get("s"), None);
    assert_eq!(json_object(&tree, "o"), &[("x".to_string(), text("y"))]);
    assert!(json_object(&tree, "l").is_empty());
    assert!(json_object(&tree, "missing").is_empty());
    assert_eq!(json_array(&tree, "l"), &[Json::Number("1".to_string())]);
    assert!(json_array(&tree, "o").is_empty());
    assert!(json_array(&tree, "missing").is_empty());
}

#[test]
fn find_member_takes_the_first_of_a_key() {
    let members = vec![
        ("a".to_string(), text("1")),
        ("b".to_string(), text("2")),
        ("a".to_string(), text("3")),
    ];
    assert_eq!(find_member(&members, "a"), Some(&text("1")));
    assert_eq!(find_member(&members, "b"), Some(&text("2")));
    assert_eq!(find_member(&members, "c"), None);
}

#[test]
fn deep_equality_reaches_every_level() {
    let a = Json::parse(r#"{"a": [{"b": [1, {"c": "d"}]}], "e": null}"#).unwrap();
    let same = Json::parse(r#"{"e": null, "a": [{"b": [1, {"c": "d"}]}]}"#).unwrap();
    let other = Json::parse(r#"{"a": [{"b": [1, {"c": "D"}]}], "e": null}"#).unwrap();
    let shorter = Json::parse(r#"{"a": [{"b": [1]}], "e": null}"#).unwrap();
    let key = Json::parse(r#"{"a": [{"B": [1, {"c": "d"}]}], "e": null}"#).unwrap();
    assert!(a.deep_eq(&a));
    assert!(a.deep_eq(&same));
    assert!(!a.deep_eq(&other));
    assert!(!a.deep_eq(&shorter));
    assert!(!a.deep_eq(&key));
    assert!(!Json::Null.deep_eq(&Json::Bool(false)));
    assert!(!text("1").deep_eq(&Json::Number("1".to_string())));
    assert!(Json::Bool(true).deep_eq(&Json::Bool(true)));
    assert!(!Json::Array(vec![]).deep_eq(&Json::Object(vec![])));
}
