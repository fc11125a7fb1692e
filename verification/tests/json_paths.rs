use pd_guard::service::json_paths::{extract, parse_path, replace, replace_with, PathSegment};
use pd_guard::service::json_value::Json;

fn s(x: &str) -> Json {
    Json::Str(x.to_string())
}

fn obj(members: Vec<(&str, Json)>) -> Json {
    Json::Object(members.into_iter().map(|(k, v)| (k.to_string(), v)).collect())
}

fn messages(texts: &[&str]) -> Json {
    obj(vec![(
        "messages",
        Json::Array(texts.iter().map(|t| obj(vec![("content", s(t))])).collect()),
    )])
}

#[test]
fn parse_and_extract() {
    let v = messages(&["hello", "world"]);
    let path = parse_path("$.messages[*].content").unwrap();
    let strs = extract(&v, &path);
    assert_eq!(strs, vec!["hello", "world"]);
}

#[test]
fn parse_bracket_key() {
    let v = obj(vec![("a.b", s("x"))]);
    let path = parse_path("$[\"a.b\"]").unwrap();
    assert_eq!(extract(&v, &path), vec!["x"]);
}

#[test]
fn replace_works() {
    let mut v = messages(&["hello"]);
    let path = parse_path("$.messages[*].content").unwrap();
    replace(&mut v, &path, &|s: &str| s.to_uppercase());
    match &v {
        Json::Object(m) => match &m[0].1 {
            Json::Array(items) => match &items[0] {
                Json::Object(c) => match &c[0].1 {
                    Json::Str(t) => assert_eq!(t, "HELLO"),
                    other => panic!("not a string: {:?}", other),
                },
                other => panic!("not an object: {:?}", other),
            },
            other => panic!("not an array: {:?}", other),
        },
        other => panic!("not an object: {:?}", other),
    }
}

#[test]
fn parse_path_forms() {
    let p = parse_path("  $.a[2][*][\"b c\"] ").unwrap();
    assert_eq!(p.len(), 4);
    assert!(matches!(&p[0], PathSegment::Key(k) if k == "a"));
    assert!(matches!(&p[1], PathSegment::Index(2)));
    assert!(matches!(&p[2], PathSegment::All));
    assert!(matches!(&p[3], PathSegment::Key(k) if k == "b c"));
    assert!(parse_path("a.b").is_none());
    assert!(parse_path("$[\"open").is_none());
    assert!(parse_path("$[99999999999999999999999]").is_none());
    assert_eq!(parse_path("$").unwrap().len(), 0);
}

#[test]
fn extract_skips_non_strings_and_missing() {
    let v = obj(vec![(
        "a",
        Json::Array(vec![s("x"), Json::Number("1".to_string()), Json::Null, s("y")]),
    )]);
    assert_eq!(extract(&v, &parse_path("$.a[*]").unwrap()), vec!["x", "y"]);
    assert_eq!(extract(&v, &parse_path("$.a[3]").unwrap()), vec!["y"]);
    assert!(extract(&v, &parse_path("$.a[9]").unwrap()).is_empty());
    assert!(extract(&v, &parse_path("$.b").unwrap()).is_empty());
    assert!(extract(&v, &parse_path("$.a").unwrap()).is_empty());
}

#[test]
fn replace_with_then_extract_gives_new_strings() {
    let mut v = messages(&["one", "two", "three"]);
    let path = parse_path("$.messages[*].content").unwrap();
    let news = vec!["1".to_string(), "2".to_string(), "3".to_string()];
    assert!(replace_with(&mut v, &path, &news));
    assert_eq!(extract(&v, &path), news);
}

#[test]
fn replace_with_wrong_count_leaves_value() {
    let mut v = messages(&["one", "two"]);
    let path = parse_path("$.messages[*].content").unwrap();
    assert!(!replace_with(&mut v, &path, &vec!["x".to_string()]));
    assert_eq!(extract(&v, &path), vec!["one", "two"]);
}
