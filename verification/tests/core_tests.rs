use hitman::cli::{parse_key_val, KeyValueError};
use hitman::json::{is_supported_jsonpath, json_to_toml, make_selector};
use hitman::path::{to_ascii_lowercase, FilePath};
use hitman::resolve::{
    find_root_dir, is_graphql, resolve_graphql_http_file, resolve_path, ResolveError, Resolved,
    ResolvedAs,
};
use hitman::text::{
    ends_with, find_char, find_str, integer_to_string, split_lines, starts_with,
    string_from_chars, trim,
};
use hitman::value::{compare_keys, duplicate_values, KeyOrder, TomlTable, TomlValue};

fn path(parts: &[&str]) -> FilePath {
    FilePath {
        absolute: true,
        parts: parts.iter().map(|s| s.to_string()).collect(),
    }
}

#[test]
fn parses_key_value_pairs() {
    assert_eq!(
        parse_key_val(" user = admin ").ok(),
        Some(("user".to_string(), "admin".to_string()))
    );
    assert_eq!(
        parse_key_val("a=b=c").ok(),
        Some(("a".to_string(), "b=c".to_string()))
    );
    match parse_key_val("=x") {
        Err(e @ KeyValueError::EmptyKey(_)) => assert_eq!(e.message(), "empty key in `=x`"),
        _ => panic!("expected an empty key"),
    }
    match parse_key_val("novalue") {
        Err(e @ KeyValueError::NoSeparator(_)) => {
            assert_eq!(e.message(), "no `=` found in `novalue`")
        }
        _ => panic!("expected no separator"),
    }
}

#[test]
fn text_helpers() {
    assert_eq!(trim("  \t a b \n"), "a b");
    assert_eq!(find_char("ab=c", '='), Some(2));
    assert_eq!(find_char("abc", '='), None);
    assert_eq!(find_str("xxdata:yy", "data:"), Some(2));
    assert_eq!(find_str("√√ab", "ab"), Some(2));
    assert_eq!(find_str("ab", "abc"), None);
    assert!(starts_with("hello", "he"));
    assert!(!starts_with("he", "hello"));
    assert!(ends_with("file.http", ".http"));
    assert_eq!(integer_to_string(0), "0");
    assert_eq!(integer_to_string(-42), "-42");
    assert_eq!(integer_to_string(i64::MIN), "-9223372036854775808");
    assert_eq!(string_from_chars(&vec!['a', '√']), "a√");
}

#[test]
fn lines_split_like_str_lines() {
    for text in ["", "a", "a\n", "a\r\nb", "a\n\nb\r", "\n", "x\r\n\r\n"] {
        let expected: Vec<String> = text.lines().map(String::from).collect();
        assert_eq!(split_lines(text), expected, "text {:?}", text);
    }
}

#[test]
fn keys_are_ordered() {
    assert!(matches!(compare_keys("a", "b"), KeyOrder::Less));
    assert!(matches!(compare_keys("b", "a"), KeyOrder::Greater));
    assert!(matches!(compare_keys("ab", "ab"), KeyOrder::Equal));
    assert!(matches!(compare_keys("a", "ab"), KeyOrder::Less));
}

#[test]
fn tables_keep_keys_in_order() {
    let mut t = TomlTable::new();
    assert_eq!(t.insert("b".into(), TomlValue::Integer(1)), None);
    assert_eq!(t.insert("a".into(), TomlValue::Integer(2)), None);
    assert_eq!(
        t.insert("b".into(), TomlValue::Integer(3)),
        Some(TomlValue::Integer(1))
    );
    let keys: Vec<&str> = t.entries().iter().map(|(k, _)| k.as_str()).collect();
    assert_eq!(keys, vec!["a", "b"]);
    assert_eq!(t.len(), 2);
    assert_eq!(t.remove("a"), Some(TomlValue::Integer(2)));
    assert_eq!(t.remove("a"), None);
    assert_eq!(t.get("b"), Some(&TomlValue::Integer(3)));
    let copy = t.duplicate();
    assert_eq!(copy, t);
    let values = vec![TomlValue::Boolean(true)];
    assert_eq!(duplicate_values(&values), values);
}

#[test]
fn extend_overlays_entries() {
    let mut base = TomlTable::new();
    base.insert("a".into(), TomlValue::Integer(1));
    base.insert("b".into(), TomlValue::Integer(1));
    let mut top = TomlTable::new();
    top.insert("b".into(), TomlValue::Integer(2));
    top.insert("c".into(), TomlValue::Integer(2));
    base.extend(top);
    assert_eq!(base.get("a"), Some(&TomlValue::Integer(1)));
    assert_eq!(base.get("b"), Some(&TomlValue::Integer(2)));
    assert_eq!(base.get("c"), Some(&TomlValue::Integer(2)));
}

#[test]
fn json_converts_to_toml() {
    let v: serde_json::Value =
        serde_json::from_str(r#"{"b": [1, 2.5, "x", true], "a": {"c": -3}}"#).unwrap();
    let t = json_to_toml(&v).unwrap();
    let mut inner = TomlTable::new();
    inner.insert("c".into(), TomlValue::Integer(-3));
    let mut expected = TomlTable::new();
    expected.insert("a".into(), TomlValue::Table(inner));
    expected.insert(
        "b".into(),
        TomlValue::Array(vec![
            TomlValue::Integer(1),
            TomlValue::Float("2.5".into()),
            TomlValue::String("x".into()),
            TomlValue::Boolean(true),
        ]),
    );
    assert_eq!(t, TomlValue::Table(expected));
}

#[test]
fn json_without_toml_form() {
    let null: serde_json::Value = serde_json::from_str("[1, null]").unwrap();
    assert_eq!(json_to_toml(&null), Err("unsupported unit type".to_string()));
    let big: serde_json::Value = serde_json::from_str("18446744073709551615").unwrap();
    assert_eq!(json_to_toml(&big), Err("u64 value was too large".to_string()));
}

#[test]
fn selectors_compile() {
    assert!(make_selector("$.a.b").is_ok());
    assert!(make_selector("a.b[").is_err());
}

#[test]
fn paths_behave_like_std() {
    let p = path(&["home", "req", "login.HTTP"]);
    assert_eq!(p.file_name(), Some(&"login.HTTP".to_string()));
    assert_eq!(p.extension(), Some("HTTP".to_string()));
    assert_eq!(p.file_stem(), Some("login".to_string()));
    assert_eq!(p.with_extension("toml"), path(&["home", "req", "login.toml"]));
    assert_eq!(p.parent(), Some(path(&["home", "req"])));
    assert_eq!(path(&[]).parent(), None);
    assert_eq!(to_ascii_lowercase("AbÇ"), "abÇ");
    let dot = path(&["a", ".hidden"]);
    assert_eq!(dot.extension(), None);
    assert_eq!(dot.file_stem(), Some(".hidden".to_string()));
}

#[test]
fn graphql_files_are_recognised() {
    assert!(is_graphql(&path(&["q.gql"])));
    assert!(is_graphql(&path(&["q.GraphQL"])));
    assert!(!is_graphql(&path(&["q.http"])));
}

#[test]
fn root_dir_is_the_nearest_with_config() {
    let exists = |p: &FilePath| *p == path(&["p", "hitman.toml"]);
    assert_eq!(
        find_root_dir(&path(&["p", "a", "b"]), &exists),
        Some(path(&["p"]))
    );
    let none = |_: &FilePath| false;
    assert_eq!(find_root_dir(&path(&["p", "a"]), &none), None);
}

#[test]
fn graphql_template_is_the_nearest() {
    let exists = |p: &FilePath| *p == path(&["p", "_graphql.http"]);
    assert_eq!(
        resolve_graphql_http_file(&path(&["p", "a", "q.gql"]), &exists).ok(),
        Some(path(&["p", "_graphql.http"]))
    );
    assert!(matches!(
        resolve_graphql_http_file(&path(&["q.gql"]), &|_: &FilePath| false),
        Err(ResolveError::GraphqlWrapperNotFound)
    ));
    assert!(matches!(
        resolve_graphql_http_file(&path(&[]), &|_: &FilePath| false),
        Err(ResolveError::NoParent)
    ));
    assert_eq!(
        ResolveError::GraphqlWrapperNotFound.message(),
        "Couldn't find _graphql.http"
    );
}

#[test]
fn resolves_requests() {
    let exists =
        |p: &FilePath| *p == path(&["p", "hitman.toml"]) || *p == path(&["p", "_graphql.http"]);
    let cwd = path(&["elsewhere"]);
    let r: Resolved = resolve_path(&path(&["p", "a", "q.gql"]), &cwd, &exists).ok().unwrap();
    assert_eq!(r.root_dir, path(&["p"]));
    assert_eq!(r.http_file(), &path(&["p", "_graphql.http"]));
    assert_eq!(r.original_path(), &path(&["p", "a", "q.gql"]));
    assert_eq!(r.toml_path(), path(&["p", "a", "q.gql.toml"]));
    match r.resolved_as {
        ResolvedAs::GraphQL { .. } => {}
        _ => panic!("expected a GraphQL request"),
    }
    let s = resolve_path(&path(&["x", "r.http"]), &cwd, &exists).ok().unwrap();
    assert_eq!(s.root_dir, cwd);
    assert_eq!(s.toml_path(), path(&["x", "r.http.toml"]));
}

#[test]
fn only_paths_that_would_panic_are_turned_away() {
    assert!(is_supported_jsonpath("$.a12345678901234567890"));
    assert!(is_supported_jsonpath("$.a[?(@.x > 9223372036854775807)]"));
    assert!(!is_supported_jsonpath("$.a[?(@.x > 9223372036854775808)]"));
    assert!(!is_supported_jsonpath("$.a[?(@.x ==  99999999999999999999)]"));
    assert!(is_supported_jsonpath("$.a[?(@.x > 99999999999999999999.5)]"));
    assert!(is_supported_jsonpath("$.a[99999999999999999999]"));
    assert!(!is_supported_jsonpath("$.items[?($.x > 3)]"));
    assert!(!is_supported_jsonpath("$.items[?($.x <3.5)]"));
    assert!(is_supported_jsonpath("$.items[?($.x < 'a')]"));
    assert!(is_supported_jsonpath("$.items[?(@.x > 3)][?($.y == 'a')]"));
    assert!(is_supported_jsonpath("$.items[?(@.a[?($.b == 'c')] > 3)]"));
    assert!(!is_supported_jsonpath("$.items[?($.a[?(@.b == 'c')] > 3)]"));
}
