use hitman::env::{
    cookie_header, cookie_table, find_environments, get_target, is_request_file_name, load_env,
    merge, merge_config_files, relative_request_path, update_data, watch_list,
};
use hitman::extract::{extract_variables, ExtractError};
use hitman::path::FilePath;
use hitman::replacer::{Env, SubstituteError};
use hitman::resolve::{Resolved, ResolvedAs};
use hitman::scope::{Replacement, Scope, ScopeError};
use hitman::value::{TomlTable, TomlValue};

fn to_value(v: toml::Value) -> TomlValue {
    match v {
        toml::Value::String(s) => TomlValue::String(s),
        toml::Value::Integer(i) => TomlValue::Integer(i),
        toml::Value::Float(f) => TomlValue::Float(f.to_string()),
        toml::Value::Boolean(b) => TomlValue::Boolean(b),
        toml::Value::Datetime(d) => TomlValue::Datetime(d.to_string()),
        toml::Value::Array(a) => TomlValue::Array(a.into_iter().map(to_value).collect()),
        toml::Value::Table(t) => TomlValue::Table(to_table(t)),
    }
}

fn to_table(t: toml::Table) -> TomlTable {
    let mut out = TomlTable::new();
    for (k, v) in t {
        out.insert(k, to_value(v));
    }
    out
}

fn table(text: &str) -> TomlTable {
    to_table(toml::from_str::<toml::Table>(text).unwrap())
}

fn path(parts: &[&str]) -> FilePath {
    FilePath {
        absolute: true,
        parts: parts.iter().map(|s| s.to_string()).collect(),
    }
}

#[test]
fn test_find_environments() {
    let config = table(
        r#"
            global = "foo"

            [foo]
            value = "koko"

            [bar]

            [_default]
            fallback = "self"
        "#,
    );

    let envs = find_environments(&config);

    assert_eq!(envs, vec!["bar", "foo"]);
}

#[test]
fn merges_mested_tables() {
    let shared = table(
        r#"
            global0 = "shared_global0"
            global1 = "shared_global1"

            [thing]
            thing0 = "shared_thing0"
            thing1 = "shared_thing1"
        "#,
    );

    let private = table(
        r#"
            global0 = "private_global0"
            global2 = "private_global2"

            [thing]
            thing0 = "private_thing0"
            thing2 = "private_thing2"
        "#,
    );

    let mut merged = TomlTable::new();
    merge(&mut merged, shared);
    merge(&mut merged, private);

    let expected = table(
        r#"
            global0 = "private_global0"
            global1 = "shared_global1"
            global2 = "private_global2"

            [thing]
            thing0 = "private_thing0"
            thing1 = "shared_thing1"
            thing2 = "private_thing2"
        "#,
    );

    assert_eq!(merged, expected);
}

fn create_scope() -> Scope {
    table(
        r#"
            url = "example.com"
            token = "abc123"
            integer = 42
            float = 99.99
            boolean = true
            api_url1 = "foo.com"

            nested = "the answer is {{integer}}"
            multiple = ["a", "b", "c"]
            "#,
    )
    .into()
}

#[test]
fn scope_finds_variable() {
    let rep = create_scope();
    let res = rep.lookup("url").unwrap();

    assert_eq!(res, Replacement::Value("example.com".into()));
}

#[test]
fn scope_finds_integer() {
    let rep = create_scope();
    let res = rep.lookup("integer").unwrap();

    assert_eq!(res, Replacement::Value("42".into()));
}

#[test]
fn scope_finds_float() {
    let rep = create_scope();
    let res = rep.lookup("float").unwrap();

    assert_eq!(res, Replacement::Value("99.99".into()));
}

#[test]
fn scope_finds_boolean() {
    let rep = create_scope();
    let res = rep.lookup("boolean").unwrap();

    assert_eq!(res, Replacement::Value("true".into()));
}

#[test]
fn fails_for_multiple() {
    let rep = create_scope();
    let res = rep.lookup("multiple").unwrap();

    assert_eq!(
        res,
        Replacement::MultipleValuesFound {
            key: "multiple".into(),
            values: vec![
                TomlValue::String("a".into()),
                TomlValue::String("b".into()),
                TomlValue::String("c".into())
            ]
        }
    );
}

#[test]
fn scope_fails_for_missing() {
    let rep = create_scope();
    let res = rep.lookup("missing").unwrap();

    assert_eq!(
        res,
        Replacement::ValueNotFound {
            key: "missing".into()
        }
    );
}

#[test]
fn scope_refuses_a_table() {
    let rep: Scope = table("[section]\nx = 1\n").into();
    assert_eq!(rep.lookup("section"), Err(ScopeError::TypeNotSupported));
    assert_eq!(ScopeError::TypeNotSupported.message(), "Type not supported");
}

#[test]
fn scope_gives_negative_integer_text() {
    let rep: Scope = table("n = -1234\n").into();
    assert_eq!(rep.lookup("n"), Ok(Replacement::Value("-1234".into())));
}

fn create_env() -> TomlTable {
    table(
        r#"
            url = "example.com"
            token = "abc123"
            integer = 42
            float = 99.99
            boolean = true
            api_url1 = "foo.com"

            nested = "the answer is {{integer}}"
            "#,
    )
}

#[test]
fn replacer_finds_variable() {
    let rep = Env::new(create_env());
    let res = rep.find_replacement("url", None).unwrap();

    assert_eq!(&res, "example.com");
}

#[test]
fn replacer_finds_integer() {
    let rep = Env::new(create_env());
    let res = rep.find_replacement("integer", None).unwrap();

    assert_eq!(&res, "42");
}

#[test]
fn replacer_finds_float() {
    let rep = Env::new(create_env());
    let res = rep.find_replacement("float", None).unwrap();

    assert_eq!(&res, "99.99");
}

#[test]
fn replacer_finds_boolean() {
    let rep = Env::new(create_env());
    let res = rep.find_replacement("boolean", None).unwrap();

    assert_eq!(&res, "true");
}

#[test]
fn returns_fallback_for_missing() {
    let rep = Env::new(create_env());
    let err = rep.find_replacement("missing", Some("foobar")).unwrap_err();

    assert!(matches!(err, SubstituteError::ValueNotFound {
        key,
        fallback: Some(fb)
    } if key == "missing" && fb == "foobar" ));
}

#[test]
fn replacer_fails_for_missing() {
    let rep = Env::new(create_env());
    let res = rep.find_replacement("missing", None);

    assert!(res.is_err());
}

#[test]
fn extracts_variables_from_json() {
    let env = table(
        r#"
        url = "example.com"

        [_extract]
        token = "$.Data.Token"
        "#,
    );

    let data: serde_json::Value = serde_json::from_str(
        r#"{ 
            "Data": { "Token": "kokobaba1234" } 
        }"#,
    )
    .unwrap();

    let res = extract_variables(&data, &env).unwrap();

    assert!(res.get("token").is_some());
    assert_eq!(
        &TomlValue::String(String::from("kokobaba1234")),
        res.get("token").unwrap()
    );
}

#[test]
fn extracts_multiple_values_into_array() {
    let env = table(
        r#"
        url = "example.com"

        [_extract]
        ToolId = { _ = "$.Tools", value = "$.ToolId", name = "$.Name" }
        "#,
    );

    let data: serde_json::Value = serde_json::from_str(
        r#"{ 
            "Tools": [
                { "Name": "First tool", "ToolId": 123 },
                { "Name": "Second tool", "ToolId": 345 }
            ]
        }"#,
    )
    .unwrap();
    let res = extract_variables(&data, &env).unwrap();

    let expected = table(
        r#"
            [[ToolId]]
            value = 123
            name = "First tool"
            _raw = "{\"Name\":\"First tool\",\"ToolId\":123}"

            [[ToolId]]
            value = 345
            name = "Second tool"
            _raw = "{\"Name\":\"Second tool\",\"ToolId\":345}"
        "#,
    );

    assert!(res.get("ToolId").is_some());
    assert_eq!(res.get("ToolId").unwrap(), expected.get("ToolId").unwrap(),);
}

#[test]
fn extraction_takes_numbers_and_booleans() {
    let env = table("[_extract]\nid = \"$.id\"\nok = \"$.ok\"\nmissing = \"$.nothing\"\n");
    let data: serde_json::Value = serde_json::from_str(r#"{ "id": 42, "ok": true }"#).unwrap();
    let res = extract_variables(&data, &env).unwrap();
    assert_eq!(res.get("id"), Some(&TomlValue::Integer(42)));
    assert_eq!(res.get("ok"), Some(&TomlValue::Boolean(true)));
    assert_eq!(res.get("missing"), None);
}

#[test]
fn extraction_skips_a_path_that_finds_a_structure() {
    let env = table("[_extract]\nobj = \"$.obj\"\nnothing = \"$.nil\"\n");
    let data: serde_json::Value =
        serde_json::from_str(r#"{ "obj": { "a": 1 }, "nil": null }"#).unwrap();
    let res = extract_variables(&data, &env).unwrap();
    assert!(res.is_empty());
}

#[test]
fn extraction_refuses_a_number_too_long_for_the_path_parser() {
    let env = table("[_extract]\nid = \"$.a[?(@.x > 99999999999999999999)]\"\n");
    let data: serde_json::Value = serde_json::from_str("{}").unwrap();
    let err = extract_variables(&data, &env).unwrap_err();
    assert!(matches!(err, ExtractError::InvalidJsonpath(ref m) if m.starts_with("unsupported path")));
}

#[test]
fn extraction_refuses_an_ordering_filter_on_the_root() {
    let env = table("[_extract]\nid = \"$.items[?($.x > 3)]\"\n");
    let data: serde_json::Value = serde_json::from_str(r#"{ "x": 5, "items": [1] }"#).unwrap();
    let err = extract_variables(&data, &env).unwrap_err();
    assert!(matches!(err, ExtractError::InvalidJsonpath(ref m) if m.starts_with("unsupported path")));
}

#[test]
fn extraction_keeps_an_equality_filter_on_the_root() {
    let env = table("[_extract]\nname = \"$.items[?($.kind == 'a')]\"\n");
    let data: serde_json::Value = serde_json::from_str(r#"{ "kind": "a", "items": ["x"] }"#).unwrap();
    assert!(extract_variables(&data, &env).is_ok());
}

#[test]
fn extraction_without_section_gives_nothing() {
    let env = table("url = \"example.com\"\n");
    let data: serde_json::Value = serde_json::from_str(r#"{ "id": "x" }"#).unwrap();
    assert!(extract_variables(&data, &env).unwrap().is_empty());
}

#[test]
fn extraction_refuses_a_section_that_is_not_a_table() {
    let env = table("_extract = 5\n");
    let data: serde_json::Value = serde_json::from_str("{}").unwrap();
    let err = extract_variables(&data, &env).unwrap_err();
    assert_eq!(err, ExtractError::InvalidSection);
    assert_eq!(err.message(), Some("Invalid _extract section".to_string()));
}

#[test]
fn extraction_refuses_a_rule_that_is_not_a_path_or_table() {
    let env = table("[_extract]\ncount = 5\n");
    let data: serde_json::Value = serde_json::from_str("{}").unwrap();
    let err = extract_variables(&data, &env).unwrap_err();
    assert_eq!(err, ExtractError::InvalidRule(TomlValue::Integer(5)));
    assert_eq!(err.message(), None);
}

#[test]
fn extraction_needs_the_list_path() {
    let env = table("[_extract]\nids = { name = \"$.name\" }\n");
    let data: serde_json::Value = serde_json::from_str("[]").unwrap();
    let err = extract_variables(&data, &env).unwrap_err();
    assert_eq!(err, ExtractError::RequiredKeyNotFound("_".into()));
    assert_eq!(
        err.message(),
        Some("Required key not found: _".to_string())
    );
}

#[test]
fn extraction_reports_a_bad_jsonpath() {
    let env = table("[_extract]\nid = \"not a path\"\n");
    let data: serde_json::Value = serde_json::from_str("{}").unwrap();
    let err = extract_variables(&data, &env).unwrap_err();
    match err {
        ExtractError::InvalidJsonpath(ref m) => {
            assert!(err.message().unwrap().starts_with("Invalid jsonpath: "));
            assert!(err.message().unwrap().ends_with(m.as_str()));
        }
        other => panic!("unexpected {:?}", other),
    }
}

#[test]
fn extraction_reports_a_null_in_a_list() {
    let env = table("[_extract]\nids = { _ = \"$.items\", value = \"$.id\" }\n");
    let data: serde_json::Value =
        serde_json::from_str(r#"{ "items": [ { "id": null } ] }"#).unwrap();
    let err = extract_variables(&data, &env).unwrap_err();
    assert_eq!(err, ExtractError::Convert("unsupported unit type".to_string()));
    assert_eq!(err.message(), Some("unsupported unit type".to_string()));
}

#[test]
fn extracted_values_reach_the_next_scope() {
    let env = table("[_extract]\ntoken = \"$.token\"\n");
    let data: serde_json::Value = serde_json::from_str(r#"{ "token": "t1" }"#).unwrap();
    let vars = extract_variables(&data, &env).unwrap();
    let stored = update_data(Some(table("token = \"old\"\nother = 1\n")), vars).unwrap();
    let config = table("base = \"b\"\n[default]\nurl = \"u\"\n");
    let scope = load_env("default", config, None, Some(stored), &Vec::new());
    assert_eq!(scope.lookup("token"), Ok(Replacement::Value("t1".into())));
    assert_eq!(scope.lookup("other"), Ok(Replacement::Value("1".into())));
    assert_eq!(scope.lookup("url"), Ok(Replacement::Value("u".into())));
    assert_eq!(scope.lookup("base"), Ok(Replacement::Value("b".into())));
}

#[test]
fn options_override_extracted_values() {
    let stored = table("token = \"stored\"\n");
    let config = table("[default]\ntoken = \"configured\"\n");
    let options = vec![("token".to_string(), "given".to_string())];
    let scope = load_env("default", config, None, Some(stored), &options);
    assert_eq!(scope.lookup("token"), Ok(Replacement::Value("given".into())));
}

#[test]
fn load_env_precedence() {
    let config = table(
        "a = \"global\"\nb = \"global\"\nc = \"global\"\nd = \"global\"\n[dev]\nb = \"target\"\nc = \"target\"\nd = \"target\"\n[prod]\nb = \"other\"\n",
    );
    let request = table("c = \"request\"\nd = \"request\"\n");
    let data = table("d = \"data\"\n");
    let scope = load_env("dev", config, Some(request), Some(data), &Vec::new());
    assert_eq!(scope.lookup("a"), Ok(Replacement::Value("global".into())));
    assert_eq!(scope.lookup("b"), Ok(Replacement::Value("target".into())));
    assert_eq!(scope.lookup("c"), Ok(Replacement::Value("request".into())));
    assert_eq!(scope.lookup("d"), Ok(Replacement::Value("data".into())));
    assert_eq!(
        scope.lookup("prod"),
        Ok(Replacement::ValueNotFound { key: "prod".into() })
    );
}

#[test]
fn update_data_writes_nothing_without_values() {
    assert!(update_data(Some(table("a = 1\n")), TomlTable::new()).is_none());
    let written = update_data(None, table("a = 2\n")).unwrap();
    assert_eq!(written, table("a = 2\n"));
}

#[test]
fn merge_config_files_prefers_local() {
    let merged = merge_config_files(
        Some(table("a = 1\nb = 1\n[t]\nx = 1\n")),
        Some(table("b = 2\n[t]\ny = 2\n")),
    );
    assert_eq!(merged, table("a = 1\nb = 2\n[t]\nx = 1\ny = 2\n"));
    assert_eq!(merge_config_files(None, None), TomlTable::new());
}

#[test]
fn get_target_trims_or_defaults() {
    assert_eq!(get_target(Some("  dev \n")), "dev");
    assert_eq!(get_target(None), "default");
}

#[test]
fn cookies_are_kept_and_sent_back() {
    let kept = cookie_table(vec![
        "session=abc; Path=/; HttpOnly".to_string(),
        "theme = dark".to_string(),
        "broken".to_string(),
    ]);
    assert_eq!(
        kept.get("Cookies"),
        Some(&TomlValue::Array(vec![
            TomlValue::String("session=abc; Path=/; HttpOnly".into()),
            TomlValue::String("theme = dark".into()),
            TomlValue::String("broken".into()),
        ]))
    );
    assert_eq!(cookie_header(&kept), Some("session=abc; theme=dark".to_string()));
    assert_eq!(cookie_header(&TomlTable::new()), None);
}

#[test]
fn request_files_are_recognised() {
    assert!(is_request_file_name("login.http"));
    assert!(is_request_file_name("Query.GQL"));
    assert!(is_request_file_name("a.graphql"));
    assert!(!is_request_file_name("_graphql.http"));
    assert!(!is_request_file_name("hitman.toml"));
}

#[test]
fn relative_request_path_keeps_the_last_components() {
    let p = path(&["home", "me", "project", "apple", "get.http"]);
    assert_eq!(
        relative_request_path(&p, 2),
        FilePath {
            absolute: false,
            parts: vec!["apple".to_string(), "get.http".to_string()]
        }
    );
}

#[test]
fn watch_list_names_the_request_files_and_configs() {
    let root = path(&["p"]);
    let resolved = Resolved {
        root_dir: path(&["p"]),
        resolved_as: ResolvedAs::Simple {
            path: path(&["p", "login.http"]),
        },
    };
    let list = watch_list(&root, &resolved);
    assert_eq!(
        list,
        vec![
            path(&["p", "login.http"]),
            path(&["p", "login.http"]),
            path(&["p", "login.http.toml"]),
            path(&["p", ".hitman-target"]),
            path(&["p", "hitman.toml"]),
            path(&["p", "hitman.local.toml"]),
        ]
    );
}
