use hitman::prompt::{
    fuzzy_match, is_date_key, is_interactive_mode, list_option_to_string,
    select_replacement_multiple, set_interactive_mode, values_to_list_options,
    CliUserInteraction, InteractionError, NoUserInteraction, Shown, SubstituteValue, Suggestion,
};
use hitman::scope::Scope;
use hitman::value::{TomlTable, TomlValue};

fn s(v: &str) -> TomlValue {
    TomlValue::String(v.to_string())
}

fn pair(value: TomlValue, name: TomlValue) -> TomlValue {
    let mut t = TomlTable::new();
    t.insert("value".to_string(), value);
    t.insert("name".to_string(), name);
    TomlValue::Table(t)
}

fn scope() -> Scope {
    let mut t = TomlTable::new();
    t.insert("url".to_string(), s("example.com"));
    t.insert("list".to_string(), TomlValue::Array(vec![s("1"), s("2")]));
    t.insert("when".to_string(), TomlValue::Datetime("1979-05-27".to_string()));
    Scope::new(t)
}

#[test]
fn returns_true_for_identical() {
    assert!(fuzzy_match("a", "a").is_some());
}

#[test]
fn returns_false_for_different() {
    assert!(fuzzy_match("a", "b").is_none());
}

#[test]
fn returns_false_for_different_length() {
    assert!(fuzzy_match("ab", "a").is_none());
}

#[test]
fn returns_true_for_different_case() {
    assert!(fuzzy_match("a", "A").is_some());
}

#[test]
fn returns_true_if_filter_is_empty() {
    assert!(fuzzy_match("", "a").is_some());
}

#[test]
fn returns_false_if_value_is_empty() {
    assert!(fuzzy_match("a", "").is_none());
}

#[test]
fn returns_true_value_contains_filter() {
    assert!(fuzzy_match("a", "ab").is_some());
}

#[test]
fn returns_true_if_value_contains_all_letters_in_filter_in_the_same_order() {
    assert!(fuzzy_match("abc", "uaaxbycz").is_some());
}

#[test]
fn empty_filter_scores_zero() {
    assert_eq!(fuzzy_match("", "anything"), Some(0));
}

#[test]
fn interactive_mode_is_kept_in_the_environment() {
    let on = set_interactive_mode(true);
    assert_eq!(on.name, "interactive");
    assert_eq!(on.value, "y");
    let off = set_interactive_mode(false);
    assert_eq!(off.value, "n");
    assert!(is_interactive_mode(Some("y")));
    assert!(!is_interactive_mode(Some("n")));
    assert!(!is_interactive_mode(Some("yes")));
    assert!(!is_interactive_mode(None));
}

#[test]
fn no_interaction_looks_values_up_in_the_scope() {
    let i = NoUserInteraction::new(scope());
    assert_eq!(
        i.lookup_value("url"),
        Some(SubstituteValue::Single("example.com".into()))
    );
    assert_eq!(
        i.lookup_value("list"),
        Some(SubstituteValue::Multiple(vec![s("1"), s("2")]))
    );
    assert_eq!(i.lookup_value("when"), None);
    assert_eq!(i.lookup_value("missing"), None);
}

#[test]
fn no_interaction_uses_the_fallback() {
    let i = NoUserInteraction::new(scope());
    assert_eq!(i.prompt("user_id", Some("1000")), Ok("1000".to_string()));
    assert_eq!(
        i.prompt("user_id", None),
        Err(InteractionError::ReplacementNotFound {
            key: "user_id".into()
        })
    );
}

#[test]
fn no_interaction_refuses_to_choose_and_suggests() {
    let i = NoUserInteraction::new(scope());
    let values = vec![
        pair(TomlValue::Integer(1), s("one")),
        s("plain"),
        pair(TomlValue::Integer(2), s("two")),
    ];
    let expected = InteractionError::ReplacementNotSelected {
        key: "id".into(),
        suggestions: vec![
            Suggestion {
                value: TomlValue::Integer(1),
                name: s("one"),
            },
            Suggestion {
                value: TomlValue::Integer(2),
                name: s("two"),
            },
        ],
    };
    assert_eq!(i.select_single("id", &values), Err(expected));
    match i.select_multiple("id", &values) {
        Err(InteractionError::ReplacementNotSelected { suggestions, .. }) => {
            assert_eq!(suggestions.len(), 2)
        }
        other => panic!("unexpected {:?}", other),
    }
}

#[test]
fn suggestions_come_from_the_first_ten_values() {
    let i = NoUserInteraction::new(scope());
    let values: Vec<TomlValue> = (0..12)
        .map(|n| pair(TomlValue::Integer(n), s(&format!("n{n}"))))
        .collect();
    assert_eq!(i.get_suggestions(&values).len(), 10);
}

#[test]
fn cli_interaction_remembers_entered_values() {
    let mut i = CliUserInteraction::new(scope());
    assert_eq!(
        i.lookup_value("url"),
        Some(SubstituteValue::Single("example.com".into()))
    );
    assert_eq!(i.lookup_value("token"), None);
    i.remember("token", "secret".to_string());
    i.remember("url", "other.com".to_string());
    assert_eq!(
        i.lookup_value("token"),
        Some(SubstituteValue::Single("secret".into()))
    );
    assert_eq!(
        i.lookup_value("url"),
        Some(SubstituteValue::Single("other.com".into()))
    );
}

#[test]
fn date_keys_are_recognised() {
    assert!(is_date_key("start_date"));
    assert!(is_date_key("startDate"));
    assert!(!is_date_key("date_of"));
}

#[test]
fn list_shows_names_and_inserts_values() {
    let values = vec![
        pair(s("42"), s("The answer")),
        pair(TomlValue::Integer(7), TomlValue::Integer(8)),
        s("plain"),
    ];
    let labels = values_to_list_options(&values);
    assert_eq!(
        labels,
        vec![
            Shown::Text("The answer".into()),
            Shown::Toml(TomlValue::Integer(8)),
            Shown::Text("plain".into()),
        ]
    );
    assert_eq!(
        list_option_to_string("id", &values, 0),
        Ok(Shown::Text("42".into()))
    );
    assert_eq!(
        list_option_to_string("id", &values, 1),
        Ok(Shown::Toml(TomlValue::Integer(7)))
    );
    assert_eq!(
        list_option_to_string("id", &values, 2),
        Ok(Shown::Text("plain".into()))
    );
}

#[test]
fn a_table_without_value_cannot_be_inserted() {
    let mut t = TomlTable::new();
    t.insert("name".to_string(), s("nameless"));
    let values = vec![TomlValue::Table(t), s("x")];
    assert_eq!(
        list_option_to_string("id", &values, 0),
        Err(InteractionError::ReplacementNotFound { key: "id".into() })
    );
    assert_eq!(
        select_replacement_multiple("id", &values, &vec![1, 0]),
        Err(InteractionError::ReplacementNotFound { key: "id".into() })
    );
    assert_eq!(
        select_replacement_multiple("id", &values, &vec![1, 1]),
        Ok(vec![Shown::Text("x".into()), Shown::Text("x".into())])
    );
}
