use crate::json::{json_content, JsonView};
use crate::value::{entries_view, lemma_entries_view, lemma_values_view, str_lt, value_view, values_view, TomlTable, TomlValue, TomlView};
use vstd::prelude::*;

verus! {

#[verifier::external_type_specification]
#[verifier::external_body]
pub struct ExTomlValue(toml::Value);

/// What a `toml::Value` holds. A float is held as the text that Rust
/// prints for it and a datetime as the text of its TOML form; the keys of a
/// table come in ascending order (the crate's map is a `BTreeMap` here).
pub uninterp spec fn toml_content(v: toml::Value) -> TomlView;

/// The top level of a TOML value.
pub enum TomlShape {
    String(String),
    Integer(i64),
    Float(String),
    Boolean(bool),
    Datetime(String),
    Array(usize),
    Table(Vec<String>),
}

/// The top level of a TOML value: its kind, the scalar it holds (a float
/// and a datetime by their `Display` text), the length of an array or the
/// keys of a table (`toml::Value`'s variants, `Map::keys`, in ascending
/// order).
#[verifier::external_body]
fn toml_shape(v: &toml::Value) -> (res: TomlShape)
    ensures
        match toml_content(*v) {
            TomlView::String(t) => res matches TomlShape::String(s) && s@ == t,
            TomlView::Integer(i) => res == TomlShape::Integer(i),
            TomlView::Float(t) => res matches TomlShape::Float(s) && s@ == t,
            TomlView::Boolean(b) => res == TomlShape::Boolean(b),
            TomlView::Datetime(t) => res matches TomlShape::Datetime(s) && s@ == t,
            TomlView::Array(items) => res matches TomlShape::Array(n) && n == items.len(),
            TomlView::Table(entries) => res matches TomlShape::Table(keys) && keys@.map_values(
                |k: String| k@,
            ) == entries.map_values(|e: (Seq<char>, TomlView)| e.0) && forall|a: int, b: int|
                0 <= a < b < entries.len() ==> str_lt(#[trigger] entries[a].0, #[trigger] entries[b].0),
        },
{
    match v {
        toml::Value::String(s) => TomlShape::String(s.clone()),
        toml::Value::Integer(i) => TomlShape::Integer(*i),
        toml::Value::Float(f) => TomlShape::Float(f.to_string()),
        toml::Value::Boolean(b) => TomlShape::Boolean(*b),
        toml::Value::Datetime(d) => TomlShape::Datetime(d.to_string()),
        toml::Value::Array(a) => TomlShape::Array(a.len()),
        toml::Value::Table(t) => TomlShape::Table(t.keys().cloned().collect()),
    }
}

/// An element of a TOML array (`Value::get` with an index).
#[verifier::external_body]
fn toml_item(v: &toml::Value, i: usize) -> (res: Option<&toml::Value>)
    ensures
        match res {
            Some(r) => toml_content(*v) matches TomlView::Array(items) && i < items.len()
                && toml_content(*r) == items[i as int],
            None => !(toml_content(*v) matches TomlView::Array(items) && i < items.len()),
        },
{
    v.get(i)
}

/// The value of the `i`th entry of a TOML table (`Map::values`).
#[verifier::external_body]
fn toml_member(v: &toml::Value, i: usize) -> (res: Option<&toml::Value>)
    ensures
        match res {
            Some(r) => toml_content(*v) matches TomlView::Table(entries) && i < entries.len()
                && toml_content(*r) == entries[i as int].1,
            None => !(toml_content(*v) matches TomlView::Table(entries) && i < entries.len()),
        },
{
    v.as_table().and_then(|m| m.values().nth(i))
}

/// The library's form of a TOML value.
pub fn toml_to_value(v: &toml::Value) -> (res: TomlValue)
    ensures
        value_view(res) == toml_content(*v),
    decreases toml_content(*v),
{
    let ghost c = toml_content(*v);
    match toml_shape(v) {
        TomlShape::String(s) => TomlValue::String(s),
        TomlShape::Integer(i) => TomlValue::Integer(i),
        TomlShape::Float(f) => TomlValue::Float(f),
        TomlShape::Boolean(b) => TomlValue::Boolean(b),
        TomlShape::Datetime(d) => TomlValue::Datetime(d),
        TomlShape::Array(n) => {
            let ghost items = c->Array_0;
            let mut out: Vec<TomlValue> = Vec::new();
            let mut i: usize = 0;
            while i < n
                invariant
                    c == toml_content(*v),
                    c == TomlView::Array(items),
                    n == items.len(),
                    i <= n,
                    out@.len() == i,
                    forall|j: int| 0 <= j < i ==> value_view(#[trigger] out@[j]) == items[j],
                decreases n - i,
            {
                let item = toml_item(v, i).unwrap();
                proof {
                    assert(decreases_to!(c => items));
                    assert(decreases_to!(items => items[i as int]));
                }
                out.push(toml_to_value(item));
                i = i + 1;
            }
            proof {
                lemma_values_view(out@);
                assert(values_view(out@) =~= items);
            }
            TomlValue::Array(out)
        },
        TomlShape::Table(keys) => {
            let ghost entries = c->Table_0;
            proof {
                assert(keys@.len() == entries.len()) by {
                    assert(keys@.map_values(|k: String| k@).len() == entries.map_values(
                        |e: (Seq<char>, TomlView)| e.0,
                    ).len());
                }
                assert forall|j: int| 0 <= j < keys@.len() implies #[trigger] keys@[j]@ == entries[j].0 by {
                    assert(keys@.map_values(|k: String| k@)[j] == entries.map_values(
                        |e: (Seq<char>, TomlView)| e.0,
                    )[j]);
                }
            }
            let mut out: Vec<(String, TomlValue)> = Vec::new();
            let mut i: usize = 0;
            while i < keys.len()
                invariant
                    c == toml_content(*v),
                    c == TomlView::Table(entries),
                    keys@.len() == entries.len(),
                    forall|j: int| 0 <= j < keys@.len() ==> #[trigger] keys@[j]@ == entries[j].0,
                    i <= keys@.len(),
                    out@.len() == i,
                    forall|j: int|
                        0 <= j < i ==> (#[trigger] out@[j]).0@ == entries[j].0 && value_view(out@[j].1)
                            == entries[j].1,
                decreases keys@.len() - i,
            {
                let member = toml_member(v, i).unwrap();
                proof {
                    assert(decreases_to!(c => entries));
                    assert(decreases_to!(entries => entries[i as int]));
                    assert(decreases_to!(entries[i as int] => entries[i as int].1));
                }
                let t = toml_to_value(member);
                out.push((keys[i].clone(), t));
                i = i + 1;
            }
            proof {
                lemma_entries_view(out@);
                assert(entries_view(out@) =~= entries);
                assert forall|a: int, b: int| 0 <= a < b < out@.len() implies str_lt(
                    #[trigger] out@[a].0@,
                    #[trigger] out@[b].0@,
                ) by {
                    assert(out@[a].0@ == entries[a].0);
                    assert(out@[b].0@ == entries[b].0);
                }
            }
            let table = TomlTable::from_sorted_entries(out);
            TomlValue::Table(table)
        },
    }
}

/// What `toml::from_str` makes of a document read as a table: its entries,
/// or the message of its error.
pub uninterp spec fn toml_parse(text: Seq<char>) -> Result<Seq<(Seq<char>, TomlView)>, Seq<char>>;

/// Parses a TOML document as a table (`toml::from_str::<toml::Table>`).
#[verifier::external_body]
fn parse_toml_table(text: &str) -> (res: Result<toml::Value, String>)
    ensures
        match toml_parse(text@) {
            Ok(t) => res matches Ok(v) && toml_content(v) == TomlView::Table(t),
            Err(m) => res matches Err(e) && e@ == m,
        },
{
    toml::from_str::<toml::Table>(text).map(toml::Value::Table).map_err(|e| e.to_string())
}

/// Reads a TOML document as a table: its entries, or the parser's message.
pub fn parse_toml(text: &str) -> (res: Result<TomlTable, String>)
    ensures
        match toml_parse(text@) {
            Ok(t) => res matches Ok(r) && r.view_entries() == t,
            Err(m) => res matches Err(e) && e@ == m,
        },
{
    match parse_toml_table(text) {
        Ok(v) => match toml_to_value(&v) {
            TomlValue::Table(t) => Ok(t),
            _ => {
                assert(false);
                Err(String::new())
            },
        },
        Err(e) => Err(e),
    }
}

} // verus!
