use crate::json::{
    json_content, json_item, json_shape, json_text, json_to_string, json_to_toml, make_selector,
    select_first, conversion_error, converts_to, selector_error, jsonpath_first_match,
    JsonSelector, JsonShape, JsonView,
};
use crate::value::{
    compare_keys, keys_sorted, lemma_entries_view, lemma_str_lt_irreflexive, lemma_values_view,
    lemma_view_get_at, lemma_view_get_some, str_lt, value_view, view_get, KeyOrder, TomlTable,
    TomlValue, TomlView,
};
use crate::env::{option_value, scope_get};
use crate::value::overlay_get;
use vstd::prelude::*;
use vstd::string::*;

verus! {

/// Why values could not be taken from a response.
#[derive(Debug, PartialEq)]
pub enum ExtractError {
    /// A JSONPath expression was refused; the parser's message.
    InvalidJsonpath(String),
    /// A list rule lacks the path to its array, under this key.
    RequiredKeyNotFound(String),
    /// A value found in the response has no TOML form; the serializer's
    /// message.
    Convert(String),
    /// A rule that is neither a path nor a table.
    InvalidRule(TomlValue),
    /// The `_extract` section is not a table.
    InvalidSection,
}

/// The mathematical form of an `ExtractError`.
pub enum ExtractFailure {
    InvalidJsonpath(Seq<char>),
    RequiredKeyNotFound(Seq<char>),
    Convert(Seq<char>),
    InvalidRule(TomlView),
    InvalidSection,
}

pub open spec fn failure_view(e: ExtractError) -> ExtractFailure {
    match e {
        ExtractError::InvalidJsonpath(m) => ExtractFailure::InvalidJsonpath(m@),
        ExtractError::RequiredKeyNotFound(k) => ExtractFailure::RequiredKeyNotFound(k@),
        ExtractError::Convert(c) => ExtractFailure::Convert(c@),
        ExtractError::InvalidRule(v) => ExtractFailure::InvalidRule(value_view(v)),
        ExtractError::InvalidSection => ExtractFailure::InvalidSection,
    }
}

impl ExtractError {
    /// The message shown to the user. An invalid rule is shown with the
    /// rule in TOML form, which the caller renders: `None` for it.
    pub fn message(&self) -> (res: Option<String>)
        ensures
            match self {
                ExtractError::InvalidJsonpath(m) => res matches Some(s) && s@ == "Invalid jsonpath: "@
                    + m@,
                ExtractError::RequiredKeyNotFound(k) => res matches Some(s) && s@
                    == "Required key not found: "@ + k@,
                ExtractError::Convert(c) => res matches Some(s) && s@ == c@,
                ExtractError::InvalidRule(_) => res is None,
                ExtractError::InvalidSection => res matches Some(s) && s@
                    == "Invalid _extract section"@,
            },
    {
        match self {
            ExtractError::InvalidJsonpath(m) => Some(
                String::from_str("Invalid jsonpath: ").concat(m.as_str()),
            ),
            ExtractError::RequiredKeyNotFound(k) => Some(
                String::from_str("Required key not found: ").concat(k.as_str()),
            ),
            ExtractError::Convert(c) => Some(c.clone()),
            ExtractError::InvalidRule(_) => None,
            ExtractError::InvalidSection => Some(String::from_str("Invalid _extract section")),
        }
    }
}

/// The fields that a list rule reads from each item: its entries other than
/// `_` whose value is a string (a JSONPath), in key order.
pub open spec fn item_paths(conf: Seq<(Seq<char>, TomlView)>) -> Seq<(Seq<char>, Seq<char>)>
    decreases conf.len(),
{
    if conf.len() == 0 {
        Seq::empty()
    } else {
        match conf[0].1 {
            TomlView::String(p) => if conf[0].0 == "_"@ {
                item_paths(conf.drop_first())
            } else {
                seq![(conf[0].0, p)] + item_paths(conf.drop_first())
            },
            _ => item_paths(conf.drop_first()),
        }
    }
}

/// The message for the first field path of a list rule, in key order,
/// that does not compile.
pub open spec fn selectors_error(conf: Seq<(Seq<char>, TomlView)>) -> Option<Seq<char>>
    decreases conf.len(),
{
    if conf.len() == 0 {
        None
    } else {
        match conf[0].1 {
            TomlView::String(p) => if conf[0].0 == "_"@ {
                selectors_error(conf.drop_first())
            } else {
                match selector_error(p) {
                    Some(m) => Some(m),
                    None => selectors_error(conf.drop_first()),
                }
            },
            _ => selectors_error(conf.drop_first()),
        }
    }
}

/// The first value found for a field of an item, in field order, that has
/// no TOML form.
pub open spec fn item_error(paths: Seq<(Seq<char>, Seq<char>)>, item: JsonView) -> Option<
    Seq<char>,
>
    decreases paths.len(),
{
    if paths.len() == 0 {
        None
    } else {
        match jsonpath_first_match(paths[0].1, item) {
            Some(v) => match conversion_error(v) {
                Some(e) => Some(e),
                None => item_error(paths.drop_first(), item),
            },
            None => item_error(paths.drop_first(), item),
        }
    }
}

/// The first conversion error of a list of items, item by item.
pub open spec fn list_error(paths: Seq<(Seq<char>, Seq<char>)>, items: Seq<JsonView>) -> Option<
    Seq<char>,
>
    decreases items.len(),
{
    if items.len() == 0 {
        None
    } else {
        match item_error(paths, items[0]) {
            Some(e) => Some(e),
            None => list_error(paths, items.drop_first()),
        }
    }
}

/// `t` is the table made of one item of a list: each field whose path finds
/// a value in the item holds that value's TOML form, and `_raw` holds the
/// item's JSON text.
pub open spec fn item_table(paths: Seq<(Seq<char>, Seq<char>)>, item: JsonView, t: TomlView) -> bool {
    &&& t matches TomlView::Table(tt)
    &&& keys_sorted(tt)
    &&& view_get(tt, "_raw"@) == Some(TomlView::String(json_text(item)))
    &&& forall|j: int|
        0 <= j < paths.len() && paths[j].0 != "_raw"@ ==> match jsonpath_first_match(
            #[trigger] paths[j].1,
            item,
        ) {
            Some(v) => view_get(tt, paths[j].0) matches Some(x) && converts_to(v, x),
            None => view_get(tt, paths[j].0) is None,
        }
    &&& forall|k: Seq<char>|
        #[trigger] view_get(tt, k) is Some ==> k == "_raw"@ || exists|j: int|
            0 <= j < paths.len() && #[trigger] paths[j].0 == k
}

/// Why a rule of the `_extract` section fails on the response `data`.
pub open spec fn rule_error(rule: TomlView, data: JsonView) -> Option<ExtractFailure> {
    match rule {
        TomlView::String(path) => match selector_error(path) {
            Some(m) => Some(ExtractFailure::InvalidJsonpath(m)),
            None => match jsonpath_first_match(path, data) {
                Some(v) => if is_scalar(v) {
                    match conversion_error(v) {
                        Some(e) => Some(ExtractFailure::Convert(e)),
                        None => None,
                    }
                } else {
                    None
                },
                None => None,
            },
        },
        TomlView::Table(conf) => match view_get(conf, "_"@) {
            Some(TomlView::String(p)) => match selector_error(p) {
                Some(m) => Some(ExtractFailure::InvalidJsonpath(m)),
                None => match selectors_error(conf) {
                    Some(m) => Some(ExtractFailure::InvalidJsonpath(m)),
                    None => match jsonpath_first_match(p, data) {
                        Some(JsonView::Array(items)) => match list_error(item_paths(conf), items) {
                            Some(e) => Some(ExtractFailure::Convert(e)),
                            None => None,
                        },
                        _ => None,
                    },
                },
            },
            _ => Some(ExtractFailure::RequiredKeyNotFound("_"@)),
        },
        other => Some(ExtractFailure::InvalidRule(other)),
    }
}

/// Whether a JSON value is a single value (a boolean, a number or a
/// string) rather than null, an array or an object.
pub open spec fn is_scalar(v: JsonView) -> bool {
    match v {
        JsonView::Bool(_) | JsonView::Integer(_) | JsonView::Unsigned(_) | JsonView::Float(_)
        | JsonView::String(_) => true,
        _ => false,
    }
}

/// What a rule that does not fail takes from `data`: a path gives the TOML
/// form of the single value (boolean, number or string) it finds; a list
/// rule `{ _ = path, name = path, .. }` gives, when its path finds an
/// array, one table per item of the array.
pub open spec fn rule_yields(rule: TomlView, data: JsonView, out: Option<TomlView>) -> bool {
    match rule {
        TomlView::String(path) => match jsonpath_first_match(path, data) {
            Some(v) => if is_scalar(v) {
                out matches Some(t) && converts_to(v, t)
            } else {
                out is None
            },
            None => out is None,
        },
        TomlView::Table(conf) => match view_get(conf, "_"@) {
            Some(TomlView::String(p)) => match jsonpath_first_match(p, data) {
                Some(JsonView::Array(items)) => out matches Some(TomlView::Array(ts)) && ts.len()
                    == items.len() && forall|i: int|
                    0 <= i < items.len() ==> item_table(item_paths(conf), #[trigger] items[i], ts[i]),
                _ => out is None,
            },
            _ => false,
        },
        _ => false,
    }
}

/// The first failing rule, in key order.
pub open spec fn rules_error(rules: Seq<(Seq<char>, TomlView)>, data: JsonView) -> Option<
    ExtractFailure,
>
    decreases rules.len(),
{
    if rules.len() == 0 {
        None
    } else {
        match rule_error(rules[0].1, data) {
            Some(e) => Some(e),
            None => rules_error(rules.drop_first(), data),
        }
    }
}

/// Why the `_extract` section of `scope` fails on `data`.
pub open spec fn extract_error(scope: Seq<(Seq<char>, TomlView)>, data: JsonView) -> Option<
    ExtractFailure,
> {
    match view_get(scope, "_extract"@) {
        None => None,
        Some(TomlView::Table(rules)) => rules_error(rules, data),
        Some(_) => Some(ExtractFailure::InvalidSection),
    }
}

/// `out` holds what the rules of the `_extract` section of `scope` take
/// from `data`: under each rule's key what the rule yields, and nothing
/// else.
pub open spec fn extracted(
    scope: Seq<(Seq<char>, TomlView)>,
    data: JsonView,
    out: Seq<(Seq<char>, TomlView)>,
) -> bool {
    forall|k: Seq<char>|
        match view_get(scope, "_extract"@) {
            Some(TomlView::Table(rules)) => match view_get(rules, k) {
                Some(rule) => rule_yields(rule, data, #[trigger] view_get(out, k)),
                None => view_get(out, k) is None,
            },
            _ => view_get(out, k) is None,
        }
}

/// The string stored under `key`.
pub fn get_string(table: &TomlTable, key: &str) -> (res: Result<String, ExtractError>)
    ensures
        match view_get(table.view_entries(), key@) {
            Some(TomlView::String(s)) => res matches Ok(r) && r@ == s,
            _ => res matches Err(ExtractError::RequiredKeyNotFound(k)) && k@ == key@,
        },
{
    match table.get(key) {
        Some(TomlValue::String(s)) => Ok(s.clone()),
        _ => Err(ExtractError::RequiredKeyNotFound(key.to_owned())),
    }
}

/// The fields named by a list of compiled selectors.
pub open spec fn selector_paths(s: Seq<(String, JsonSelector)>) -> Seq<(Seq<char>, Seq<char>)> {
    s.map_values(|e: (String, JsonSelector)| (e.0@, e.1.path()))
}

/// The fields of a list rule have distinct names, in ascending order, each
/// a key of the rule.
proof fn lemma_item_paths_sorted(conf: Seq<(Seq<char>, TomlView)>)
    requires
        keys_sorted(conf),
    ensures
        forall|j: int|
            #![trigger item_paths(conf)[j]]
            0 <= j < item_paths(conf).len() ==> exists|i: int|
                0 <= i < conf.len() && #[trigger] conf[i].0 == item_paths(conf)[j].0,
        forall|a: int, b: int|
            0 <= a < b < item_paths(conf).len() ==> str_lt(
                #[trigger] item_paths(conf)[a].0,
                #[trigger] item_paths(conf)[b].0,
            ),
    decreases conf.len(),
{
    if conf.len() > 0 {
        let r = conf.drop_first();
        assert(keys_sorted(r)) by {
            assert forall|a: int, b: int| 0 <= a < b < r.len() implies str_lt(
                #[trigger] r[a].0,
                #[trigger] r[b].0,
            ) by {
                assert(r[a] == conf[a + 1]);
                assert(r[b] == conf[b + 1]);
            }
        }
        lemma_item_paths_sorted(r);
        let ps = item_paths(conf);
        let rs = item_paths(r);
        let first_kept = match conf[0].1 {
            TomlView::String(_) => conf[0].0 != "_"@,
            _ => false,
        };
        if first_kept {
            assert(ps.len() == rs.len() + 1);
            assert forall|j: int| #![trigger ps[j]] 0 <= j < ps.len() implies exists|i: int|
                0 <= i < conf.len() && #[trigger] conf[i].0 == ps[j].0 by {
                if j == 0 {
                    assert(conf[0].0 == ps[0].0);
                } else {
                    assert(ps[j] == rs[j - 1]);
                    let i = choose|i: int| 0 <= i < r.len() && #[trigger] r[i].0 == rs[j - 1].0;
                    assert(conf[i + 1] == r[i]);
                }
            }
            assert forall|a: int, b: int| 0 <= a < b < ps.len() implies str_lt(
                #[trigger] ps[a].0,
                #[trigger] ps[b].0,
            ) by {
                assert(ps[b] == rs[b - 1]);
                let i = choose|i: int| 0 <= i < r.len() && #[trigger] r[i].0 == rs[b - 1].0;
                assert(conf[i + 1] == r[i]);
                if a == 0 {
                    assert(str_lt(conf[0].0, conf[i + 1].0));
                } else {
                    assert(ps[a] == rs[a - 1]);
                }
            }
        } else {
            assert(ps == rs);
            assert forall|j: int| #![trigger ps[j]] 0 <= j < ps.len() implies exists|i: int|
                0 <= i < conf.len() && #[trigger] conf[i].0 == ps[j].0 by {
                let i = choose|i: int| 0 <= i < r.len() && #[trigger] r[i].0 == rs[j].0;
                assert(conf[i + 1] == r[i]);
            }
        }
    }
}

/// Compiles the field paths of a list rule (the entries other than `_`
/// whose value is a string), in key order.
fn make_item_selectors(conf: &TomlTable) -> (res: Result<Vec<(String, JsonSelector)>, ExtractError>)
    ensures
        match res {
            Ok(v) => selectors_error(conf.view_entries()) is None && selector_paths(v@)
                == item_paths(conf.view_entries()) && (forall|a: int, b: int|
                0 <= a < b < v@.len() ==> str_lt(#[trigger] v@[a].0@, #[trigger] v@[b].0@))
                && forall|j: int| 0 <= j < v@.len() ==> (#[trigger] v@[j]).1.wf(),
            Err(e) => e matches ExtractError::InvalidJsonpath(m) && selectors_error(
                conf.view_entries(),
            ) == Some(m@),
        },
{
    let entries = conf.entries();
    let ghost cv = conf.view_entries();
    proof {
        lemma_entries_view(entries@);
        assert(cv.skip(0) =~= cv);
    }
    let mut out: Vec<(String, JsonSelector)> = Vec::new();
    let ghost mut built: Seq<(Seq<char>, Seq<char>)> = Seq::empty();
    let mut i: usize = 0;
    while i < entries.len()
        invariant
            cv == conf.view_entries(),
            cv.len() == entries@.len(),
            forall|j: int|
                0 <= j < entries@.len() ==> #[trigger] cv[j] == (
                    entries@[j].0@,
                    value_view(entries@[j].1),
                ),
            i <= entries@.len(),
            selectors_error(cv) == selectors_error(cv.skip(i as int)),
            item_paths(cv) == built + item_paths(cv.skip(i as int)),
            selector_paths(out@) == built,
            forall|j: int| 0 <= j < out@.len() ==> (#[trigger] out@[j]).1.wf(),
        decreases entries@.len() - i,
    {
        let ghost rest = cv.skip(i as int);
        proof {
            assert(rest[0] == cv[i as int]);
            assert(rest.drop_first() =~= cv.skip(i + 1));
        }
        let (k, v) = &entries[i];
        if let TomlValue::String(p) = v {
            if !matches!(compare_keys(k.as_str(), "_"), KeyOrder::Equal) {
                match make_selector(p.as_str()) {
                    Ok(sel) => {
                        out.push((k.clone(), sel));
                        proof {
                            let x = (k@, p@);
                            assert(item_paths(rest) == seq![x] + item_paths(cv.skip(i + 1)));
                            assert(built.push(x) + item_paths(cv.skip(i + 1)) =~= built + (seq![x]
                                + item_paths(cv.skip(i + 1))));
                            built = built.push(x);
                            assert(selector_paths(out@) =~= built);
                        }
                    },
                    Err(m) => {
                        return Err(ExtractError::InvalidJsonpath(m));
                    },
                }
            }
        }
        i = i + 1;
    }
    proof {
        assert(cv.skip(i as int) =~= Seq::<(Seq<char>, TomlView)>::empty());
        assert(item_paths(cv) =~= built);
        lemma_item_paths_sorted(cv);
        assert forall|a: int, b: int| 0 <= a < b < out@.len() implies str_lt(
            #[trigger] out@[a].0@,
            #[trigger] out@[b].0@,
        ) by {
            assert(selector_paths(out@)[a].0 == out@[a].0@);
            assert(selector_paths(out@)[b].0 == out@[b].0@);
        }
    }
    Ok(out)
}

/// The table made of one item of a list rule: the TOML form of what each
/// field's path finds in the item, and the item's JSON text under `_raw`.
fn extract_item(item: &serde_json::Value, selectors: &Vec<(String, JsonSelector)>) -> (res: Result<
    TomlValue,
    String,
>)
    requires
        forall|a: int, b: int|
            0 <= a < b < selectors@.len() ==> str_lt(
                #[trigger] selectors@[a].0@,
                #[trigger] selectors@[b].0@,
            ),
        forall|j: int| 0 <= j < selectors@.len() ==> (#[trigger] selectors@[j]).1.wf(),
    ensures
        match res {
            Ok(t) => item_error(selector_paths(selectors@), json_content(*item)) is None
                && item_table(selector_paths(selectors@), json_content(*item), value_view(t)),
            Err(e) => item_error(selector_paths(selectors@), json_content(*item)) == Some(e@),
        },
{
    let ghost ps = selector_paths(selectors@);
    let ghost it = json_content(*item);
    let mut table = TomlTable::new();
    let mut j: usize = 0;
    proof {
        assert(ps.skip(0) =~= ps);
    }
    while j < selectors.len()
        invariant
            ps == selector_paths(selectors@),
            ps.len() == selectors@.len(),
            it == json_content(*item),
            forall|a: int, b: int|
                0 <= a < b < selectors@.len() ==> str_lt(
                    #[trigger] selectors@[a].0@,
                    #[trigger] selectors@[b].0@,
                ),
            forall|jj: int| 0 <= jj < selectors@.len() ==> (#[trigger] selectors@[jj]).1.wf(),
            j <= ps.len(),
            item_error(ps, it) == item_error(ps.skip(j as int), it),
            keys_sorted(table.view_entries()),
            forall|jj: int|
                0 <= jj < j ==> match jsonpath_first_match(#[trigger] ps[jj].1, it) {
                    Some(v) => view_get(table.view_entries(), ps[jj].0) matches Some(x)
                        && converts_to(v, x),
                    None => view_get(table.view_entries(), ps[jj].0) is None,
                },
            forall|k: Seq<char>|
                #[trigger] view_get(table.view_entries(), k) is Some ==> exists|jj: int|
                    0 <= jj < j && #[trigger] ps[jj].0 == k,
        decreases ps.len() - j,
    {
        let ghost rest = ps.skip(j as int);
        proof {
            assert(rest[0] == ps[j as int]);
            assert(rest.drop_first() =~= ps.skip(j + 1));
            assert(ps[j as int] == (selectors@[j as int].0@, selectors@[j as int].1.path()));
            assert forall|jj: int| 0 <= jj < j implies #[trigger] ps[jj].0 != ps[j as int].0 by {
                assert(ps[jj].0 == selectors@[jj].0@);
                assert(str_lt(selectors@[jj].0@, selectors@[j as int].0@));
                lemma_str_lt_irreflexive(ps[j as int].0);
            }
        }
        let name = &selectors[j].0;
        let sel = &selectors[j].1;
        match select_first(sel, item) {
            Some(found) => {
                match json_to_toml(found) {
                    Ok(t) => {
                        let ghost before = table.view_entries();
                        table.insert(name.clone(), t);
                        proof {
                            assert forall|k: Seq<char>| #[trigger] view_get(table.view_entries(), k) is Some
                                implies exists|jj: int| 0 <= jj < j + 1 && #[trigger] ps[jj].0 == k by {
                                if k != name@ {
                                    assert(view_get(before, k) is Some);
                                }
                            }
                        }
                    },
                    Err(e) => {
                        return Err(e);
                    },
                }
            },
            None => {
                proof {
                    if view_get(table.view_entries(), ps[j as int].0) is Some {
                        let jj = choose|jj: int| 0 <= jj < j && #[trigger] ps[jj].0 == ps[j as int].0;
                        assert(false);
                    }
                }
            },
        }
        j = j + 1;
    }
    let ghost before = table.view_entries();
    table.insert(String::from_str("_raw"), TomlValue::String(json_to_string(item)));
    proof {
        assert(ps.skip(j as int) =~= Seq::<(Seq<char>, Seq<char>)>::empty());
        assert forall|k: Seq<char>| #[trigger] view_get(table.view_entries(), k) is Some implies k
            == "_raw"@ || exists|jj: int| 0 <= jj < ps.len() && #[trigger] ps[jj].0 == k by {
            if k != "_raw"@ {
                assert(view_get(before, k) is Some);
            }
        }
    }
    Ok(TomlValue::Table(table))
}

/// The tables made of the items of a JSON array, one per item, in order.
fn extract_list(list: &serde_json::Value, n: usize, selectors: &Vec<(String, JsonSelector)>) -> (res:
    Result<Vec<TomlValue>, String>)
    requires
        json_content(*list) matches JsonView::Array(items) && n == items.len(),
        forall|a: int, b: int|
            0 <= a < b < selectors@.len() ==> str_lt(
                #[trigger] selectors@[a].0@,
                #[trigger] selectors@[b].0@,
            ),
        forall|j: int| 0 <= j < selectors@.len() ==> (#[trigger] selectors@[j]).1.wf(),
    ensures
        json_content(*list) matches JsonView::Array(items) && match res {
            Ok(ts) => list_error(selector_paths(selectors@), items) is None && ts@.len()
                == items.len() && forall|i: int|
                0 <= i < items.len() ==> item_table(
                    selector_paths(selectors@),
                    #[trigger] items[i],
                    value_view(ts@[i]),
                ),
            Err(e) => list_error(selector_paths(selectors@), items) == Some(e@),
        },
{
    let ghost ps = selector_paths(selectors@);
    let ghost items = json_content(*list)->Array_0;
    let mut out: Vec<TomlValue> = Vec::new();
    let mut i: usize = 0;
    proof {
        assert(items.skip(0) =~= items);
    }
    while i < n
        invariant
            ps == selector_paths(selectors@),
            json_content(*list) == JsonView::Array(items),
            n == items.len(),
            forall|a: int, b: int|
                0 <= a < b < selectors@.len() ==> str_lt(
                    #[trigger] selectors@[a].0@,
                    #[trigger] selectors@[b].0@,
                ),
            forall|jj: int| 0 <= jj < selectors@.len() ==> (#[trigger] selectors@[jj]).1.wf(),
            i <= n,
            out@.len() == i,
            list_error(ps, items) == list_error(ps, items.skip(i as int)),
            forall|j: int| 0 <= j < i ==> item_table(ps, #[trigger] items[j], value_view(out@[j])),
        decreases n - i,
    {
        proof {
            assert(items.skip(i as int)[0] == items[i as int]);
            assert(items.skip(i as int).drop_first() =~= items.skip(i + 1));
        }
        let item = json_item(list, i).unwrap();
        match extract_item(item, selectors) {
            Ok(t) => {
                out.push(t);
            },
            Err(e) => {
                return Err(e);
            },
        }
        i = i + 1;
    }
    proof {
        assert(items.skip(i as int) =~= Seq::<JsonView>::empty());
    }
    Ok(out)
}


/// The `Some` form of an optional value's view.
pub open spec fn optional_view(o: Option<TomlValue>) -> Option<TomlView> {
    match o {
        Some(v) => Some(value_view(v)),
        None => None,
    }
}

/// What one rule of the `_extract` section takes from `data`.
fn extract_rule(rule: &TomlValue, data: &serde_json::Value) -> (res: Result<
    Option<TomlValue>,
    ExtractError,
>)
    ensures
        match res {
            Ok(o) => rule_error(value_view(*rule), json_content(*data)) is None && rule_yields(
                value_view(*rule),
                json_content(*data),
                optional_view(o),
            ),
            Err(e) => rule_error(value_view(*rule), json_content(*data)) == Some(failure_view(e)),
        },
{
    match rule {
        TomlValue::String(jsonpath) => {
            let selector = match make_selector(jsonpath.as_str()) {
                Ok(s) => s,
                Err(m) => {
                    return Err(ExtractError::InvalidJsonpath(m));
                },
            };
            match select_first(&selector, data) {
                Some(found) => match json_shape(found) {
                    JsonShape::Null | JsonShape::Array(_) | JsonShape::Object(_) => Ok(None),
                    _ => match json_to_toml(found) {
                        Ok(t) => Ok(Some(t)),
                        Err(e) => Err(ExtractError::Convert(e)),
                    },
                },
                None => Ok(None),
            }
        },
        TomlValue::Table(conf) => {
            let items_path = match get_string(conf, "_") {
                Ok(p) => p,
                Err(e) => {
                    proof {
                        reveal_strlit("_");
                    }
                    return Err(e);
                },
            };
            let items_selector = match make_selector(items_path.as_str()) {
                Ok(s) => s,
                Err(m) => {
                    return Err(ExtractError::InvalidJsonpath(m));
                },
            };
            let value_selectors = make_item_selectors(conf)?;
            match select_first(&items_selector, data) {
                Some(found) => match json_shape(found) {
                    JsonShape::Array(n) => match extract_list(found, n, &value_selectors) {
                        Ok(items) => {
                            proof {
                                lemma_values_view(items@);
                            }
                            Ok(Some(TomlValue::Array(items)))
                        },
                        Err(e) => Err(ExtractError::Convert(e)),
                    },
                    _ => Ok(None),
                },
                None => Ok(None),
            }
        },
        _ => Err(ExtractError::InvalidRule(rule.duplicate())),
    }
}

/// Whether values are taken from a response with this status: only from a
/// successful one (2xx).
pub fn extracts_from_status(status: u16) -> (res: bool)
    ensures
        res == (200 <= status && status <= 299),
{
    200 <= status && status <= 299
}

/// Takes the values that the `_extract` section of `scope` asks for from
/// the JSON response `data`: for each rule, in key order, a path gives the
/// TOML form of the boolean, number or string it finds, and a list rule
/// `{ _ = path, name = path, .. }` gives one table per item of the array
/// that its path finds. The first rule that fails gives the error.
pub fn extract_variables(data: &serde_json::Value, scope: &TomlTable) -> (res: Result<
    TomlTable,
    ExtractError,
>)
    ensures
        match res {
            Ok(out) => extract_error(scope.view_entries(), json_content(*data)) is None
                && keys_sorted(out.view_entries()) && extracted(
                scope.view_entries(),
                json_content(*data),
                out.view_entries(),
            ),
            Err(e) => extract_error(scope.view_entries(), json_content(*data)) == Some(
                failure_view(e),
            ),
        },
{
    let ghost d = json_content(*data);
    let mut out = TomlTable::new();
    match scope.get("_extract") {
        Some(TomlValue::Table(table)) => {
            let rules = table.entries();
            let ghost rv = table.view_entries();
            proof {
                lemma_entries_view(rules@);
                assert(rv.skip(0) =~= rv);
            }
            let mut i: usize = 0;
            while i < rules.len()
                invariant
                    d == json_content(*data),
                    rv == table.view_entries(),
                    view_get(scope.view_entries(), "_extract"@) == Some(TomlView::Table(rv)),
                    rv.len() == rules@.len(),
                    forall|j: int|
                        0 <= j < rules@.len() ==> #[trigger] rv[j] == (
                            rules@[j].0@,
                            value_view(rules@[j].1),
                        ),
                    keys_sorted(rv),
                    i <= rules@.len(),
                    rules_error(rv, d) == rules_error(rv.skip(i as int), d),
                    keys_sorted(out.view_entries()),
                    forall|j: int|
                        0 <= j < i ==> rule_yields(
                            rv[j].1,
                            d,
                            view_get(out.view_entries(), #[trigger] rv[j].0),
                        ),
                    forall|k: Seq<char>|
                        #[trigger] view_get(out.view_entries(), k) is Some ==> exists|j: int|
                            0 <= j < i && #[trigger] rv[j].0 == k,
                decreases rules@.len() - i,
            {
                proof {
                    assert(rv.skip(i as int)[0] == rv[i as int]);
                    assert(rv.skip(i as int).drop_first() =~= rv.skip(i + 1));
                    assert forall|j: int| 0 <= j < i implies #[trigger] rv[j].0 != rv[i as int].0 by {
                        lemma_str_lt_irreflexive(rv[i as int].0);
                    }
                }
                let key = &rules[i].0;
                match extract_rule(&rules[i].1, data) {
                    Ok(Some(v)) => {
                        let ghost before = out.view_entries();
                        out.insert(key.clone(), v);
                        proof {
                            assert forall|k: Seq<char>| #[trigger] view_get(out.view_entries(), k) is Some
                                implies exists|j: int| 0 <= j < i + 1 && #[trigger] rv[j].0 == k by {
                                if k != key@ {
                                    assert(view_get(before, k) is Some);
                                }
                            }
                        }
                    },
                    Ok(None) => {
                        proof {
                            if view_get(out.view_entries(), rv[i as int].0) is Some {
                                let j = choose|j: int| 0 <= j < i && #[trigger] rv[j].0 == rv[i as int].0;
                                assert(false);
                            }
                        }
                    },
                    Err(e) => {
                        return Err(e);
                    },
                }
                i = i + 1;
            }
            proof {
                assert(rv.skip(i as int) =~= Seq::<(Seq<char>, TomlView)>::empty());
                assert forall|k: Seq<char>| match view_get(rv, k) {
                    Some(rule) => rule_yields(rule, d, #[trigger] view_get(out.view_entries(), k)),
                    None => view_get(out.view_entries(), k) is None,
                } by {
                    lemma_view_get_some(rv, k);
                    if view_get(rv, k) is Some {
                        let j = choose|j: int| 0 <= j < rv.len() && #[trigger] rv[j].0 == k;
                        lemma_view_get_at(rv, j);
                    } else if view_get(out.view_entries(), k) is Some {
                        let j = choose|j: int| 0 <= j < i && #[trigger] rv[j].0 == k;
                        assert(false);
                    }
                }
            }
            Ok(out)
        },
        Some(_) => Err(ExtractError::InvalidSection),
        None => Ok(out),
    }
}

/// A value taken from a response is what later requests see: once the
/// extracted values `vars` are stored over the stored values `state`
/// (which `update_data` writes as `data`), the scope of any later request,
/// for any target and configuration, holds each extracted value, unless a
/// command line option sets the same variable.
pub proof fn lemma_extracted_values_reach_scope(
    target: Seq<char>,
    config: Seq<(Seq<char>, TomlView)>,
    request: Seq<(Seq<char>, TomlView)>,
    state: Seq<(Seq<char>, TomlView)>,
    vars: Seq<(Seq<char>, TomlView)>,
    data: Seq<(Seq<char>, TomlView)>,
    options: Seq<(String, String)>,
    k: Seq<char>,
)
    requires
        forall|x: Seq<char>| #[trigger] view_get(data, x) == overlay_get(state, vars, x),
        view_get(vars, k) is Some,
        option_value(options, k) is None,
    ensures
        scope_get(target, config, request, data, options, k) == view_get(vars, k),
{
    assert(view_get(data, k) == overlay_get(state, vars, k));
}

} // verus!
