use crate::toml_text::{toml_content, toml_to_value};
use crate::value::{value_view, TomlValue, TomlView};
use vstd::prelude::*;
use vstd::string::*;

verus! {

#[verifier::external_type_specification]
#[verifier::external_body]
pub struct ExJsonValue(serde_json::Value);

/// The mathematical form of a JSON document.
///
/// A number is held as an `Integer` when it fits `i64`, as an `Unsigned`
/// when it is a larger whole number, and as a `Float` otherwise, by the
/// text that Rust prints for it. The members of an object come in the
/// order in which the document's map yields them.
pub enum JsonView {
    Null,
    Bool(bool),
    Integer(i64),
    Unsigned(u64),
    Float(Seq<char>),
    String(Seq<char>),
    Array(Seq<JsonView>),
    Object(Seq<(Seq<char>, JsonView)>),
}

/// What a parsed JSON document holds.
pub uninterp spec fn json_content(v: serde_json::Value) -> JsonView;

/// The top level of a JSON value.
pub enum JsonShape {
    Null,
    Bool(bool),
    Integer(i64),
    Unsigned(u64),
    Float(String),
    String(String),
    Array(usize),
    Object(Vec<String>),
}

/// The top level of a JSON value: its kind, the scalar it holds, the
/// length of an array or the keys of an object (`serde_json::Value`'s
/// variants, `Number::as_i64`, `as_u64`, `as_f64`, `Map::keys`). The map of
/// an object is a `BTreeMap` here (no `preserve_order`), so its keys come in
/// ascending order.
#[verifier::external_body]
pub(crate) fn json_shape(v: &serde_json::Value) -> (res: JsonShape)
    ensures
        match json_content(*v) {
            JsonView::Null => res is Null,
            JsonView::Bool(b) => res == JsonShape::Bool(b),
            JsonView::Integer(i) => res == JsonShape::Integer(i),
            JsonView::Unsigned(u) => res == JsonShape::Unsigned(u),
            JsonView::Float(t) => res matches JsonShape::Float(s) && s@ == t,
            JsonView::String(t) => res matches JsonShape::String(s) && s@ == t,
            JsonView::Array(items) => res matches JsonShape::Array(n) && n == items.len(),
            JsonView::Object(entries) => res matches JsonShape::Object(keys) && keys@.map_values(
                |k: String| k@,
            ) == entries.map_values(|e: (Seq<char>, JsonView)| e.0) && forall|a: int, b: int|
                0 <= a < b < entries.len() ==> crate::value::str_lt(
                    #[trigger] entries[a].0,
                    #[trigger] entries[b].0,
                ),
        },
{
    match v {
        serde_json::Value::Null => JsonShape::Null,
        serde_json::Value::Bool(b) => JsonShape::Bool(*b),
        serde_json::Value::Number(n) => match (n.as_i64(), n.as_u64()) {
            (Some(i), _) => JsonShape::Integer(i),
            (None, Some(u)) => JsonShape::Unsigned(u),
            (None, None) => JsonShape::Float(n.as_f64().map(|f| f.to_string()).unwrap_or_default()),
        },
        serde_json::Value::String(s) => JsonShape::String(s.clone()),
        serde_json::Value::Array(a) => JsonShape::Array(a.len()),
        serde_json::Value::Object(m) => JsonShape::Object(m.keys().cloned().collect()),
    }
}

/// An element of a JSON array (`Value::get` with an index).
#[verifier::external_body]
pub(crate) fn json_item(v: &serde_json::Value, i: usize) -> (res: Option<&serde_json::Value>)
    ensures
        match res {
            Some(r) => json_content(*v) matches JsonView::Array(items) && i < items.len()
                && json_content(*r) == items[i as int],
            None => !(json_content(*v) matches JsonView::Array(items) && i < items.len()),
        },
{
    v.get(i)
}

/// The compact JSON text of a value (`serde_json::Value`'s `Display`).
pub uninterp spec fn json_text(v: JsonView) -> Seq<char>;

/// The compact JSON text of a value, as `serde_json` writes it.
#[verifier::external_body]
pub(crate) fn json_to_string(v: &serde_json::Value) -> (res: String)
    ensures
        res@ == json_text(json_content(*v)),
{
    v.to_string()
}

/// What `toml::Value::try_from` makes of a JSON value: its TOML form, or
/// the message of the serializer's error (for a null, or a whole number
/// above `i64::MAX`).
pub uninterp spec fn toml_of_json(v: JsonView) -> Result<TomlView, Seq<char>>;

/// The TOML form of a JSON value (`toml::Value::try_from`). Its
/// serializer turns a boolean, a whole number within `i64`, a float and a
/// string into the same TOML scalar, refuses a null ("unsupported unit
/// type") and a whole number above `i64::MAX` ("u64 value was too large");
/// what it makes of an array or an object is named.
#[verifier::external_body]
fn toml_try_from_json(v: &serde_json::Value) -> (res: Result<toml::Value, String>)
    ensures
        match toml_of_json(json_content(*v)) {
            Ok(t) => res matches Ok(r) && toml_content(r) == t,
            Err(m) => res matches Err(e) && e@ == m,
        },
        scalar_converted(json_content(*v), res),
{
    toml::Value::try_from(v).map_err(|e| e.to_string())
}

/// What `toml::Value::try_from` gives for a JSON value that is not an
/// array or an object.
pub open spec fn scalar_converted(v: JsonView, res: Result<toml::Value, String>) -> bool {
    match v {
        JsonView::Null => res matches Err(e) && e@ == "unsupported unit type"@,
        JsonView::Bool(b) => res matches Ok(r) && toml_content(r) == TomlView::Boolean(b),
        JsonView::Integer(i) => res matches Ok(r) && toml_content(r) == TomlView::Integer(i),
        JsonView::Unsigned(_) => res matches Err(e) && e@ == "u64 value was too large"@,
        JsonView::Float(t) => res matches Ok(r) && toml_content(r) == TomlView::Float(t),
        JsonView::String(t) => res matches Ok(r) && toml_content(r) == TomlView::String(t),
        _ => true,
    }
}

/// The message for a JSON value that has no TOML form.
pub open spec fn conversion_error(v: JsonView) -> Option<Seq<char>> {
    match toml_of_json(v) {
        Ok(_) => None,
        Err(m) => Some(m),
    }
}

/// `t` is the TOML form of the JSON value `v`.
pub open spec fn converts_to(v: JsonView, t: TomlView) -> bool {
    toml_of_json(v) == Ok::<TomlView, Seq<char>>(t)
}

/// The TOML form of a JSON value, in the library's terms: a boolean, a
/// whole number within `i64`, a float and a string keep their value; a
/// null and a larger whole number are refused.
pub fn json_to_toml(v: &serde_json::Value) -> (res: Result<TomlValue, String>)
    ensures
        match res {
            Ok(t) => conversion_error(json_content(*v)) is None && converts_to(
                json_content(*v),
                value_view(t),
            ),
            Err(e) => conversion_error(json_content(*v)) == Some(e@),
        },
        match json_content(*v) {
            JsonView::Null => res matches Err(e) && e@ == "unsupported unit type"@,
            JsonView::Bool(b) => res matches Ok(t) && value_view(t) == TomlView::Boolean(b),
            JsonView::Integer(i) => res matches Ok(t) && value_view(t) == TomlView::Integer(i),
            JsonView::Unsigned(_) => res matches Err(e) && e@ == "u64 value was too large"@,
            JsonView::Float(f) => res matches Ok(t) && value_view(t) == TomlView::Float(f),
            JsonView::String(s) => res matches Ok(t) && value_view(t) == TomlView::String(s),
            _ => true,
        },
{
    match toml_try_from_json(v) {
        Ok(t) => Ok(toml_to_value(&t)),
        Err(e) => Err(e),
    }
}

#[verifier::external_type_specification]
#[verifier::external_body]
pub struct ExSelector(jsonpath::Selector);

/// The message of the error `jsonpath::Selector::new` gives for a path it
/// refuses; `None` for a path it accepts.
pub uninterp spec fn jsonpath_compile_error(path: Seq<char>) -> Option<Seq<char>>;

/// The first value that a `jsonpath::Selector` made from `path` finds in a
/// document (`Selector::find`, then `next`).
pub uninterp spec fn jsonpath_first_match(path: Seq<char>, data: JsonView) -> Option<JsonView>;

pub open spec fn is_digit(c: char) -> bool {
    '0' <= c && c <= '9'
}

/// A comparison's last character (`==`, `!=`, `<`, `>`).
pub open spec fn is_operator(c: char) -> bool {
    c == '=' || c == '<' || c == '>'
}

/// The number of ASCII digits in the run that ends at position `i`.
pub open spec fn digit_run(path: Seq<char>, i: int) -> nat
    decreases i + 1,
{
    if i < 0 || i >= path.len() || !is_digit(path[i]) {
        0
    } else {
        1 + digit_run(path, i - 1)
    }
}

/// The decimal value of the run of digits that ends at position `i`.
pub open spec fn run_value(path: Seq<char>, i: int) -> int
    decreases i + 1,
{
    if i < 0 || i >= path.len() || !is_digit(path[i]) {
        0
    } else {
        run_value(path, i - 1) * 10 + ((path[i] as int) - ('0' as int))
    }
}

/// The last position at or before `i` that is not a space (-1 if none).
pub open spec fn prev_non_space(path: Seq<char>, i: int) -> int
    decreases i + 1,
{
    if i < 0 {
        -1
    } else if i < path.len() && path[i] == ' ' {
        prev_non_space(path, i - 1)
    } else {
        i
    }
}

/// The first position at or after `j` that is not a space (the length if
/// none).
pub open spec fn next_non_space(path: Seq<char>, j: int) -> int
    decreases path.len() - j,
{
    if j >= path.len() {
        path.len() as int
    } else if j >= 0 && path[j] == ' ' {
        next_non_space(path, j + 1)
    } else {
        j
    }
}

/// The run of digits ending at `i` comes, after spaces, right behind a
/// comparison.
pub open spec fn run_after_operator(path: Seq<char>, i: int) -> bool {
    let p = prev_non_space(path, i - digit_run(path, i));
    0 <= p && p < path.len() && is_operator(path[p])
}

/// The run of digits ending at `i` is the whole number a filter compares
/// with: it follows a comparison, and neither a digit nor a `.` follows it
/// (a `.` would make it the whole part of a float).
pub open spec fn filter_number(path: Seq<char>, i: int) -> bool {
    &&& 0 <= i < path.len()
    &&& is_digit(path[i])
    &&& !(i + 1 < path.len() && (is_digit(path[i + 1]) || path[i + 1] == '.'))
    &&& run_after_operator(path, i)
}

/// `[?(` starts at `i`.
pub open spec fn opens_filter(path: Seq<char>, i: int) -> bool {
    0 <= i && i + 2 < path.len() && path[i] == '[' && path[i + 1] == '?' && path[i + 2] == '('
}

/// `)]` starts at `i`.
pub open spec fn closes_filter(path: Seq<char>, i: int) -> bool {
    0 <= i && i + 1 < path.len() && path[i] == ')' && path[i + 1] == ']'
}

/// The filters open before position `n`, innermost last: whether each
/// starts from the root (`$`).
pub open spec fn filter_stack(path: Seq<char>, n: int) -> Seq<bool>
    decreases n,
{
    if n <= 0 {
        Seq::empty()
    } else {
        let st = filter_stack(path, n - 1);
        let i = n - 1;
        if opens_filter(path, i) {
            st.push(i + 3 < path.len() && path[i + 3] == '$')
        } else if closes_filter(path, i) && st.len() > 0 {
            st.drop_last()
        } else {
            st
        }
    }
}

/// The `<` or `>` at `i` is the comparison of a filter that starts from the
/// root, and a number follows it.
pub open spec fn root_compares_number(path: Seq<char>, i: int) -> bool {
    let st = filter_stack(path, i);
    let j = next_non_space(path, i + 1);
    st.len() > 0 && st.last() && j < path.len() && is_digit(path[j])
}

/// The paths this library hands to the jsonpath crate. That crate reads
/// the whole number a filter compares with as an `i64` and panics where it
/// does not fit, and it panics when a filter that starts from the root
/// compares by `<` or `>` with a number. A path is taken unless it holds
/// one of these.
pub open spec fn jsonpath_supported(path: Seq<char>) -> bool {
    &&& forall|i: int| #[trigger] filter_number(path, i) ==> run_value(path, i) <= i64::MAX
    &&& forall|i: int|
        0 <= i < path.len() && (path[i] == '<' || path[i] == '>') ==> !#[trigger] root_compares_number(path, i)
}

/// The message for a path that `jsonpath_supported` turns away.
pub open spec fn unsupported_message() -> Seq<char> {
    "unsupported path: a number in a filter beyond i64, or a filter on the root compared by < or > with a number"@
}

/// The message for a path that cannot be made into a selector: the
/// library's own for one it does not take, the crate's for one it refuses.
pub open spec fn selector_error(path: Seq<char>) -> Option<Seq<char>> {
    if !jsonpath_supported(path) {
        Some(unsupported_message())
    } else {
        jsonpath_compile_error(path)
    }
}

/// The first position at or after `j` that is not a space.
fn skip_spaces(path: &str, j: usize) -> (res: usize)
    requires
        j <= path@.len(),
    ensures
        res == next_non_space(path@, j as int),
{
    let n = path.unicode_len();
    let mut k = j;
    while k < n && path.get_char(k) == ' '
        invariant
            n == path@.len(),
            j <= k <= n,
            next_non_space(path@, k as int) == next_non_space(path@, j as int),
        decreases n - k,
    {
        k = k + 1;
    }
    k
}

/// Whether the character at `i` of `path` is a digit.
fn digit_at(path: &str, i: usize) -> (res: bool)
    requires
        i < path@.len(),
    ensures
        res == is_digit(path@[i as int]),
{
    let c = path.get_char(i);
    '0' <= c && c <= '9'
}

proof fn lemma_prev_non_space(path: Seq<char>, i: int)
    requires
        -1 <= i < path.len(),
    ensures
        -1 <= prev_non_space(path, i) <= i,
    decreases i + 1,
{
    if i >= 0 && path[i] == ' ' {
        lemma_prev_non_space(path, i - 1);
    }
}

proof fn lemma_value_grows(x: int, d: int)
    requires
        x > i64::MAX,
        0 <= d,
    ensures
        x * 10 + d > i64::MAX,
{
    assert(x * 10 >= x) by (nonlinear_arith)
        requires
            x > 0,
    ;
}

proof fn lemma_value_large(x: int, d: int)
    requires
        x > 922337203685477580,
        0 <= d,
    ensures
        x * 10 + d > i64::MAX,
{
    assert(x * 10 >= 9223372036854775810) by (nonlinear_arith)
        requires
            x >= 922337203685477581,
    ;
}

/// Decides `jsonpath_supported`.
pub fn is_supported_jsonpath(path: &str) -> (res: bool)
    ensures
        res == jsonpath_supported(path@),
{
    let n = path.unicode_len();
    let mut stack: Vec<bool> = Vec::new();
    let mut val: u64 = 0;
    let mut big = false;
    let mut run_op = false;
    let mut last_ns: Option<char> = None;
    let mut i: usize = 0;
    while i < n
        invariant
            n == path@.len(),
            i <= n,
            stack@ == filter_stack(path@, i as int),
            big == (run_value(path@, i - 1) > i64::MAX),
            !big ==> val == run_value(path@, i - 1),
            i > 0 && is_digit(path@[i - 1]) ==> run_op == run_after_operator(path@, i - 1),
            last_ns == (if prev_non_space(path@, i - 1) >= 0 {
                Some(path@[prev_non_space(path@, i - 1)])
            } else {
                None::<char>
            }),
            forall|j: int| 0 <= j < i && #[trigger] filter_number(path@, j) ==> run_value(path@, j) <= i64::MAX,
            forall|j: int|
                0 <= j < i && (path@[j] == '<' || path@[j] == '>') ==> !#[trigger] root_compares_number(path@, j),
        decreases n - i,
    {
        let c = path.get_char(i);
        let ghost pv = path@;
        if '0' <= c && c <= '9' {
            let starts = i == 0 || !digit_at(path, i - 1);
            proof {
                lemma_prev_non_space(pv, i - 1);
            }
            if starts {
                run_op = match last_ns {
                    Some(p) => p == '=' || p == '<' || p == '>',
                    None => false,
                };
                val = 0;
                big = false;
                assert(digit_run(pv, i - 1) == 0);
                assert(digit_run(pv, i as int) == 1);
            } else {
                assert(digit_run(pv, i as int) == digit_run(pv, i - 1) + 1);
            }
            assert(run_op == run_after_operator(pv, i as int));
            let d = (c as u32 - '0' as u32) as u64;
            proof {
                assert(run_value(pv, i as int) == run_value(pv, i - 1) * 10 + d);
                if starts {
                    assert(run_value(pv, i - 1) == 0);
                }
            }
            if big {
                proof {
                    lemma_value_grows(run_value(pv, i - 1), d as int);
                }
            } else if val > 922337203685477580 {
                proof {
                    lemma_value_large(val as int, d as int);
                }
                big = true;
            } else {
                val = val * 10 + d;
                if val > 9223372036854775807 {
                    big = true;
                }
            }
            let ends = if i + 1 < n {
                let x = path.get_char(i + 1);
                !('0' <= x && x <= '9') && x != '.'
            } else {
                true
            };
            assert(ends && run_op ==> filter_number(pv, i as int));
            if ends && run_op && big {
                return false;
            }
        } else {
            val = 0;
            big = false;
        }
        if c == '<' || c == '>' {
            if stack.len() > 0 && stack[stack.len() - 1] {
                let j = skip_spaces(path, i + 1);
                if j < n && digit_at(path, j) {
                    assert(root_compares_number(pv, i as int));
                    return false;
                }
            }
            assert(!root_compares_number(pv, i as int));
        }
        let opens = n - i > 2 && path.get_char(i) == '[' && path.get_char(i + 1) == '?'
            && path.get_char(i + 2) == '(';
        let closes = n - i > 1 && path.get_char(i) == ')' && path.get_char(i + 1) == ']';
        if opens {
            let root = n - i > 3 && path.get_char(i + 3) == '$';
            stack.push(root);
        } else if closes && stack.len() > 0 {
            stack.pop();
        }
        proof {
            assert(stack@ =~= filter_stack(pv, i + 1));
        }
        if c != ' ' {
            last_ns = Some(c);
        }
        proof {
            lemma_prev_non_space(pv, i as int);
        }
        i = i + 1;
    }
    true
}

/// Compiles a JSONPath expression (`jsonpath::Selector::new`). The path is
/// one that `jsonpath_supported` takes, so the parser's reading of the
/// numbers that filters compare with cannot panic.
#[verifier::external_body]
fn compile_selector(path: &str) -> (res: Result<jsonpath::Selector, String>)
    requires
        jsonpath_supported(path@),
    ensures
        match jsonpath_compile_error(path@) {
            None => res is Ok,
            Some(m) => res matches Err(e) && e@ == m,
        },
{
    jsonpath::Selector::new(path).map_err(|e| e.to_string())
}

/// A compiled JSONPath expression, with the text it was compiled from.
pub struct JsonSelector {
    path: String,
    selector: jsonpath::Selector,
}

impl JsonSelector {
    /// The expression the selector was compiled from.
    pub closed spec fn path(self) -> Seq<char> {
        self.path@
    }

    /// Whether the selector was made by `make_selector`, from a path that
    /// the library takes.
    pub closed spec fn wf(self) -> bool {
        jsonpath_supported(self.path@)
    }
}

/// Compiles a JSONPath expression: one that `jsonpath_supported` turns
/// away is an error, with `unsupported_message`.
pub fn make_selector(path: &str) -> (res: Result<JsonSelector, String>)
    ensures
        match selector_error(path@) {
            None => res matches Ok(s) && s.path() == path@ && s.wf(),
            Some(m) => res matches Err(e) && e@ == m,
        },
{
    if !is_supported_jsonpath(path) {
        let m = String::from_str(
            "unsupported path: a number in a filter beyond i64, or a filter on the root compared by < or > with a number",
        );
        proof {
            reveal_strlit(
                "unsupported path: a number in a filter beyond i64, or a filter on the root compared by < or > with a number",
            );
        }
        return Err(m);
    }
    match compile_selector(path) {
        Ok(selector) => Ok(JsonSelector { path: path.to_owned(), selector }),
        Err(e) => Err(e),
    }
}

/// The first value the selector finds in `data` (`Selector::find`, then
/// `next`). The selector was made from `sel.path()` by `make_selector`, the
/// only place that builds one, so its path holds no filter on the root
/// compared by `<` or `>` with a number, the one comparison the crate's
/// iterator leaves unimplemented (and panics on).
#[verifier::external_body]
pub(crate) fn select_first<'a>(sel: &JsonSelector, data: &'a serde_json::Value) -> (res: Option<
    &'a serde_json::Value,
>)
    requires
        sel.wf(),
    ensures
        match jsonpath_first_match(sel.path(), json_content(*data)) {
            Some(m) => res matches Some(r) && json_content(*r) == m,
            None => res is None,
        },
{
    sel.selector.find(data).next()
}

} // verus!
