use crate::scope::{scalar_text, Replacement, Scope};
use crate::text::ends_with;
use crate::value::{
    duplicate_values, lemma_values_view, value_view, values_view, view_get, TomlTable, TomlValue,
    TomlView,
};
use vstd::prelude::*;
use vstd::string::*;

verus! {

/// A variable of the process environment to set.
pub struct EnvVar {
    pub name: String,
    pub value: String,
}

/// The name of the environment variable that holds whether the user may
/// be asked for values.
pub open spec fn interactive_var() -> Seq<char> {
    "interactive"@
}

/// The environment variable that stores a flag: `y` or `n`.
fn set_boolean(name: &str, value: bool) -> (res: EnvVar)
    ensures
        res.name@ == name@,
        res.value@ == if value {
            "y"@
        } else {
            "n"@
        },
{
    EnvVar {
        name: name.to_owned(),
        value: if value {
            String::from_str("y")
        } else {
            String::from_str("n")
        },
    }
}

/// Whether a flag stored in the environment is set: its value is `y`.
fn get_boolean(value: Option<&str>) -> (res: bool)
    ensures
        res == (value matches Some(v) && v@ == "y"@),
{
    match value {
        Some(v) => {
            proof {
                reveal_strlit("y");
            }
            let r = v.unicode_len() == 1 && v.get_char(0) == 'y';
            proof {
                if r {
                    assert(v@ =~= "y"@);
                }
            }
            r
        },
        None => false,
    }
}

/// The environment variable that records whether the user may be asked
/// for values.
pub fn set_interactive_mode(enable: bool) -> (res: EnvVar)
    ensures
        res.name@ == interactive_var(),
        res.value@ == if enable {
            "y"@
        } else {
            "n"@
        },
{
    set_boolean("interactive", enable)
}

/// Whether the user may be asked for values, given the value of the
/// environment variable `interactive_var()`.
pub fn is_interactive_mode(value: Option<&str>) -> (res: bool)
    ensures
        res == (value matches Some(v) && v@ == "y"@),
{
    get_boolean(value)
}

/// What the skim matcher of `fuzzy_matcher` gives for a pattern against a
/// text (`SkimMatcherV2::default().fuzzy(text, pattern, true)`): the score
/// and the positions of the matched characters, or `None`.
pub uninterp spec fn skim_match(text: Seq<char>, pattern: Seq<char>) -> Option<(i64, Seq<usize>)>;

/// Matches a pattern against a text with the skim matcher. An empty
/// pattern matches with score 0 and no positions.
#[verifier::external_body]
pub(crate) fn skim_fuzzy(text: &str, pattern: &str) -> (res: Option<(i64, Vec<usize>)>)
    ensures
        match skim_match(text@, pattern@) {
            Some((score, positions)) => res matches Some(r) && r.0 == score && r.1@ == positions,
            None => res is None,
        },
        match res {
            Some(r) => pattern@.len() == 0 ==> r.0 == 0 && r.1@.len() == 0,
            None => pattern@.len() != 0,
        },
{
    fuzzy_matcher::skim::SkimMatcherV2::default().fuzzy(text, pattern, true)
}

/// The fuzzy score of `value` for the search text `filter`, if it matches.
pub fn fuzzy_match(filter: &str, value: &str) -> (res: Option<i64>)
    ensures
        res == match skim_match(value@, filter@) {
            Some((score, _)) => Some(score),
            None => None,
        },
        filter@.len() == 0 ==> res == Some(0i64),
{
    match skim_fuzzy(value, filter) {
        Some((score, _)) => Some(score),
        None => None,
    }
}

/// What a variable is replaced with: a single value, as text, or a list
/// of values to choose from.
#[derive(Debug, PartialEq)]
pub enum SubstituteValue {
    Single(String),
    Multiple(Vec<TomlValue>),
}

/// `res` is what the scope offers for `key`: its text for a single value,
/// its elements for a list, nothing when the scope lacks it or holds a
/// table or datetime.
pub open spec fn offers(scope: Scope, key: Seq<char>, res: Option<SubstituteValue>) -> bool {
    match view_get(scope.vars(), key) {
        None => res is None,
        Some(TomlView::Array(a)) => res matches Some(SubstituteValue::Multiple(vs)) && values_view(
            vs@,
        ) == a,
        Some(v) => match scalar_text(v) {
            Some(t) => res matches Some(SubstituteValue::Single(s)) && s@ == t,
            None => res is None,
        },
    }
}

/// What the scope offers for a variable.
fn scope_lookup(scope: &Scope, key: &str) -> (res: Option<SubstituteValue>)
    ensures
        offers(*scope, key@, res),
{
    match scope.lookup(key) {
        Ok(Replacement::ValueNotFound { .. }) => None,
        Ok(Replacement::Value(v)) => Some(SubstituteValue::Single(v)),
        Ok(Replacement::MultipleValuesFound { key: _, values }) => Some(
            SubstituteValue::Multiple(values),
        ),
        Err(_) => None,
    }
}

/// A value of a list with a `value` and a `name`, shown to the user as a
/// suggestion.
#[derive(Debug, PartialEq)]
pub struct Suggestion {
    pub value: TomlValue,
    pub name: TomlValue,
}

/// Why no value could be had for a variable without asking the user.
#[derive(Debug, PartialEq)]
pub enum InteractionError {
    /// No value, and no fallback.
    ReplacementNotFound { key: String },
    /// A choice between values is needed; the first suggestions of the
    /// list are offered.
    ReplacementNotSelected { key: String, suggestions: Vec<Suggestion> },
}

/// The suggestions among the first ten values of a list: each table that
/// holds both a `value` and a `name`.
pub open spec fn suggestions_of(values: Seq<TomlView>) -> Seq<(TomlView, TomlView)>
    decreases values.len(),
{
    if values.len() == 0 {
        Seq::empty()
    } else {
        let rest = suggestions_of(values.drop_last());
        match values.last() {
            TomlView::Table(t) => match (view_get(t, "value"@), view_get(t, "name"@)) {
                (Some(v), Some(n)) => rest.push((v, n)),
                _ => rest,
            },
            _ => rest,
        }
    }
}

pub open spec fn suggestions_view(s: Seq<Suggestion>) -> Seq<(TomlView, TomlView)> {
    s.map_values(|x: Suggestion| (value_view(x.value), value_view(x.name)))
}

/// Asks nothing of the user: values come from the scope, fallbacks stand
/// in for missing values, and a choice between values fails.
pub struct NoUserInteraction {
    scope: Scope,
}

impl NoUserInteraction {
    pub closed spec fn scope(self) -> Scope {
        self.scope
    }

    pub fn new(scope: Scope) -> (res: NoUserInteraction)
        ensures
            res.scope() == scope,
    {
        NoUserInteraction { scope }
    }

    /// The suggestions offered when a value of `values` must be chosen.
    pub fn get_suggestions(&self, values: &Vec<TomlValue>) -> (res: Vec<Suggestion>)
        ensures
            suggestions_view(res@) == suggestions_of(
                values_view(values@).take(if values@.len() < 10 {
                    values@.len() as int
                } else {
                    10
                }),
            ),
    {
        let n: usize = if values.len() < 10 {
            values.len()
        } else {
            10
        };
        let ghost vv = values_view(values@);
        proof {
            lemma_values_view(values@);
        }
        let mut out: Vec<Suggestion> = Vec::new();
        let mut i: usize = 0;
        proof {
            assert(suggestions_view(out@) =~= suggestions_of(vv.take(0)));
        }
        while i < n
            invariant
                n <= values@.len(),
                vv == values_view(values@),
                vv.len() == values@.len(),
                forall|j: int| 0 <= j < values@.len() ==> #[trigger] vv[j] == value_view(values@[j]),
                i <= n,
                suggestions_view(out@) == suggestions_of(vv.take(i as int)),
            decreases n - i,
        {
            proof {
                assert(vv.take(i + 1).drop_last() =~= vv.take(i as int));
                assert(vv.take(i + 1).last() == vv[i as int]);
            }
            if let TomlValue::Table(t) = &values[i] {
                match (t.get("value"), t.get("name")) {
                    (Some(v), Some(name)) => {
                        let ghost before = out@;
                        out.push(Suggestion { value: v.duplicate(), name: name.duplicate() });
                        proof {
                            assert(suggestions_view(out@) =~= suggestions_view(before).push(
                                (value_view(*v), value_view(*name)),
                            ));
                        }
                    },
                    _ => {},
                }
            }
            i = i + 1;
        }
        out
    }

    /// The value of a variable, from the scope.
    pub fn lookup_value(&self, key: &str) -> (res: Option<SubstituteValue>)
        ensures
            offers(self.scope(), key@, res),
    {
        scope_lookup(&self.scope, key)
    }

    /// The value for a missing variable: its fallback, if it has one.
    pub fn prompt(&self, key: &str, fallback: Option<&str>) -> (res: Result<String, InteractionError>)
        ensures
            match fallback {
                Some(f) => res matches Ok(v) && v@ == f@,
                None => res matches Err(InteractionError::ReplacementNotFound { key: k })
                    && k@ == key@,
            },
    {
        match fallback {
            Some(f) => Ok(f.to_owned()),
            None => Err(InteractionError::ReplacementNotFound { key: key.to_owned() }),
        }
    }

    /// A choice of one value: it fails, with suggestions.
    pub fn select_single(&self, key: &str, values: &Vec<TomlValue>) -> (res: Result<
        String,
        InteractionError,
    >)
        ensures
            res matches Err(InteractionError::ReplacementNotSelected { key: k, suggestions })
                && k@ == key@ && suggestions_view(suggestions@) == suggestions_of(
                values_view(values@).take(if values@.len() < 10 {
                    values@.len() as int
                } else {
                    10
                }),
            ),
    {
        let suggestions = self.get_suggestions(values);
        Err(InteractionError::ReplacementNotSelected { key: key.to_owned(), suggestions })
    }

    /// A choice of several values: it fails, with suggestions.
    pub fn select_multiple(&self, key: &str, values: &Vec<TomlValue>) -> (res: Result<
        Vec<String>,
        InteractionError,
    >)
        ensures
            res matches Err(InteractionError::ReplacementNotSelected { key: k, suggestions })
                && k@ == key@ && suggestions_view(suggestions@) == suggestions_of(
                values_view(values@).take(if values@.len() < 10 {
                    values@.len() as int
                } else {
                    10
                }),
            ),
    {
        let suggestions = self.get_suggestions(values);
        Err(InteractionError::ReplacementNotSelected { key: key.to_owned(), suggestions })
    }
}

/// Asks the user for values it lacks, and remembers what the user
/// entered: a remembered value comes before the scope.
pub struct CliUserInteraction {
    scope: Scope,
    vars: TomlTable,
}

impl CliUserInteraction {
    pub closed spec fn scope(self) -> Scope {
        self.scope
    }

    /// The values entered by the user so far.
    pub closed spec fn entered(self) -> Seq<(Seq<char>, TomlView)> {
        self.vars.view_entries()
    }

    pub fn new(scope: Scope) -> (res: CliUserInteraction)
        ensures
            res.scope() == scope,
            forall|k: Seq<char>| #[trigger] view_get(res.entered(), k) is None,
    {
        CliUserInteraction { scope, vars: TomlTable::new() }
    }

    /// The value of a variable: the one the user entered, else the
    /// scope's.
    pub fn lookup_value(&self, key: &str) -> (res: Option<SubstituteValue>)
        ensures
            match view_get(self.entered(), key@) {
                Some(TomlView::String(v)) => res matches Some(SubstituteValue::Single(s)) && s@ == v,
                _ => offers(self.scope(), key@, res),
            },
    {
        match self.vars.get(key) {
            Some(TomlValue::String(v)) => Some(SubstituteValue::Single(v.clone())),
            _ => scope_lookup(&self.scope, key),
        }
    }

    /// Remembers the value the user entered for a variable.
    pub fn remember(&mut self, key: &str, value: String)
        ensures
            final(self).scope() == old(self).scope(),
            forall|k: Seq<char>|
                #[trigger] view_get(final(self).entered(), k) == if k == key@ {
                    Some(TomlView::String(value@))
                } else {
                    view_get(old(self).entered(), k)
                },
    {
        self.vars.insert(key.to_owned(), TomlValue::String(value));
    }
}

/// Whether the value of a variable is a date, to be picked from a
/// calendar: its name ends with `_date` or `Date`.
pub fn is_date_key(key: &str) -> (res: bool)
    ensures
        res == (crate::env::has_suffix(key@, "_date"@) || crate::env::has_suffix(key@, "Date"@)),
{
    ends_with(key, "_date") || ends_with(key, "Date")
}

/// Text to show: either plain text, or a value to be shown in its TOML
/// form.
#[derive(Debug, PartialEq)]
pub enum Shown {
    Text(String),
    Toml(TomlValue),
}

/// The mathematical form of `Shown`.
pub enum ShownView {
    Text(Seq<char>),
    Toml(TomlView),
}

pub open spec fn shown_view(s: Shown) -> ShownView {
    match s {
        Shown::Text(t) => ShownView::Text(t@),
        Shown::Toml(v) => ShownView::Toml(value_view(v)),
    }
}

/// The label of a value of a list in the menu: the `name` of a table
/// (a string as it is, another value in TOML form), else the value itself
/// (a string as it is, a table without a name or another value in TOML
/// form).
pub open spec fn option_label(v: TomlView) -> ShownView {
    match v {
        TomlView::Table(t) => match view_get(t, "name"@) {
            Some(TomlView::String(s)) => ShownView::Text(s),
            Some(o) => ShownView::Toml(o),
            None => ShownView::Toml(v),
        },
        TomlView::String(s) => ShownView::Text(s),
        o => ShownView::Toml(o),
    }
}

/// What a chosen value of a list inserts: the `value` of a table (a string
/// as it is, another value in TOML form), nothing for a table without one,
/// else the value itself (a string as it is, another value in TOML form).
pub open spec fn option_value(v: TomlView) -> Option<ShownView> {
    match v {
        TomlView::Table(t) => match view_get(t, "value"@) {
            Some(TomlView::String(s)) => Some(ShownView::Text(s)),
            Some(o) => Some(ShownView::Toml(o)),
            None => None,
        },
        TomlView::String(s) => Some(ShownView::Text(s)),
        o => Some(ShownView::Toml(o)),
    }
}

fn label_of(v: &TomlValue) -> (res: Shown)
    ensures
        shown_view(res) == option_label(value_view(*v)),
{
    match v {
        TomlValue::Table(t) => match t.get("name") {
            Some(TomlValue::String(s)) => Shown::Text(s.clone()),
            Some(o) => Shown::Toml(o.duplicate()),
            None => Shown::Toml(v.duplicate()),
        },
        TomlValue::String(s) => Shown::Text(s.clone()),
        o => Shown::Toml(o.duplicate()),
    }
}

/// The labels of the values of a list, in order, for the menu.
pub fn values_to_list_options(values: &Vec<TomlValue>) -> (res: Vec<Shown>)
    ensures
        res@.len() == values@.len(),
        forall|i: int|
            0 <= i < values@.len() ==> shown_view(#[trigger] res@[i]) == option_label(
                value_view(values@[i]),
            ),
{
    let mut out: Vec<Shown> = Vec::new();
    let mut i: usize = 0;
    while i < values.len()
        invariant
            i <= values@.len(),
            out@.len() == i,
            forall|j: int|
                0 <= j < i ==> shown_view(#[trigger] out@[j]) == option_label(value_view(values@[j])),
        decreases values@.len() - i,
    {
        out.push(label_of(&values[i]));
        i = i + 1;
    }
    out
}

/// What the value chosen at `index` inserts for the variable `key`.
pub fn list_option_to_string(key: &str, values: &Vec<TomlValue>, index: usize) -> (res: Result<
    Shown,
    InteractionError,
>)
    requires
        index < values@.len(),
    ensures
        match option_value(value_view(values@[index as int])) {
            Some(s) => res matches Ok(r) && shown_view(r) == s,
            None => res matches Err(InteractionError::ReplacementNotFound { key: k }) && k@ == key@,
        },
{
    match &values[index] {
        TomlValue::Table(t) => match t.get("value") {
            Some(TomlValue::String(s)) => Ok(Shown::Text(s.clone())),
            Some(o) => Ok(Shown::Toml(o.duplicate())),
            None => Err(InteractionError::ReplacementNotFound { key: key.to_owned() }),
        },
        TomlValue::String(s) => Ok(Shown::Text(s.clone())),
        o => Ok(Shown::Toml(o.duplicate())),
    }
}

/// What the values chosen at `indices` insert, in the order chosen; the
/// first chosen table without a `value` fails the whole.
pub fn select_replacement_multiple(key: &str, values: &Vec<TomlValue>, indices: &Vec<usize>) -> (res:
    Result<Vec<Shown>, InteractionError>)
    requires
        forall|i: int| 0 <= i < indices@.len() ==> #[trigger] indices@[i] < values@.len(),
    ensures
        (exists|i: int|
            0 <= i < indices@.len() && option_value(value_view(values@[#[trigger] indices@[i] as int]))
                is None) <==> res is Err,
        res matches Err(e) ==> e matches InteractionError::ReplacementNotFound { key: k } && k@
            == key@,
        res matches Ok(out) ==> out@.len() == indices@.len() && forall|i: int|
            0 <= i < indices@.len() ==> Some(shown_view(#[trigger] out@[i])) == option_value(
                value_view(values@[indices@[i] as int]),
            ),
{
    let mut out: Vec<Shown> = Vec::new();
    let mut i: usize = 0;
    while i < indices.len()
        invariant
            forall|i: int| 0 <= i < indices@.len() ==> #[trigger] indices@[i] < values@.len(),
            i <= indices@.len(),
            out@.len() == i,
            forall|j: int|
                0 <= j < i ==> Some(shown_view(#[trigger] out@[j])) == option_value(
                    value_view(values@[indices@[j] as int]),
                ),
        decreases indices@.len() - i,
    {
        match list_option_to_string(key, values, indices[i]) {
            Ok(s) => out.push(s),
            Err(e) => {
                return Err(e);
            },
        }
        i = i + 1;
    }
    proof {
        assert forall|j: int| 0 <= j < indices@.len() implies option_value(
            value_view(values@[#[trigger] indices@[j] as int]),
        ) is Some by {
            assert(Some(shown_view(out@[j])) == option_value(value_view(values@[indices@[j] as int])));
        }
    }
    Ok(out)
}

/// A list value given as a table with a `name` and a `value` shows its
/// name in the menu and, once chosen, inserts its value.
pub proof fn lemma_name_shown_value_inserted(t: Seq<(Seq<char>, TomlView)>, n: Seq<char>, v: Seq<char>)
    requires
        view_get(t, "name"@) == Some(TomlView::String(n)),
        view_get(t, "value"@) == Some(TomlView::String(v)),
    ensures
        option_label(TomlView::Table(t)) == ShownView::Text(n),
        option_value(TomlView::Table(t)) == Some(ShownView::Text(v)),
{
}

} // verus!
