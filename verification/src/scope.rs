use crate::text::{integer_text, integer_to_string};
use crate::value::{
    duplicate_values, value_view, values_view, view_get, TomlTable, TomlValue, TomlView,
};
use vstd::prelude::*;
use vstd::string::*;

verus! {

/// The variables in scope for a request.
pub struct Scope {
    table: TomlTable,
}

/// What a variable of the scope gives.
#[derive(Debug, PartialEq)]
pub enum Replacement {
    /// A single value, as text.
    Value(String),
    /// The scope holds no such variable.
    ValueNotFound { key: String },
    /// The variable is a list of values to choose from.
    MultipleValuesFound { key: String, values: Vec<TomlValue> },
}

/// A variable that the scope holds in a form that cannot be substituted.
#[derive(Debug, PartialEq)]
pub enum ScopeError {
    TypeNotSupported,
}

impl ScopeError {
    /// The error message shown to the user.
    pub fn message(&self) -> (res: String)
        ensures
            res@ == "Type not supported"@,
    {
        String::from_str("Type not supported")
    }
}

/// The text that a single value is substituted with, if it is a single
/// value.
pub open spec fn scalar_text(v: TomlView) -> Option<Seq<char>> {
    match v {
        TomlView::String(s) => Some(s),
        TomlView::Integer(i) => Some(integer_text(i as int)),
        TomlView::Float(f) => Some(f),
        TomlView::Boolean(b) => Some(
            if b {
                "true"@
            } else {
                "false"@
            },
        ),
        _ => None,
    }
}

/// A single value is substituted with its text: a string as it is, an
/// integer in decimal as Rust prints it, a float by its text, a boolean as
/// `true` exactly when it is true and `false` exactly when it is false (so two booleans with the same text are the same); an array,
/// a table or a datetime is no single value.
pub proof fn lemma_scalar_text(v: TomlView, w: TomlView)
    ensures
        v is String ==> scalar_text(v) == Some(v->String_0),
        v is Integer ==> scalar_text(v) == Some(integer_text(v->Integer_0 as int)),
        v is Float ==> scalar_text(v) == Some(v->Float_0),
        v is Boolean ==> ((scalar_text(v) == Some("true"@)) == v->Boolean_0 && (scalar_text(v)
            == Some("false"@)) == !v->Boolean_0),
        (v is Boolean && w is Boolean && scalar_text(v) == scalar_text(w)) ==> v == w,
        (v is Array || v is Table || v is Datetime) ==> scalar_text(v) is None,
{
    reveal_strlit("true");
    reveal_strlit("false");
    assert("true"@ != "false"@) by {
        assert("true"@.len() != "false"@.len());
    }
}

/// The text of a single value, for strings, integers, floats and booleans.
pub fn scalar_to_string(v: &TomlValue) -> (res: Option<String>)
    ensures
        match res {
            Some(s) => scalar_text(value_view(*v)) == Some(s@),
            None => scalar_text(value_view(*v)) is None,
        },
{
    match v {
        TomlValue::String(s) => Some(s.clone()),
        TomlValue::Integer(i) => Some(integer_to_string(*i)),
        TomlValue::Float(f) => Some(f.clone()),
        TomlValue::Boolean(b) => Some(
            if *b {
                String::from_str("true")
            } else {
                String::from_str("false")
            },
        ),
        _ => None,
    }
}

impl From<TomlTable> for Scope {
    fn from(table: TomlTable) -> (res: Scope) {
        Scope { table }
    }
}

impl vstd::std_specs::convert::FromSpecImpl<TomlTable> for Scope {
    open spec fn obeys_from_spec() -> bool {
        true
    }

    closed spec fn from_spec(table: TomlTable) -> Scope {
        Scope { table }
    }
}

impl Scope {
    /// The variables, in key order.
    pub closed spec fn vars(self) -> Seq<(Seq<char>, TomlView)> {
        self.table.view_entries()
    }

    /// A scope holding the variables of `table`.
    pub fn new(table: TomlTable) -> (res: Scope)
        ensures
            res.vars() == table.view_entries(),
    {
        Scope { table }
    }

    /// The variables of the scope.
    pub fn table(&self) -> (res: &TomlTable)
        ensures
            res.view_entries() == self.vars(),
    {
        &self.table
    }

    /// Looks up a variable.
    pub fn lookup(&self, key: &str) -> (res: Result<Replacement, ScopeError>)
        ensures
            match view_get(self.vars(), key@) {
                None => res matches Ok(Replacement::ValueNotFound { key: k }) && k@ == key@,
                Some(TomlView::Array(a)) => res matches Ok(
                    Replacement::MultipleValuesFound { key: k, values },
                ) && k@ == key@ && values_view(values@) == a,
                Some(v) => match scalar_text(v) {
                    Some(t) => res matches Ok(Replacement::Value(s)) && s@ == t,
                    None => res matches Err(ScopeError::TypeNotSupported),
                },
            },
    {
        match self.table.get(key) {
            None => Ok(Replacement::ValueNotFound { key: key.to_owned() }),
            Some(TomlValue::Array(arr)) => Ok(
                Replacement::MultipleValuesFound { key: key.to_owned(), values: duplicate_values(arr) },
            ),
            Some(v) => match scalar_to_string(v) {
                Some(s) => Ok(Replacement::Value(s)),
                None => Err(ScopeError::TypeNotSupported),
            },
        }
    }

    /// The `_extract` section: how values are taken from responses.
    pub fn extract(&self) -> (res: Option<&TomlValue>)
        ensures
            match res {
                Some(v) => view_get(self.vars(), "_extract"@) == Some(value_view(*v)),
                None => view_get(self.vars(), "_extract"@) is None,
            },
    {
        self.table.get("_extract")
    }
}

} // verus!
