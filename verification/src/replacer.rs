use crate::scope::{scalar_text, scalar_to_string};
use crate::value::{duplicate_values, values_view, view_get, TomlTable, TomlValue, TomlView};
use vstd::prelude::*;
use vstd::string::*;

verus! {

/// Variables for substitution, looked up without asking the user.
pub struct Env {
    table: TomlTable,
}

/// Why a variable could not be substituted.
#[derive(Debug, PartialEq)]
pub enum SubstituteError {
    /// The variable is a list of values to choose from.
    MultipleValuesFound { key: String, values: Vec<TomlValue> },
    /// The variable holds a table or a datetime.
    TypeNotSupported,
    /// No such variable, with the fallback given in the template, if any.
    ValueNotFound { key: String, fallback: Option<String> },
}

impl Env {
    /// The variables, in key order.
    pub closed spec fn vars(self) -> Seq<(Seq<char>, TomlView)> {
        self.table.view_entries()
    }

    /// Variables taken from `env`.
    pub fn new(env: TomlTable) -> (res: Env)
        ensures
            res.vars() == env.view_entries(),
    {
        Env { table: env }
    }

    /// The text that replaces `key`.
    pub fn find_replacement(&self, key: &str, fallback: Option<&str>) -> (res: Result<
        String,
        SubstituteError,
    >)
        ensures
            match view_get(self.vars(), key@) {
                None => res matches Err(SubstituteError::ValueNotFound { key: k, fallback: f })
                    && k@ == key@ && match fallback {
                    Some(fb) => f matches Some(g) && g@ == fb@,
                    None => f is None,
                },
                Some(TomlView::Array(a)) => res matches Err(
                    SubstituteError::MultipleValuesFound { key: k, values },
                ) && k@ == key@ && values_view(values@) == a,
                Some(v) => match scalar_text(v) {
                    Some(t) => res matches Ok(s) && s@ == t,
                    None => res matches Err(SubstituteError::TypeNotSupported),
                },
            },
    {
        match self.table.get(key) {
            Some(TomlValue::Array(arr)) => Err(
                SubstituteError::MultipleValuesFound { key: key.to_owned(), values: duplicate_values(arr) },
            ),
            Some(v) => match scalar_to_string(v) {
                Some(s) => Ok(s),
                None => Err(SubstituteError::TypeNotSupported),
            },
            None => Err(
                SubstituteError::ValueNotFound {
                    key: key.to_owned(),
                    fallback: match fallback {
                        Some(f) => Some(f.to_owned()),
                        None => None,
                    },
                },
            ),
        }
    }
}

} // verus!
