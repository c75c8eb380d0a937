use crate::text::{find_char, first_index_of, lemma_first_index_of, trim, trim_spec};
use vstd::prelude::*;
use vstd::string::*;

verus! {

/// The command line of the tool.
pub struct Args {
    /// The name of a request file to execute and exit.
    /// Omit this argument to run an interactive prompt.
    pub name: Option<String>,
    /// Optional Name=Value pairs to substitute in the request.
    /// These will override values in the config file.
    pub options: Vec<(String, String)>,
    /// When running interactively (no name argument specified),
    /// repeat asking for requests until cancelled.
    pub repeat: bool,
    /// Select a target from the config file, by name or from a menu.
    pub select: Option<Option<String>>,
    /// Use this target instead of the selected one.
    pub target: Option<String>,
    /// Show more output
    pub verbose: bool,
    /// Show no output except the returned data
    pub quiet: bool,
    /// Do not ask questions
    pub non_interactive: bool,
    /// Number of requests to send in a flurry
    pub flurry: Option<i32>,
    /// Number of parallel connections for a flurry
    pub connections: Option<i32>,
    /// Repeat the request every given number of seconds
    pub monitor: Option<i32>,
    /// Watch file for changes (implies non-interactive)
    pub watch: bool,
}

/// Whether the tool may ask questions: not with `--non-interactive`, not
/// while watching files (which implies non-interactive), and not during a
/// flurry, where prompts are not supported.
pub fn interactive_mode(args: &Args) -> (res: bool)
    ensures
        res == !(args.non_interactive || args.watch || args.flurry is Some),
{
    !(args.non_interactive || args.watch || args.flurry.is_some())
}

/// Why a `Name=Value` argument was refused.
pub enum KeyValueError {
    /// The argument begins with `=`.
    EmptyKey(String),
    /// The argument holds no `=`.
    NoSeparator(String),
}

impl KeyValueError {
    /// The error message shown to the user.
    pub fn message(&self) -> (res: String)
        ensures
            res@ == match self {
                KeyValueError::EmptyKey(s) => "empty key in `"@ + s@ + "`"@,
                KeyValueError::NoSeparator(s) => "no `=` found in `"@ + s@ + "`"@,
            },
    {
        match self {
            KeyValueError::EmptyKey(s) => String::from_str("empty key in `").concat(s.as_str()).concat(
                "`",
            ),
            KeyValueError::NoSeparator(s) => String::from_str("no `=` found in `").concat(
                s.as_str(),
            ).concat("`"),
        }
    }
}

/// Parses a single `Name=Value` pair.
pub fn parse_key_val(s: &str) -> (res: Result<(String, String), KeyValueError>)
    ensures
        match first_index_of(s@, '=') {
            Some(pos) => if pos == 0 {
                res matches Err(KeyValueError::EmptyKey(e)) && e@ == s@
            } else {
                res matches Ok((k, v)) && k@ == trim_spec(s@.take(pos)) && v@ == trim_spec(
                    s@.skip(pos + 1),
                )
            },
            None => res matches Err(KeyValueError::NoSeparator(e)) && e@ == s@,
        },
{
    match find_char(s, '=') {
        Some(0) => Err(KeyValueError::EmptyKey(s.to_owned())),
        Some(pos) => {
            proof {
                lemma_first_index_of(s@, '=');
            }
            let n = s.unicode_len();
            let key = trim(s.substring_char(0, pos));
            let value = trim(s.substring_char(pos + 1, n));
            proof {
                assert(s@.subrange(0, pos as int) =~= s@.take(pos as int));
                assert(s@.subrange(pos + 1, n as int) =~= s@.skip(pos + 1));
            }
            Ok((key, value))
        },
        None => Err(KeyValueError::NoSeparator(s.to_owned())),
    }
}

} // verus!
