//! Verified core of hitman, a command line tool for hitting API endpoints.
//!
//! The library holds the logic of the tool: the model of configuration
//! values, the rules by which configuration files are merged and variables
//! are looked up, the extraction of values from responses, path resolution
//! of request files, the reading of request heads and the assembly of
//! requests, argument parsing, the work splitting used by batch mode, the
//! answers given without a user, and the decisions of the interactive
//! widgets and screen.  Reading files, talking to the network and drawing the
//! terminal are left to the program around it.

pub mod cli;
pub mod datepicker;
pub mod env;
pub mod extract;
pub mod flurry;
pub mod json;
pub mod keymap;
pub mod logging;
pub mod monitor;
pub mod output;
pub mod path;
pub mod prompt;
pub mod replacer;
pub mod request;
pub mod resolve;
pub mod scope;
pub mod select;
pub mod text;
pub mod toml_text;
pub mod tui;
pub mod util;
pub mod value;
pub mod widgets;
