use vstd::prelude::*;
use vstd::string::*;

verus! {

/// The severity of a log message, from the most to the least severe.
#[derive(Debug, PartialEq, Eq, Clone, Copy)]
pub enum Level {
    Error,
    Warn,
    Info,
    Debug,
    Trace,
}

/// The rank of a level: the more severe, the lower.
pub open spec fn rank(l: Level) -> int {
    match l {
        Level::Error => 1,
        Level::Warn => 2,
        Level::Info => 3,
        Level::Debug => 4,
        Level::Trace => 5,
    }
}

fn rank_of(l: Level) -> (res: u8)
    ensures
        res == rank(l),
{
    match l {
        Level::Error => 1,
        Level::Warn => 2,
        Level::Info => 3,
        Level::Debug => 4,
        Level::Trace => 5,
    }
}

/// The most detailed level that is logged: errors alone when quiet,
/// warnings in batch mode (flurry or monitor), debugging when verbose,
/// else information.
pub fn log_level(verbose: bool, quiet: bool, batch: bool) -> (res: Level)
    ensures
        res == if quiet {
            Level::Error
        } else if batch {
            Level::Warn
        } else if verbose {
            Level::Debug
        } else {
            Level::Info
        },
{
    if quiet {
        Level::Error
    } else if batch {
        Level::Warn
    } else if verbose {
        Level::Debug
    } else {
        Level::Info
    }
}

/// Whether a message of level `level` is logged when `max` is the most
/// detailed level logged.
pub fn enabled(level: Level, max: Level) -> (res: bool)
    ensures
        res == (rank(level) <= rank(max)),
{
    rank_of(level) <= rank_of(max)
}

/// The color of a logged line.
#[derive(Debug, PartialEq, Eq, Clone, Copy)]
pub enum LineColor {
    Cyan,
    Blue,
    Yellow,
}

/// The color of a logged line, by its first character: `<` (a response)
/// cyan, `>` (a request) blue, `#` (a remark) yellow; other lines keep
/// the terminal's color.
pub fn line_color(msg: &str) -> (res: Option<LineColor>)
    ensures
        res == if msg@.len() == 0 {
            None
        } else if msg@[0] == '<' {
            Some(LineColor::Cyan)
        } else if msg@[0] == '>' {
            Some(LineColor::Blue)
        } else if msg@[0] == '#' {
            Some(LineColor::Yellow)
        } else {
            None
        },
{
    if msg.unicode_len() == 0 {
        return None;
    }
    let c = msg.get_char(0);
    if c == '<' {
        Some(LineColor::Cyan)
    } else if c == '>' {
        Some(LineColor::Blue)
    } else if c == '#' {
        Some(LineColor::Yellow)
    } else {
        None
    }
}

} // verus!
