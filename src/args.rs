use vstd::prelude::*;

verus! {

/// Verbosity of the exporter's log output.
#[derive(Debug, Clone, Copy, PartialEq, Eq, Structural)]
pub enum LogLevel {
    Error,
    Warn,
    Info,
    Debug,
    Trace,
}

/// Why the command line was refused.
#[derive(Debug, Clone, Copy, PartialEq, Eq, Structural)]
pub enum ArgsError {
    /// No save directory was given.
    NoArguments,
    /// The given path is not a directory.
    NotADirectory,
    /// The second argument names no log level.
    BadLogLevel,
}

/// `s` spells the lowercase ASCII word `word`, letter by letter in either case.
pub open spec fn spells_ignoring_case(s: Seq<char>, word: Seq<char>) -> bool {
    &&& s.len() == word.len()
    &&& forall|i: int|
        0 <= i < s.len() ==> (#[trigger] s[i] == word[i] || s[i] as u32 + 32 == word[i] as u32)
}

/// The level a word names: its name in any ASCII case.
pub open spec fn level_named(s: Seq<char>) -> Option<LogLevel> {
    if spells_ignoring_case(s, "error"@) {
        Some(LogLevel::Error)
    } else if spells_ignoring_case(s, "warn"@) {
        Some(LogLevel::Warn)
    } else if spells_ignoring_case(s, "info"@) {
        Some(LogLevel::Info)
    } else if spells_ignoring_case(s, "debug"@) {
        Some(LogLevel::Debug)
    } else if spells_ignoring_case(s, "trace"@) {
        Some(LogLevel::Trace)
    } else {
        None
    }
}

/// Relies on log::Level's `FromStr`: it accepts exactly the level names
/// "error", "warn", "info", "debug" and "trace", compared ignoring ASCII case.
#[verifier::external_body]
fn parse_level(s: &str) -> (r: Option<LogLevel>)
    ensures
        r == level_named(s@),
{
    match <log::Level as std::str::FromStr>::from_str(s) {
        Ok(log::Level::Error) => Some(LogLevel::Error),
        Ok(log::Level::Warn) => Some(LogLevel::Warn),
        Ok(log::Level::Info) => Some(LogLevel::Info),
        Ok(log::Level::Debug) => Some(LogLevel::Debug),
        Ok(log::Level::Trace) => Some(LogLevel::Trace),
        Err(_) => None,
    }
}

/// Accepts the save directory when it is a directory.
pub fn check_path(path: String, is_dir: bool) -> (r: Result<String, ArgsError>)
    ensures
        r == if is_dir {
            Ok::<String, ArgsError>(path)
        } else {
            Err(ArgsError::NotADirectory)
        },
{
    if is_dir {
        Ok(path)
    } else {
        Err(ArgsError::NotADirectory)
    }
}

/// Reads the command line (without the program name): the save directory,
/// then an optional log level, `Info` when absent; further arguments are
/// ignored. `path_is_dir` tells whether the first argument is a directory.
pub fn handle_args(args: Vec<String>, path_is_dir: bool) -> (r: Result<(String, LogLevel), ArgsError>)
    ensures
        args@.len() == 0 ==> r == Err::<(String, LogLevel), ArgsError>(ArgsError::NoArguments),
        args@.len() > 0 && !path_is_dir ==> r == Err::<(String, LogLevel), ArgsError>(
            ArgsError::NotADirectory,
        ),
        args@.len() == 1 && path_is_dir ==> r == Ok::<(String, LogLevel), ArgsError>(
            (args@[0], LogLevel::Info),
        ),
        args@.len() >= 2 && path_is_dir ==> r == match level_named(args@[1]@) {
            Some(l) => Ok::<(String, LogLevel), ArgsError>((args@[0], l)),
            None => Err(ArgsError::BadLogLevel),
        },
{
    if args.len() == 0 {
        return Err(ArgsError::NoArguments);
    }
    let path = check_path(args[0].clone(), path_is_dir)?;
    if args.len() == 1 {
        Ok((path, LogLevel::Info))
    } else {
        match parse_level(args[1].as_str()) {
            Some(level) => Ok((path, level)),
            None => Err(ArgsError::BadLogLevel),
        }
    }
}

} // verus!
