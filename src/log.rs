//! Log line formatting: a level label, a colon, and the message.
use vstd::prelude::*;

verus! {

/// Severity of a log line; a child's output is labelled with the child's name.
#[derive(Debug, Clone, PartialEq, Eq)]
pub enum Level {
    Info,
    Child(String),
    Error,
    Warn,
}

/// The label a line of level `l` starts with.
pub open spec fn label(l: Level) -> Seq<char> {
    match l {
        Level::Info => seq!['I', 'N', 'F', 'O'],
        Level::Child(s) => s@,
        Level::Error => seq!['E', 'R', 'R', 'O', 'R'],
        Level::Warn => seq!['W', 'A', 'R', 'N'],
    }
}

/// The line `<label>: <message>`.
pub open spec fn log_line(l: Level, message: Seq<char>) -> Seq<char> {
    label(l) + seq![':', ' '] + message
}

impl Level {
    /// The label of this level.
    pub fn label(&self) -> (r: String)
        ensures
            r@ == label(*self),
    {
        proof {
            reveal_strlit("INFO");
            reveal_strlit("ERROR");
            reveal_strlit("WARN");
            assert("INFO"@ =~= seq!['I', 'N', 'F', 'O']);
            assert("ERROR"@ =~= seq!['E', 'R', 'R', 'O', 'R']);
            assert("WARN"@ =~= seq!['W', 'A', 'R', 'N']);
        }
        match self {
            Level::Info => String::from_str("INFO"),
            Level::Child(s) => s.clone(),
            Level::Error => String::from_str("ERROR"),
            Level::Warn => String::from_str("WARN"),
        }
    }
}

/// Formats lines at a fixed level (or `Info` when none is set).
pub struct Logger {
    level: Option<Level>,
}

impl Logger {
    /// A logger at `level`.
    pub fn new(level: Option<Level>) -> (r: Self)
        ensures
            r.level() == level,
    {
        Logger { level }
    }

    /// The level this logger writes at, if one was set.
    pub closed spec fn level(&self) -> Option<Level> {
        self.level
    }

    /// The line `<label>: <message>` for a message at `level`.
    pub fn fmt(level: Level, message: &str) -> (r: String)
        ensures
            r@ == log_line(level, message@),
    {
        Logger::format_at(&level, message)
    }

    fn format_at(level: &Level, message: &str) -> (r: String)
        ensures
            r@ == log_line(*level, message@),
    {
        proof {
            reveal_strlit(": ");
            assert(": "@ =~= seq![':', ' ']);
        }
        let mut r = level.label();
        r.append(": ");
        r.append(message);
        r
    }

    /// The line for `message` at this logger's level, `Info` when it has none.
    pub fn line(&self, message: &str) -> (r: String)
        ensures
            r@ == log_line(
                match self.level() {
                    Some(l) => l,
                    None => Level::Info,
                },
                message@,
            ),
    {
        match &self.level {
            Some(l) => Logger::format_at(l, message),
            None => Logger::format_at(&Level::Info, message),
        }
    }
}

} // verus!
