use crate::text::push_text;
use vstd::prelude::*;

verus! {

/// How grave a line of the log is.
#[derive(Debug, PartialEq, Eq, Clone, Copy, Structural)]
pub enum LogLevel {
    Info,
    Warn,
    Error,
}

/// The name of a level as the log writes it.
pub open spec fn level_name(level: LogLevel) -> Seq<char> {
    match level {
        LogLevel::Info => "INFO"@,
        LogLevel::Warn => "WARN"@,
        LogLevel::Error => "ERROR"@,
    }
}

/// A line of the log: the name of the thread and the level, each in
/// brackets, a dash, and what is to be said.
pub open spec fn log_line(thread_name: Seq<char>, level: LogLevel, value: Seq<char>) -> Seq<char> {
    "["@ + thread_name + "] ["@ + level_name(level) + "] - "@ + value
}

/// The name under which a thread without a name is logged.
pub const UNNAMED_THREAD: &'static str = "unnamed-thread";

/// Writes a line of the log for a thread, a level and what is to be said.
pub fn format_line(thread_name: &str, level: LogLevel, value: &str) -> (line: String)
    ensures
        line@ == log_line(thread_name@, level, value@),
{
    let mut line = String::new();
    push_text(&mut line, "[");
    push_text(&mut line, thread_name);
    push_text(&mut line, "] [");
    match level {
        LogLevel::Info => push_text(&mut line, "INFO"),
        LogLevel::Warn => push_text(&mut line, "WARN"),
        LogLevel::Error => push_text(&mut line, "ERROR"),
    }
    push_text(&mut line, "] - ");
    push_text(&mut line, value);
    assert(line@ =~= log_line(thread_name@, level, value@));
    line
}

} // verus!
