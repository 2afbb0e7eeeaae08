//! Log levels and the lines the log prints.
use vstd::prelude::*;
use crate::text::{concat_all, join_strs};

verus! {

/// Color constants.
pub const RED: &'static str = "\x1b[31m";
pub const GREEN: &'static str = "\x1b[32m";
pub const YELLOW: &'static str = "\x1b[33m";
pub const PINK: &'static str = "\x1b[35m";
pub const RESET: &'static str = "\x1b[0m";
pub const BOLD: &'static str = "\x1b[1m";

/// Log levels for printing messages.
pub enum LogLevel {
    Success,
    Error,
    Warning,
    Info,
    CommandOutput,
}

/// A line for the log, and whether it goes to standard error.
pub struct LogLine {
    pub text: String,
    pub to_stderr: bool,
}

/// The label and color of a level.
pub open spec fn level_style(level: LogLevel) -> (Seq<char>, Seq<char>) {
    match level {
        LogLevel::Success => ("SUCCESS"@, GREEN@),
        LogLevel::Error => ("ERROR"@, RED@),
        LogLevel::Warning => ("WARNING"@, YELLOW@),
        LogLevel::Info => ("INFO"@, BOLD@),
        LogLevel::CommandOutput => ("CMD OUT"@, PINK@),
    }
}

/// Central logging function: the line to print for a message, colored and
/// labelled by its level; errors and warnings go to standard error.
pub fn print_log(level: LogLevel, message: &str) -> (r: LogLine)
    ensures
        r.text@ == level_style(level).1 + "["@ + level_style(level).0 + "]"@ + RESET@ + " "@ + message@,
        r.to_stderr == (level is Error || level is Warning),
{
    let (prefix, color): (&str, &str) = match level {
        LogLevel::Success => ("SUCCESS", GREEN),
        LogLevel::Error => ("ERROR", RED),
        LogLevel::Warning => ("WARNING", YELLOW),
        LogLevel::Info => ("INFO", BOLD),
        LogLevel::CommandOutput => ("CMD OUT", PINK),
    };
    let parts = vec![color, "[", prefix, "]", RESET, " ", message];
    let text = join_strs(&parts);
    proof {
        let ps = parts@.map_values(|p: &str| p@);
        assert(ps =~= seq![color@, "["@, prefix@, "]"@, RESET@, " "@, message@]);
        assert(concat_all(ps) =~= color@ + "["@ + prefix@ + "]"@ + RESET@ + " "@ + message@) by {
            reveal_with_fuel(concat_all, 8);
        }
    }
    let to_stderr = match level {
        LogLevel::Error | LogLevel::Warning => true,
        _ => false,
    };
    LogLine { text, to_stderr }
}

} // verus!
