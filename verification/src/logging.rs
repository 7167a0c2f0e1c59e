use vstd::prelude::*;
use vstd::string::*;

use crate::codec::{decimal_string, decimal_text};
use crate::text::str_eq;

verus! {

/// Severity of a log record, most severe first.
#[derive(Clone, Copy, Debug, PartialEq, Eq, Structural)]
pub enum LogLevel {
    Error,
    Warn,
    Info,
    Debug,
    Trace,
}

/// The syslog priority that a record of the given level is reported with.
pub open spec fn priority_of(level: LogLevel) -> u8 {
    match level {
        LogLevel::Error => 3,
        LogLevel::Warn => 4,
        LogLevel::Info => 6,
        LogLevel::Debug => 7,
        LogLevel::Trace => 7,
    }
}

/// Maps a level to its syslog priority.
pub fn syslog_priority(level: LogLevel) -> (p: u8)
    ensures
        p == priority_of(level),
{
    match level {
        LogLevel::Error => 3,
        LogLevel::Warn => 4,
        LogLevel::Info => 6,
        LogLevel::Debug => 7,
        LogLevel::Trace => 7,
    }
}

/// A record in syslog form: the priority in angle brackets, the target, a
/// colon and a space, the message, and a line feed.
pub open spec fn syslog_text(level: LogLevel, target: Seq<char>, message: Seq<char>) -> Seq<char> {
    "<"@ + decimal_text(priority_of(level) as nat) + ">"@ + target + ": "@ + message + "\n"@
}

/// Formats a record for a service manager that reads syslog priorities.
pub fn syslog_format(level: LogLevel, target: &str, message: &str) -> (line: String)
    ensures
        line@ == syslog_text(level, target@, message@),
{
    let priority = decimal_string(syslog_priority(level) as u64);
    let mut line = String::from_str("<");
    line.append(priority.as_str());
    line.append(">");
    line.append(target);
    line.append(": ");
    line.append(message);
    line.append("\n");
    line
}

/// How log records are written.
#[derive(Clone, Copy, Debug, PartialEq, Eq, Structural)]
pub enum LogFormat {
    /// One syslog line per record, for a service manager.
    Syslog,
    /// Timestamped and coloured, for a person at a terminal.
    Human,
}

/// The filters that apply where the environment names none.
pub open spec fn default_filters() -> Seq<char> {
    "debug"@ + ","@ + "mdns_sd=off"@ + ","@ + "tower_http::trace::on_request=info"@ + ","@
        + "axum::rejection=trace"@
}

/// Joins the default filters with commas.
pub fn default_log_filters() -> (filters: String)
    ensures
        filters@ == default_filters(),
{
    let mut filters = String::from_str("debug");
    filters.append(",");
    filters.append("mdns_sd=off");
    filters.append(",");
    filters.append("tower_http::trace::on_request=info");
    filters.append(",");
    filters.append("axum::rejection=trace");
    filters
}

/// How logging is to be set up.
#[derive(Debug, PartialEq, Eq)]
pub struct LogSetup {
    pub format: LogFormat,
    pub filters: String,
}

/// The process runs under a service manager exactly when the manager's
/// variable names this very process, in decimal digits.
pub open spec fn runs_as_service(exec_pid: Option<Seq<char>>, pid: u32) -> bool {
    exec_pid == Some(decimal_text(pid as nat))
}

/// Decides how logging is set up, from the filters that the environment
/// names, the process id that a service manager announced, and the id of this
/// process. The filters of the environment are taken as they are, and the
/// defaults where there are none. Syslog lines are written exactly when the
/// announced id is this process's own.
pub fn init_logging(rust_log: Option<String>, exec_pid: Option<&str>, pid: u32) -> (setup:
    LogSetup)
    ensures
        setup.filters@ == match rust_log {
            Some(f) => f@,
            None => default_filters(),
        },
        setup.format == if runs_as_service(
            match exec_pid {
                Some(p) => Some(p@),
                None => None,
            },
            pid,
        ) {
            LogFormat::Syslog
        } else {
            LogFormat::Human
        },
{
    let filters = match rust_log {
        Some(f) => f,
        None => default_log_filters(),
    };
    let own = decimal_string(pid as u64);
    let format = match exec_pid {
        Some(p) => if str_eq(p, own.as_str()) {
            LogFormat::Syslog
        } else {
            LogFormat::Human
        },
        None => LogFormat::Human,
    };
    LogSetup { format, filters }
}

} // verus!
