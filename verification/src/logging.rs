//! Log-record formatting and the logging decisions: the record line
//! layout, the log file path choice, and the level selection between the
//! command line and the configuration.
//!
//! The logger backend (appenders, rotation, the clock) lives outside this
//! crate; the rendered timestamp text is handed in.

use vstd::prelude::*;
use vstd::string::StringExecFns;

use crate::config::{spec_log_level_of, string_to_log_level, LogLevel};
use crate::strs::{spec_dec_digits, u64_text};

verus! {

/// Whether timestamps are rendered in local time or UTC.
#[derive(Debug, Clone, Copy, PartialEq, Eq, Structural)]
pub enum TimeKind {
    Local,
    Utc,
}

/// The log record formatter: the level from which line numbers are shown,
/// and the timestamp flavour.
#[derive(Debug, Clone, Copy)]
pub struct LogFormat {
    pub display_line_level: LogLevel,
    pub time_type: TimeKind,
}

impl LogFormat {
    pub fn new() -> (r: Self)
        ensures
            r.display_line_level == LogLevel::Debug,
            r.time_type == TimeKind::Local,
    {
        Self { display_line_level: LogLevel::Debug, time_type: TimeKind::Local }
    }

    pub fn set_display_line_level(self, level: LogLevel) -> (r: Self)
        ensures
            r.display_line_level == level,
            r.time_type == self.time_type,
    {
        Self { display_line_level: level, ..self }
    }
}

impl Default for LogFormat {
    fn default() -> (r: Self)
        ensures
            r.display_line_level == LogLevel::Debug,
            r.time_type == TimeKind::Local,
    {
        Self::new()
    }
}

/// `n` spaces.
pub open spec fn spec_spaces(n: int) -> Seq<char>
    decreases n,
{
    if n <= 0 {
        Seq::empty()
    } else {
        spec_spaces(n - 1) + seq![' ']
    }
}

/// `s` padded on the right with spaces to at least `width` characters.
pub open spec fn spec_pad_right(s: Seq<char>, width: int) -> Seq<char> {
    s + spec_spaces(width - s.len())
}

/// Pads `s` on the right with spaces to at least `width` characters.
pub fn pad_right(s: &str, width: usize) -> (r: String)
    ensures
        r@ == spec_pad_right(s@, width as int),
{
    let mut out = s.to_owned();
    let len = s.unicode_len();
    if len >= width {
        assert(out@ =~= spec_pad_right(s@, width as int));
        return out;
    }
    let pad = width - len;
    let mut j: usize = 0;
    while j < pad
        invariant
            j <= pad,
            out@ == s@ + spec_spaces(j as int),
        decreases pad - j,
    {
        out.append(" ");
        proof {
            reveal_strlit(" ");
            assert(" "@ =~= seq![' ']);
            assert(out@ =~= s@ + spec_spaces(j + 1));
        }
        j = j + 1;
    }
    out
}

/// The record tag of a level, right-aligned to five characters.
pub open spec fn spec_level_tag(level: LogLevel) -> Seq<char> {
    match level {
        LogLevel::Off => "  OFF"@,
        LogLevel::Error => "ERROR"@,
        LogLevel::Warn => " WARN"@,
        LogLevel::Info => " INFO"@,
        LogLevel::Debug => "DEBUG"@,
        LogLevel::Trace => "TRACE"@,
    }
}

/// The record tag of a level.
pub fn level_tag(level: LogLevel) -> (r: &'static str)
    ensures
        r@ == spec_level_tag(level),
{
    match level {
        LogLevel::Off => "  OFF",
        LogLevel::Error => "ERROR",
        LogLevel::Warn => " WARN",
        LogLevel::Info => " INFO",
        LogLevel::Debug => "DEBUG",
        LogLevel::Trace => "TRACE",
    }
}

/// One formatted log line. When logging goes to a file the line opens with
/// the timestamp in a 29-character column; a trace record carries its
/// source file and line; every line ends with a newline.
pub open spec fn spec_format_record(
    log_to_file: bool,
    timestamp: Seq<char>,
    level: LogLevel,
    file: Seq<char>,
    line: Option<u32>,
    args: Seq<char>,
) -> Seq<char> {
    let head = if log_to_file {
        "["@ + spec_pad_right(timestamp, 29) + "] "@
    } else {
        Seq::empty()
    };
    let tagged = head + "["@ + spec_level_tag(level) + "] "@;
    if level == LogLevel::Trace {
        let line_no = match line {
            Some(l) => l as int,
            None => 0,
        };
        tagged + file + ":"@ + spec_dec_digits(line_no) + " "@ + args + "\n"@
    } else {
        tagged + args + "\n"@
    }
}

impl LogFormat {
    /// Renders one log record.
    pub fn format_record(
        &self,
        log_to_file: bool,
        timestamp: &str,
        level: LogLevel,
        file: &str,
        line: Option<u32>,
        args: &str,
    ) -> (r: String)
        ensures
            r@ == spec_format_record(log_to_file, timestamp@, level, file@, line, args@),
    {
        let mut out = String::new();
        if log_to_file {
            out.append("[");
            out.append(pad_right(timestamp, 29).as_str());
            out.append("] ");
        }
        out.append("[");
        out.append(level_tag(level));
        out.append("] ");
        if let LogLevel::Trace = level {
            let line_no: u32 = match line {
                Some(l) => l,
                None => 0,
            };
            out.append(file);
            out.append(":");
            out.append(u64_text(line_no as u64).as_str());
            out.append(" ");
            out.append(args);
            out.append("\n");
            assert(out@ =~= spec_format_record(log_to_file, timestamp@, level, file@, line, args@));
        } else {
            out.append(args);
            out.append("\n");
            assert(out@ =~= spec_format_record(log_to_file, timestamp@, level, file@, line, args@));
        }
        out
    }
}

/// Picks the log file path: the system-wide log directory when it exists,
/// then the local log directory, then a file in the working directory.
/// Whether the two candidates exist is observed by the caller.
pub fn log_path(var_log_dir_exists: bool, local_logs_exists: bool) -> (r: String)
    ensures
        var_log_dir_exists ==> r@ == "/var/log/mailpeter/mailpeter.log"@,
        (!var_log_dir_exists && local_logs_exists) ==> r@ == "./logs/mailpeter.log"@,
        (!var_log_dir_exists && !local_logs_exists) ==> r@ == "./mailpeter.log"@,
{
    if var_log_dir_exists {
        return String::from_str("/var/log/mailpeter/mailpeter.log");
    }
    if local_logs_exists {
        return String::from_str("./logs/mailpeter.log");
    }
    String::from_str("./mailpeter.log")
}

/// Picks the logger's level: a level named on the command line wins; an
/// unknown name falls back to debug, and the second component reports that
/// fallback so the boundary can warn; with no command-line level the
/// configured level holds.
pub fn choose_log_level(arg: &Option<String>, config_level: LogLevel) -> (r: (LogLevel, bool))
    ensures
        arg is None ==> r == (config_level, false),
        arg matches Some(s) ==> (match spec_log_level_of(s@) {
            Some(l) => r == (l, false),
            None => r == (LogLevel::Debug, true),
        }),
{
    match arg {
        Some(s) => match string_to_log_level(s.as_str()) {
            Ok(l) => (l, false),
            Err(_) => (LogLevel::Debug, true),
        },
        None => (config_level, false),
    }
}

} // verus!
