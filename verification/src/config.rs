//! The configuration the pipeline reads, as an explicit read-only value.
//!
//! Loading the file and decoding TOML happen outside this crate; the loader
//! hands over plain values. The attachment cap is carried in bytes (the file
//! states megabytes; one megabyte is 1,048,576 bytes).

use vstd::prelude::*;
use vstd::string::StringExecFns;

use crate::errors::ConfigError;
use crate::strs::{spec_eq_ignore_ascii_case, str_eq_lowered};

verus! {

/// A log level, ordered from silent to most verbose.
#[derive(Debug, Clone, Copy, PartialEq, Eq, Structural)]
pub enum LogLevel {
    Off,
    Error,
    Warn,
    Info,
    Debug,
    Trace,
}

/// One recipient group: a direction tag, its addresses, and whether the
/// group accepts HTML bodies.
#[derive(Debug, Clone)]
pub struct Recipients {
    pub direction: String,
    pub mails: Vec<String>,
    pub allow_html: bool,
}

/// The mail-transport section of the configuration.
#[derive(Debug, Clone)]
pub struct Mail {
    pub smtp: String,
    pub port: u16,
    pub user: String,
    pub password: String,
    pub starttls: bool,
    pub alias: String,
    pub block_words: Vec<String>,
    pub recipients: Vec<Recipients>,
}

/// The whole configuration the pipeline consumes.
#[derive(Debug, Clone)]
pub struct Config {
    pub listening_on: String,
    pub log_keep_count: i64,
    pub log_level: LogLevel,
    pub log_size_mb: usize,
    pub log_to_file: bool,
    pub reverse_proxy_ip: String,
    pub limit_request_seconds: u64,
    pub max_attachment_size_bytes: u64,
    pub routes: Vec<String>,
    pub mail_archive: String,
    pub mail: Mail,
}

/// The view of a recipient group: every string as its character sequence.
pub struct RecipientsView {
    pub direction: Seq<char>,
    pub mails: Seq<Seq<char>>,
    pub allow_html: bool,
}

impl View for Recipients {
    type V = RecipientsView;

    open spec fn view(&self) -> RecipientsView {
        RecipientsView {
            direction: self.direction@,
            mails: self.mails.deep_view(),
            allow_html: self.allow_html,
        }
    }
}

/// Where a level name maps to, case-insensitively: the names the
/// configuration file accepts.
pub open spec fn spec_log_level_of(s: Seq<char>) -> Option<LogLevel> {
    if spec_eq_ignore_ascii_case(s, "debug"@) {
        Some(LogLevel::Debug)
    } else if spec_eq_ignore_ascii_case(s, "error"@) {
        Some(LogLevel::Error)
    } else if spec_eq_ignore_ascii_case(s, "info"@) {
        Some(LogLevel::Info)
    } else if spec_eq_ignore_ascii_case(s, "trace"@) {
        Some(LogLevel::Trace)
    } else if spec_eq_ignore_ascii_case(s, "warning"@) {
        Some(LogLevel::Warn)
    } else if spec_eq_ignore_ascii_case(s, "off"@) {
        Some(LogLevel::Off)
    } else {
        None
    }
}

/// Maps a level name from the configuration to a level. Matching ignores
/// ASCII case; an unknown name is a fatal configuration error.
pub fn string_to_log_level(s: &str) -> (r: Result<LogLevel, ConfigError>)
    ensures
        (match r {
            Ok(l) => spec_log_level_of(s@) == Some(l),
            Err(e) => spec_log_level_of(s@) is None && e == ConfigError::BadLogLevel,
        }),
{
    if str_eq_lowered(s, "debug") {
        Ok(LogLevel::Debug)
    } else if str_eq_lowered(s, "error") {
        Ok(LogLevel::Error)
    } else if str_eq_lowered(s, "info") {
        Ok(LogLevel::Info)
    } else if str_eq_lowered(s, "trace") {
        Ok(LogLevel::Trace)
    } else if str_eq_lowered(s, "warning") {
        Ok(LogLevel::Warn)
    } else if str_eq_lowered(s, "off") {
        Ok(LogLevel::Off)
    } else {
        Err(ConfigError::BadLogLevel)
    }
}

/// Picks the configuration file path: an explicit path wins, then the
/// system-wide file, then the file in the working directory, then the
/// bundled default. Whether the two candidate files exist is observed by
/// the caller and passed in.
pub fn config_path(path: &Option<String>, etc_file_exists: bool, local_file_exists: bool) -> (r:
    String)
    ensures
        path is Some ==> r@ == path->0@,
        path is None && etc_file_exists ==> r@ == "/etc/mailpeter/mailpeter.toml"@,
        path is None && !etc_file_exists && local_file_exists ==> r@ == "mailpeter.toml"@,
        path is None && !etc_file_exists && !local_file_exists ==> r@
            == "./assets/mailpeter.toml"@,
{
    if let Some(p) = path {
        return p.clone();
    }
    if etc_file_exists {
        return String::from_str("/etc/mailpeter/mailpeter.toml");
    }
    if local_file_exists {
        return String::from_str("mailpeter.toml");
    }
    String::from_str("./assets/mailpeter.toml")
}

} // verus!
