use mailpeter::config::{config_path, string_to_log_level, LogLevel};
use mailpeter::errors::{ConfigError, ServiceError};
use mailpeter::logging::{choose_log_level, log_path, pad_right, LogFormat, TimeKind};
use mailpeter::mailer::{Msg, SpamFilter};
use mailpeter::routes::{
    classify_field, screen_spam, unknown_field_error, worker_response, FieldKind,
};

#[test]
fn log_level_names_map_case_insensitively() {
    assert_eq!(string_to_log_level("debug"), Ok(LogLevel::Debug));
    assert_eq!(string_to_log_level("DEBUG"), Ok(LogLevel::Debug));
    assert_eq!(string_to_log_level("Error"), Ok(LogLevel::Error));
    assert_eq!(string_to_log_level("info"), Ok(LogLevel::Info));
    assert_eq!(string_to_log_level("trace"), Ok(LogLevel::Trace));
    assert_eq!(string_to_log_level("warning"), Ok(LogLevel::Warn));
    assert_eq!(string_to_log_level("off"), Ok(LogLevel::Off));
    assert_eq!(string_to_log_level("verbose"), Err(ConfigError::BadLogLevel));
    assert_eq!(string_to_log_level("warn"), Err(ConfigError::BadLogLevel));
}

#[test]
fn config_path_prefers_explicit_then_system_then_local() {
    let explicit = Some("/tmp/custom.toml".to_string());
    assert_eq!(config_path(&explicit, true, true), "/tmp/custom.toml");
    assert_eq!(config_path(&None, true, true), "/etc/mailpeter/mailpeter.toml");
    assert_eq!(config_path(&None, false, true), "mailpeter.toml");
    assert_eq!(config_path(&None, false, false), "./assets/mailpeter.toml");
}

#[test]
fn log_path_prefers_system_directory() {
    assert_eq!(log_path(true, true), "/var/log/mailpeter/mailpeter.log");
    assert_eq!(log_path(false, true), "./logs/mailpeter.log");
    assert_eq!(log_path(false, false), "./mailpeter.log");
}

#[test]
fn command_line_level_wins_and_unknown_falls_back() {
    assert_eq!(choose_log_level(&None, LogLevel::Info), (LogLevel::Info, false));
    assert_eq!(
        choose_log_level(&Some("trace".to_string()), LogLevel::Info),
        (LogLevel::Trace, false)
    );
    assert_eq!(
        choose_log_level(&Some("nonsense".to_string()), LogLevel::Info),
        (LogLevel::Debug, true)
    );
}

#[test]
fn record_format_without_file_logging() {
    let fmt = LogFormat::new();
    let line = fmt.format_record(false, "", LogLevel::Info, "", None, "hello");
    assert_eq!(line, "[ INFO] hello\n");
    let warn = fmt.format_record(false, "", LogLevel::Warn, "", None, "careful");
    assert_eq!(warn, "[ WARN] careful\n");
}

#[test]
fn record_format_pads_timestamp_and_names_trace_site() {
    let fmt = LogFormat::default();
    assert_eq!(fmt.time_type, TimeKind::Local);
    let line = fmt.format_record(
        true,
        "2024-01-01 00:00:00",
        LogLevel::Trace,
        "src/x.rs",
        Some(42),
        "m",
    );
    assert_eq!(
        line,
        "[2024-01-01 00:00:00          ] [TRACE] src/x.rs:42 m\n"
    );
    let no_line = fmt.format_record(true, "t", LogLevel::Trace, "f", None, "m");
    assert_eq!(no_line, "[t                            ] [TRACE] f:0 m\n");
}

#[test]
fn display_line_level_is_kept_by_the_builder() {
    let fmt = LogFormat::new().set_display_line_level(LogLevel::Trace);
    assert_eq!(fmt.display_line_level, LogLevel::Trace);
}

#[test]
fn padding_never_truncates() {
    assert_eq!(pad_right("abc", 5), "abc  ");
    assert_eq!(pad_right("abcdef", 3), "abcdef");
}

#[test]
fn error_variants_map_to_their_status_classes() {
    assert_eq!(ServiceError::InternalServerError.status_code(), 500);
    assert_eq!(ServiceError::BadRequest("b".to_string()).status_code(), 400);
    assert_eq!(ServiceError::Conflict("c".to_string()).status_code(), 409);
    assert_eq!(ServiceError::NoContent("n".to_string()).status_code(), 204);
    assert_eq!(ServiceError::ServiceUnavailable("s".to_string()).status_code(), 503);
    assert_eq!(ServiceError::UnprocessableEntity("u".to_string()).status_code(), 422);
}

#[test]
fn error_bodies_carry_their_message() {
    assert_eq!(
        ServiceError::InternalServerError.response_body(),
        "Internal Server Error. Please try later."
    );
    assert_eq!(ServiceError::Conflict("boom".to_string()).response_body(), "boom");
}

#[test]
fn form_fields_classify_by_name_and_filename() {
    assert_eq!(classify_field("mail", false), FieldKind::MailField);
    assert_eq!(classify_field("subject", false), FieldKind::SubjectField);
    assert_eq!(classify_field("text", false), FieldKind::TextField);
    assert_eq!(classify_field("photo", true), FieldKind::FileField);
    assert_eq!(classify_field("photo", false), FieldKind::UnknownField);
    // a known field keeps its meaning even when a filename tags along
    assert_eq!(classify_field("mail", true), FieldKind::MailField);
}

#[test]
fn unknown_form_field_is_a_conflict_naming_the_field() {
    let e = unknown_field_error("mystery");
    match e {
        ServiceError::Conflict(m) => assert_eq!(m, "Unknown form data: mystery"),
        other => panic!("expected a conflict, got {other:?}"),
    }
}

#[test]
fn direction_always_comes_from_the_route() {
    let msg = Msg::new(
        None,
        false,
        "a@example.com".to_string(),
        "s".to_string(),
        "t".to_string(),
        None,
    );
    let routed = msg.with_direction("support".to_string());
    assert_eq!(routed.direction.as_deref(), Some("support"));
}

#[test]
fn screening_rejects_blocked_content_before_composition() {
    let filter = SpamFilter::new(&vec!["winner".to_string()]).unwrap();
    let spam = Msg::new(
        None,
        false,
        "a@example.com".to_string(),
        "you are a winner today".to_string(),
        "t".to_string(),
        None,
    );
    match screen_spam(&spam, &filter) {
        Err(ServiceError::UnprocessableEntity(m)) => {
            assert_eq!(m, "Message contains blocked words")
        }
        other => panic!("expected rejected content, got {other:?}"),
    }
    let ham = Msg::new(
        None,
        false,
        "a@example.com".to_string(),
        "hello".to_string(),
        "t".to_string(),
        None,
    );
    assert!(screen_spam(&ham, &filter).is_ok());
}

#[test]
fn worker_outcome_maps_to_fixed_responses() {
    assert_eq!(worker_response(true).unwrap(), "Send success!");
    assert!(matches!(
        worker_response(false),
        Err(ServiceError::InternalServerError)
    ));
}
