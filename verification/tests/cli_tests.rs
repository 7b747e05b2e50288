use mailpeter::cli::{
    check_attachment_size, cli_mode, cli_subject, file_basename, ignore_start, listen_address,
    parse_stdin, require_recipient, resolve_cli_recipient, take_recipient_from_files, Args,
};
use mailpeter::errors::ServiceError;

fn bare_args() -> Args {
    Args {
        attachment: None,
        config: None,
        body_type: None,
        full_name: None,
        ignore: false,
        listen: None,
        level: None,
        recipient: None,
        subject: None,
        text: None,
        ox: None,
    }
}

#[test]
fn subject_or_full_name_selects_cli_mode() {
    assert!(!cli_mode(&bare_args()));
    let mut with_subject = bare_args();
    with_subject.subject = Some("s".to_string());
    assert!(cli_mode(&with_subject));
    let mut with_name = bare_args();
    with_name.full_name = Some("Jane".to_string());
    assert!(cli_mode(&with_name));
}

#[test]
fn listen_argument_wins_over_configuration() {
    assert_eq!(
        listen_address(&Some("0.0.0.0:1".to_string()), &"127.0.0.1:8989".to_string()),
        "0.0.0.0:1"
    );
    assert_eq!(
        listen_address(&None, &"127.0.0.1:8989".to_string()),
        "127.0.0.1:8989"
    );
}

fn lines(raw: &[&str]) -> Vec<String> {
    raw.iter().map(|l| l.to_string()).collect()
}

#[test]
fn stdin_scenario_extracts_subject_recipient_and_body() {
    let input = lines(&[
        "Subject: Hello",
        "To: a@b.com",
        "MIME-Version: 1.0",
        "",
        "Body line one",
        "Body line two",
    ]);
    let (subject, recipient, body) = parse_stdin(
        &input,
        &"No Subject".to_string(),
        &"fallback@example.com".to_string(),
    );
    assert_eq!(subject, "Hello");
    assert_eq!(recipient, "a@b.com");
    assert_eq!(body, "Body line one\nBody line two");
}

#[test]
fn blank_lines_inside_body_are_preserved() {
    let input = lines(&["", "", "first", "", "second"]);
    let (_, _, body) = parse_stdin(&input, &"s".to_string(), &"r".to_string());
    assert_eq!(body, "first\n\nsecond");
}

#[test]
fn to_line_without_at_sign_keeps_recipient() {
    let input = lines(&["To: undisclosed-recipients", "content"]);
    let (_, recipient, body) = parse_stdin(&input, &"s".to_string(), &"keep@example.com".to_string());
    assert_eq!(recipient, "keep@example.com");
    assert_eq!(body, "content");
}

#[test]
fn header_line_without_separator_is_dropped() {
    let input = lines(&["Subject:NoSpace", "body"]);
    let (subject, _, body) = parse_stdin(&input, &"orig".to_string(), &"r".to_string());
    assert_eq!(subject, "orig");
    assert_eq!(body, "body");
}

#[test]
fn transport_headers_never_become_body() {
    let input = lines(&[
        "From: cron",
        "Content-Type: text/plain",
        "Content-Transfer-Encoding: 8bit",
        "X-Cron-Env: <HOME=/root>",
        "the real content",
    ]);
    let (_, _, body) = parse_stdin(&input, &"s".to_string(), &"r".to_string());
    assert_eq!(body, "the real content");
}

#[test]
fn ignore_start_matches_prefixes_only() {
    assert!(ignore_start("From: someone"));
    assert!(ignore_start("MIME-Version: 1.0"));
    assert!(ignore_start("X-Cron-Env: <SHELL=/bin/sh>"));
    assert!(!ignore_start("Fromage is cheese"));
    assert!(!ignore_start("hello"));
    assert!(!ignore_start(""));
}

#[test]
fn last_file_argument_becomes_recipient_when_none_given() {
    let (recipient, files) = take_recipient_from_files(
        vec!["a.txt".to_string(), "dest@example.com".to_string()],
        None,
    );
    assert_eq!(recipient, Some("dest@example.com".to_string()));
    assert_eq!(files, vec!["a.txt".to_string()]);
}

#[test]
fn file_list_is_kept_when_recipient_is_given() {
    let (recipient, files) = take_recipient_from_files(
        vec!["a.txt".to_string(), "b.txt".to_string()],
        Some("dest@example.com".to_string()),
    );
    assert_eq!(recipient, Some("dest@example.com".to_string()));
    assert_eq!(files.len(), 2);
    let (recipient2, files2) = take_recipient_from_files(vec!["only.txt".to_string()], None);
    assert_eq!(recipient2, None);
    assert_eq!(files2, vec!["only.txt".to_string()]);
}

#[test]
fn alias_replaces_recipient_without_at_sign() {
    let alias = "relay@example.com".to_string();
    assert_eq!(resolve_cli_recipient("root".to_string(), &alias), "relay@example.com");
    assert_eq!(
        resolve_cli_recipient("user@example.com".to_string(), &alias),
        "user@example.com"
    );
    assert_eq!(resolve_cli_recipient("root".to_string(), &"".to_string()), "root");
}

#[test]
fn subject_falls_back_to_default() {
    assert_eq!(cli_subject(&None), "No Subject");
    assert_eq!(cli_subject(&Some("Given".to_string())), "Given");
}

#[test]
fn attachment_cap_is_checked_incrementally() {
    let cap = 2 * 1048576u64;
    let total = check_attachment_size(0, 1048576, cap).unwrap();
    assert_eq!(total, 1048576);
    let total = check_attachment_size(total, 1048576, cap).unwrap();
    assert_eq!(total, cap);
    let over = check_attachment_size(total, 1, cap);
    match over {
        Err(ServiceError::Conflict(m)) => assert_eq!(m, "Attachment to big!"),
        other => panic!("expected a conflict, got {other:?}"),
    }
}

#[test]
fn attachment_cap_overflow_is_a_conflict() {
    let r = check_attachment_size(u64::MAX, 1, u64::MAX);
    assert!(matches!(r, Err(ServiceError::Conflict(_))));
}

#[test]
fn basename_takes_the_last_path_segment() {
    assert_eq!(file_basename("/a/b/c.txt"), "c.txt");
    assert_eq!(file_basename("plain.bin"), "plain.bin");
    assert_eq!(file_basename("/ends/with/slash/"), "file");
    assert_eq!(file_basename(""), "file");
}

#[test]
fn missing_recipient_refuses_the_send() {
    match require_recipient(None) {
        Err(ServiceError::Conflict(m)) => assert_eq!(m, "No mail recipient available!"),
        other => panic!("expected a conflict, got {other:?}"),
    }
    assert_eq!(
        require_recipient(Some("a@b.org".to_string())).unwrap(),
        "a@b.org"
    );
}
