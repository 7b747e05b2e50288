use mailpeter::config::Recipients;
use mailpeter::errors::{ConfigError, ServiceError};
use mailpeter::mailer::{
    archive_enabled, classify, compose, dispatch_outcome, resolve, ContentKind, Msg, ResolveMode,
    SpamFilter,
};

fn group(direction: &str, mails: &[&str], allow_html: bool) -> Recipients {
    Recipients {
        direction: direction.to_string(),
        mails: mails.iter().map(|m| m.to_string()).collect(),
        allow_html,
    }
}

fn plain_msg(direction: Option<&str>, mail: &str, subject: &str, text: &str) -> Msg {
    Msg::new(
        direction.map(|d| d.to_string()),
        false,
        mail.to_string(),
        subject.to_string(),
        text.to_string(),
        None,
    )
}

const PNG_MAGIC: [u8; 8] = [0x89, 0x50, 0x4E, 0x47, 0x0D, 0x0A, 0x1A, 0x0A];

#[test]
fn resolve_direct_mode_uses_own_mail() {
    let groups = vec![group("support", &["s@example.com"], false)];
    let r = resolve(&None, &"me@example.com".to_string(), &groups);
    assert_eq!(r.mode, ResolveMode::Direct);
    assert_eq!(r.recipients, vec!["me@example.com".to_string()]);
    assert!(r.allow_html);
}

#[test]
fn resolve_routed_collects_matching_groups_in_order() {
    let groups = vec![
        group("support", &["s1@example.com", "s2@example.com"], false),
        group("sales", &["sales@example.com"], true),
        group("support", &["s3@example.com"], true),
    ];
    let r = resolve(
        &Some("support".to_string()),
        &"me@example.com".to_string(),
        &groups,
    );
    assert_eq!(r.mode, ResolveMode::Routed);
    assert_eq!(
        r.recipients,
        vec![
            "s1@example.com".to_string(),
            "s2@example.com".to_string(),
            "s3@example.com".to_string()
        ]
    );
    assert!(r.allow_html);
}

#[test]
fn resolve_unmatched_direction_is_empty_and_plain() {
    let groups = vec![
        group("support", &["s@example.com"], true),
        group("sales", &["x@example.com"], true),
    ];
    let r = resolve(
        &Some("billing".to_string()),
        &"me@example.com".to_string(),
        &groups,
    );
    assert_eq!(r.mode, ResolveMode::Routed);
    assert!(r.recipients.is_empty());
    assert!(!r.allow_html);
}

#[test]
fn spam_filter_blocks_whole_word() {
    let words = vec!["spam".to_string()];
    let filter = SpamFilter::new(&words).unwrap();
    assert!(filter.is_blocked("buy spam now", "hello"));
    assert!(filter.is_blocked("hello", "this is spam."));
}

#[test]
fn spam_filter_ignores_substring_of_longer_word() {
    let words = vec!["spam".to_string()];
    let filter = SpamFilter::new(&words).unwrap();
    assert!(!filter.is_blocked("a spammer wrote", "spammers everywhere"));
}

#[test]
fn spam_filter_rejects_malformed_word_at_construction() {
    let words = vec!["ok".to_string(), "(".to_string()];
    let r = SpamFilter::new(&words);
    assert!(matches!(r, Err(ConfigError::MalformedBlockWord)));
}

#[test]
fn msg_is_spam_checks_subject_and_text() {
    let words = vec!["viagra".to_string()];
    let filter = SpamFilter::new(&words).unwrap();
    let spam = plain_msg(None, "a@example.com", "cheap viagra", "hi");
    let ham = plain_msg(None, "a@example.com", "hello", "ordinary text");
    assert!(spam.is_spam(&filter));
    assert!(!ham.is_spam(&filter));
}

#[test]
fn classify_plain_stays_plain_under_repetition() {
    // with HTML disallowed the classification is plain, and classifying
    // the already-plain text again keeps yielding plain
    let mut text = "just a line".to_string();
    for _ in 0..3 {
        assert_eq!(classify(&text, false), ContentKind::Plain);
        text = text.clone();
    }
    assert_eq!(classify("<p>markup</p>", false), ContentKind::Plain);
}

#[test]
fn classify_single_text_line_is_plain_even_with_html_allowed() {
    assert_eq!(classify("hello world", true), ContentKind::Plain);
}

#[test]
fn classify_markup_with_html_allowed_is_html() {
    assert_eq!(classify("<p>one</p><p>two</p>", true), ContentKind::Html);
    assert_eq!(classify("<p>solo</p>", true), ContentKind::Html);
}

#[test]
fn msg_content_type_follows_allow_html() {
    let mut msg = plain_msg(None, "a@example.com", "s", "<p>x</p><p>y</p>");
    assert_eq!(msg.content_type(), ContentKind::Plain);
    msg.allow_html = true;
    assert_eq!(msg.content_type(), ContentKind::Html);
}

#[test]
fn compose_round_trip_keeps_attachment_count_and_order() {
    let files = vec![
        ("one.png".to_string(), PNG_MAGIC.to_vec()),
        ("two.bin".to_string(), vec![1u8, 2, 3]),
        ("three.bin".to_string(), vec![9u8]),
    ];
    let msg = Msg::new(
        None,
        false,
        "me@example.com".to_string(),
        "subject".to_string(),
        "body".to_string(),
        Some(files),
    );
    let out = compose(&msg, &"noreply@example.com".to_string(), &None, &vec![]).unwrap();
    // one text part ...
    assert_eq!(out.body, "body");
    // ... plus exactly the three attachment parts, in input order
    assert_eq!(out.attachments.len(), 3);
    assert_eq!(out.attachments[0].filename, "one.png");
    assert_eq!(out.attachments[0].mime, "image/png");
    assert_eq!(out.attachments[1].filename, "two.bin");
    assert_eq!(out.attachments[1].bytes, vec![1u8, 2, 3]);
    assert_eq!(out.attachments[1].mime, "application/octet-stream");
    assert_eq!(out.attachments[2].filename, "three.bin");
}

#[test]
fn compose_direct_mode_headers() {
    let msg = plain_msg(None, "me@example.com", "s", "one line");
    let out = compose(&msg, &"noreply@example.com".to_string(), &None, &vec![]).unwrap();
    assert_eq!(out.from, "noreply@example.com");
    assert_eq!(out.to, vec!["me@example.com".to_string()]);
    assert!(out.reply_to.is_none());
    assert_eq!(out.subject, "s");
    // direct mode allows HTML, so the body is kept verbatim
    assert_eq!(out.body, "one line");
}

#[test]
fn compose_full_name_override_builds_display_from() {
    let msg = plain_msg(None, "me@example.com", "s", "t");
    let out = compose(
        &msg,
        &"noreply@example.com".to_string(),
        &Some("Jane Doe".to_string()),
        &vec![],
    )
    .unwrap();
    assert_eq!(out.from, "Jane Doe <noreply@example.com>");
}

#[test]
fn compose_routed_strips_markup_when_group_disallows_html() {
    let groups = vec![group("support", &["s@example.com"], false)];
    let msg = plain_msg(
        Some("support"),
        "client@example.com",
        "s",
        "<b>Bold</b> move",
    );
    let out = compose(&msg, &"noreply@example.com".to_string(), &None, &groups).unwrap();
    assert_eq!(out.reply_to.as_deref(), Some("client@example.com"));
    assert_eq!(out.to, vec!["s@example.com".to_string()]);
    assert_eq!(out.kind, ContentKind::Plain);
    // the tags are gone, the inner text stays
    assert_eq!(out.body, "Bold move");
}

#[test]
fn compose_routed_keeps_markup_when_group_allows_html() {
    let groups = vec![group("support", &["s@example.com"], true)];
    let msg = plain_msg(
        Some("support"),
        "client@example.com",
        "s",
        "<p>a</p><p>b</p>",
    );
    let out = compose(&msg, &"noreply@example.com".to_string(), &None, &groups).unwrap();
    assert_eq!(out.kind, ContentKind::Html);
    assert_eq!(out.body, "<p>a</p><p>b</p>");
}

#[test]
fn compose_rejects_malformed_address() {
    let msg = plain_msg(None, "not an address", "s", "t");
    let r = compose(&msg, &"noreply@example.com".to_string(), &None, &vec![]);
    match r {
        Err(ServiceError::Conflict(m)) => assert_eq!(m, "Invalid mail address"),
        other => panic!("expected a conflict, got {other:?}"),
    }
}

#[test]
fn compose_rejects_malformed_group_recipient() {
    let groups = vec![group("support", &["no address here"], false)];
    let msg = plain_msg(Some("support"), "client@example.com", "s", "t");
    let r = compose(&msg, &"noreply@example.com".to_string(), &None, &groups);
    assert!(matches!(r, Err(ServiceError::Conflict(_))));
}

#[test]
fn compose_passes_empty_recipient_list_through() {
    let msg = plain_msg(Some("missing"), "client@example.com", "s", "t");
    let out = compose(&msg, &"noreply@example.com".to_string(), &None, &vec![]).unwrap();
    assert!(out.to.is_empty());
    assert_eq!(out.kind, ContentKind::Plain);
}

#[test]
fn archive_enabled_needs_configured_existing_directory() {
    assert!(archive_enabled(&"/var/mail/archive".to_string(), true));
    assert!(!archive_enabled(&"/var/mail/archive".to_string(), false));
    assert!(!archive_enabled(&"".to_string(), true));
}

#[test]
fn dispatch_outcome_surfaces_smtp_failure() {
    let r = dispatch_outcome(Err(ServiceError::InternalServerError), None);
    assert!(matches!(r, Err(ServiceError::InternalServerError)));
}

#[test]
fn dispatch_outcome_reports_archive_failure_without_rollback() {
    let r = dispatch_outcome(Ok(()), Some(Err(ServiceError::InternalServerError)));
    assert!(matches!(r, Err(ServiceError::InternalServerError)));
    let ok = dispatch_outcome(Ok(()), Some(Ok(())));
    assert!(ok.is_ok());
    let no_archive = dispatch_outcome(Ok(()), None);
    assert!(no_archive.is_ok());
}

#[test]
fn msg_default_values() {
    let m = Msg::default();
    assert!(m.attachment.is_none());
    assert!(m.direction.is_none());
    assert!(!m.allow_html);
    assert_eq!(m.mail, "my@mail.org");
    assert_eq!(m.subject, "My Subject");
    assert_eq!(m.text, "My Text");
}
