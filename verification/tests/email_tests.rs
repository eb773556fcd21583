use thrum::config::SenderConfig;
use thrum::email::{dedup_by_message_id, format_address, Email, EmailSummary, SmtpError};

fn summary_with_id(uid: u32, message_id: Option<&str>) -> EmailSummary {
    EmailSummary {
        uid,
        folder: "INBOX".to_string(),
        subject: "s".to_string(),
        from: "a@x".to_string(),
        to: String::new(),
        date: "2025-01-01".to_string(),
        seen: false,
        snippet: String::new(),
        message_id: message_id.map(|s| s.to_string()),
        in_reply_to: None,
        references: vec![],
    }
}

#[test]
fn email_struct_fields() {
    let email = Email {
        from: "alice@example.com".to_string(),
        to: vec![
            "bob@example.com".to_string(),
            "carol@example.com".to_string(),
        ],
        cc: vec!["dave@example.com".to_string()],
        bcc: vec!["eve@example.com".to_string()],
        subject: "Greetings".to_string(),
        body: "Hi there".to_string(),
        in_reply_to: Some("msg1@example.com".to_string()),
        references: vec!["msg1@example.com".to_string()],
    };

    assert_eq!(email.from, "alice@example.com");
    assert_eq!(email.to.len(), 2);
    assert_eq!(email.cc.len(), 1);
    assert_eq!(email.bcc.len(), 1);
    assert_eq!(email.subject, "Greetings");
    assert_eq!(email.body, "Hi there");
    assert_eq!(email.in_reply_to.as_deref(), Some("msg1@example.com"));
    assert_eq!(email.references.len(), 1);
}

#[test]
fn format_address_with_name() {
    let r = format_address(
        &Some("Alice Smith".to_string()),
        &Some("alice".to_string()),
        &Some("example.com".to_string()),
    );
    assert_eq!(r, "Alice Smith <alice@example.com>");
}

#[test]
fn format_address_without_name() {
    let r = format_address(&None, &Some("bob".to_string()), &Some("example.com".to_string()));
    assert_eq!(r, "bob@example.com");
}

#[test]
fn format_address_empty_name_falls_back() {
    let r = format_address(
        &Some(String::new()),
        &Some("carol".to_string()),
        &Some("example.com".to_string()),
    );
    assert_eq!(r, "carol@example.com");
}

#[test]
fn format_address_empty_fields() {
    let r = format_address(&None, &None, &None);
    assert_eq!(r, "");
}

#[test]
fn dedup_keeps_first_occurrence() {
    let emails = vec![
        summary_with_id(1, Some("a@x")),
        summary_with_id(2, Some("b@x")),
        summary_with_id(3, Some("a@x")),
        summary_with_id(4, None),
        summary_with_id(5, None),
    ];
    let deduped = dedup_by_message_id(emails);
    let uids: Vec<u32> = deduped.iter().map(|e| e.uid).collect();
    assert_eq!(uids, vec![1, 2, 4, 5]);
}

#[test]
fn smtp_error_text_carries_category() {
    assert_eq!(SmtpError::Smtp("relay down".to_string()).text(), "SMTP error: relay down");
    assert_eq!(
        SmtpError::Message("missing to".to_string()).text(),
        "message build error: missing to"
    );
    assert_eq!(
        SmtpError::Address("bad address".to_string()).text(),
        "address parse error: bad address"
    );
}

#[test]
fn formatted_from_with_and_without_name() {
    let with_name = SenderConfig { from: "me@example.com".to_string(), name: Some("Me".to_string()) };
    assert_eq!(with_name.formatted_from(), "Me <me@example.com>");
    let plain = SenderConfig { from: "u@localhost".to_string(), name: None };
    assert_eq!(plain.formatted_from(), "u@localhost");
}
