use thrum::app::{App, ComposeStep, KeyCode, KeyModifiers, View};
use thrum::email::{Email, EmailBody, EmailSummary, ImapClient, ImapError, SmtpClient, SmtpError};

const SENDER: &str = "me@example.com";

struct MockImapClient;

impl ImapClient for MockImapClient {
    fn fetch_inbox(&mut self) -> Result<Vec<EmailSummary>, ImapError> {
        Ok(Vec::new())
    }

    fn fetch_email(&mut self, uid: u32, _folder: &str) -> Result<EmailBody, ImapError> {
        Ok(EmailBody {
            uid,
            subject: "Test".to_string(),
            from: "test@example.com".to_string(),
            to: vec!["me@example.com".to_string()],
            date: "2025-01-01".to_string(),
            body_text: "Test body".to_string(),
        })
    }

    fn mark_seen(&mut self, _uid: u32, _folder: &str) -> Result<(), ImapError> {
        Ok(())
    }

    fn delete_email(&mut self, _uid: u32, _folder: &str) -> Result<(), ImapError> {
        Ok(())
    }

    fn archive_email(&mut self, _uid: u32, _folder: &str) -> Result<(), ImapError> {
        Ok(())
    }

    fn append(&mut self, _folder: &str, _content: &[u8]) -> Result<(), ImapError> {
        Ok(())
    }
}

struct MockSmtpClient {
    accept: bool,
}

impl SmtpClient for MockSmtpClient {
    fn send(&self, _email: &Email) -> Result<Vec<u8>, SmtpError> {
        if self.accept {
            Ok(vec![])
        } else {
            Err(SmtpError::Message("missing destination address".to_string()))
        }
    }
}

fn mock_clients() -> (MockImapClient, MockSmtpClient) {
    (MockImapClient, MockSmtpClient { accept: true })
}

fn summary(uid: u32, subject: &str, from: &str, date: &str, seen: bool, snippet: &str,
    message_id: Option<&str>, in_reply_to: Option<&str>, references: Vec<&str>) -> EmailSummary {
    EmailSummary {
        uid,
        folder: "INBOX".to_string(),
        subject: subject.to_string(),
        from: from.to_string(),
        to: String::new(),
        date: date.to_string(),
        seen,
        snippet: snippet.to_string(),
        message_id: message_id.map(|s| s.to_string()),
        in_reply_to: in_reply_to.map(|s| s.to_string()),
        references: references.into_iter().map(|s| s.to_string()).collect(),
    }
}

fn sample_emails() -> Vec<EmailSummary> {
    vec![
        summary(1, "First", "alice@example.com", "2025-01-01", true, "Hello",
            Some("msg1@example.com"), None, vec![]),
        summary(2, "Second", "bob@example.com", "2025-01-02", false, "World",
            Some("msg2@example.com"), None, vec![]),
        summary(3, "Third", "carol@example.com", "2025-01-03", false, "Test",
            Some("msg3@example.com"), None, vec![]),
    ]
}

#[test]
fn empty_app() {
    let (imap, smtp) = mock_clients();
    let app = App::new(Vec::new(), imap, smtp, SENDER.to_string(), None);
    assert!(!app.should_quit);
    assert!(app.table_state.selected().is_none());
}

#[test]
fn q_quits() {
    let (imap, smtp) = mock_clients();
    let mut app = App::new(Vec::new(), imap, smtp, SENDER.to_string(), None);
    app.handle_key(KeyCode::Char('q'), KeyModifiers::NONE);
    assert!(app.should_quit);
}

#[test]
fn other_keys_ignored() {
    let (imap, smtp) = mock_clients();
    let mut app = App::new(Vec::new(), imap, smtp, SENDER.to_string(), None);
    app.handle_key(KeyCode::Char('a'), KeyModifiers::NONE);
    assert!(!app.should_quit);
    app.handle_key(KeyCode::Enter, KeyModifiers::NONE);
    assert!(!app.should_quit);
}

#[test]
fn j_moves_down() {
    let (imap, smtp) = mock_clients();
    let mut app = App::new(sample_emails(), imap, smtp, SENDER.to_string(), None);
    assert_eq!(app.table_state.selected(), Some(0));
    app.handle_key(KeyCode::Char('j'), KeyModifiers::NONE);
    assert_eq!(app.table_state.selected(), Some(1));
    app.handle_key(KeyCode::Down, KeyModifiers::NONE);
    assert_eq!(app.table_state.selected(), Some(2));
}

#[test]
fn k_moves_up() {
    let (imap, smtp) = mock_clients();
    let mut app = App::new(sample_emails(), imap, smtp, SENDER.to_string(), None);
    app.handle_key(KeyCode::Char('j'), KeyModifiers::NONE);
    app.handle_key(KeyCode::Char('j'), KeyModifiers::NONE);
    assert_eq!(app.table_state.selected(), Some(2));
    app.handle_key(KeyCode::Char('k'), KeyModifiers::NONE);
    assert_eq!(app.table_state.selected(), Some(1));
    app.handle_key(KeyCode::Up, KeyModifiers::NONE);
    assert_eq!(app.table_state.selected(), Some(0));
}

#[test]
fn j_at_bottom_stays() {
    let (imap, smtp) = mock_clients();
    let mut app = App::new(sample_emails(), imap, smtp, SENDER.to_string(), None);
    app.handle_key(KeyCode::Char('j'), KeyModifiers::NONE);
    app.handle_key(KeyCode::Char('j'), KeyModifiers::NONE);
    app.handle_key(KeyCode::Char('j'), KeyModifiers::NONE);
    app.handle_key(KeyCode::Char('j'), KeyModifiers::NONE);
    assert_eq!(app.table_state.selected(), Some(2));
}

#[test]
fn k_at_top_stays() {
    let (imap, smtp) = mock_clients();
    let mut app = App::new(sample_emails(), imap, smtp, SENDER.to_string(), None);
    app.handle_key(KeyCode::Char('k'), KeyModifiers::NONE);
    assert_eq!(app.table_state.selected(), Some(0));
}

#[test]
fn navigation_on_empty_list() {
    let (imap, smtp) = mock_clients();
    let mut app = App::new(Vec::new(), imap, smtp, SENDER.to_string(), None);
    app.handle_key(KeyCode::Char('j'), KeyModifiers::NONE);
    assert!(app.table_state.selected().is_none());
    app.handle_key(KeyCode::Char('k'), KeyModifiers::NONE);
    assert!(app.table_state.selected().is_none());
    app.handle_key(KeyCode::Char('g'), KeyModifiers::NONE);
    assert!(app.table_state.selected().is_none());
    app.handle_key(KeyCode::Char('G'), KeyModifiers::NONE);
    assert!(app.table_state.selected().is_none());
}

#[test]
fn emails_reversed_for_newest_first() {
    let (imap, smtp) = mock_clients();
    let app = App::new(sample_emails(), imap, smtp, SENDER.to_string(), None);
    assert_eq!(app.emails[0].uid, 3);
    assert_eq!(app.emails[1].uid, 2);
    assert_eq!(app.emails[2].uid, 1);
}

#[test]
fn g_selects_first() {
    let (imap, smtp) = mock_clients();
    let mut app = App::new(sample_emails(), imap, smtp, SENDER.to_string(), None);
    app.handle_key(KeyCode::Char('j'), KeyModifiers::NONE);
    app.handle_key(KeyCode::Char('j'), KeyModifiers::NONE);
    assert_eq!(app.table_state.selected(), Some(2));
    app.handle_key(KeyCode::Char('g'), KeyModifiers::NONE);
    assert_eq!(app.table_state.selected(), Some(0));
}

#[test]
fn shift_g_selects_last() {
    let (imap, smtp) = mock_clients();
    let mut app = App::new(sample_emails(), imap, smtp, SENDER.to_string(), None);
    assert_eq!(app.table_state.selected(), Some(0));
    app.handle_key(KeyCode::Char('G'), KeyModifiers::NONE);
    assert_eq!(app.table_state.selected(), Some(2));
}

#[test]
fn enter_opens_detail_view() {
    let (imap, smtp) = mock_clients();
    let mut app = App::new(sample_emails(), imap, smtp, SENDER.to_string(), None);
    app.handle_key(KeyCode::Enter, KeyModifiers::NONE);
    assert!(matches!(app.view, View::Detail(_)));
}

#[test]
fn esc_returns_to_inbox() {
    let (imap, smtp) = mock_clients();
    let mut app = App::new(sample_emails(), imap, smtp, SENDER.to_string(), None);
    app.handle_key(KeyCode::Enter, KeyModifiers::NONE);
    assert!(matches!(app.view, View::Detail(_)));
    app.handle_key(KeyCode::Esc, KeyModifiers::NONE);
    assert!(matches!(app.view, View::Inbox));
}

#[test]
fn r_opens_compose_from_detail() {
    let (imap, smtp) = mock_clients();
    let mut app = App::new(sample_emails(), imap, smtp, SENDER.to_string(), None);
    app.handle_key(KeyCode::Enter, KeyModifiers::NONE);
    app.handle_key(KeyCode::Char('r'), KeyModifiers::NONE);
    assert!(matches!(app.view, View::Compose(_)));
}

#[test]
fn m_d_deletes_email_from_detail() {
    let (imap, smtp) = mock_clients();
    let mut app = App::new(sample_emails(), imap, smtp, SENDER.to_string(), None);
    let initial_count = app.emails.len();
    app.handle_key(KeyCode::Enter, KeyModifiers::NONE);
    app.handle_key(KeyCode::Char('m'), KeyModifiers::NONE);
    app.handle_key(KeyCode::Char('d'), KeyModifiers::NONE);
    assert!(matches!(app.view, View::Inbox));
    assert_eq!(app.emails.len(), initial_count - 1);
}

#[test]
fn m_a_archives_email_from_detail() {
    let (imap, smtp) = mock_clients();
    let mut app = App::new(sample_emails(), imap, smtp, SENDER.to_string(), None);
    let initial_count = app.emails.len();
    app.handle_key(KeyCode::Enter, KeyModifiers::NONE);
    app.handle_key(KeyCode::Char('m'), KeyModifiers::NONE);
    app.handle_key(KeyCode::Char('a'), KeyModifiers::NONE);
    assert!(matches!(app.view, View::Inbox));
    assert_eq!(app.emails.len(), initial_count - 1);
}

#[test]
fn m_d_deletes_email_from_inbox() {
    let (imap, smtp) = mock_clients();
    let mut app = App::new(sample_emails(), imap, smtp, SENDER.to_string(), None);
    let initial_count = app.emails.len();
    app.handle_key(KeyCode::Char('m'), KeyModifiers::NONE);
    app.handle_key(KeyCode::Char('d'), KeyModifiers::NONE);
    assert_eq!(app.emails.len(), initial_count - 1);
}

#[test]
fn m_a_archives_email_from_inbox() {
    let (imap, smtp) = mock_clients();
    let mut app = App::new(sample_emails(), imap, smtp, SENDER.to_string(), None);
    let initial_count = app.emails.len();
    app.handle_key(KeyCode::Char('m'), KeyModifiers::NONE);
    app.handle_key(KeyCode::Char('a'), KeyModifiers::NONE);
    assert_eq!(app.emails.len(), initial_count - 1);
}

#[test]
fn m_r_marks_read_from_inbox() {
    let (imap, smtp) = mock_clients();
    let mut app = App::new(sample_emails(), imap, smtp, SENDER.to_string(), None);
    // first email (index 0 after reverse) is uid=3, unseen
    assert!(!app.emails[0].seen);
    app.handle_key(KeyCode::Char('m'), KeyModifiers::NONE);
    app.handle_key(KeyCode::Char('r'), KeyModifiers::NONE);
    assert!(app.emails[0].seen);
}

#[test]
fn r_opens_compose_from_inbox() {
    let (imap, smtp) = mock_clients();
    let mut app = App::new(sample_emails(), imap, smtp, SENDER.to_string(), None);
    app.handle_key(KeyCode::Char('r'), KeyModifiers::NONE);
    assert!(matches!(app.view, View::Compose(_)));
}

#[test]
fn mark_seen_on_open() {
    let (imap, smtp) = mock_clients();
    let mut app = App::new(sample_emails(), imap, smtp, SENDER.to_string(), None);
    // first email (index 0 after reverse) is uid=3, unseen
    assert!(!app.emails[0].seen);
    app.handle_key(KeyCode::Enter, KeyModifiers::NONE);
    // after opening, the email should be marked as seen
    assert!(app.emails[0].seen);
}

#[test]
fn q_quits_from_detail() {
    let (imap, smtp) = mock_clients();
    let mut app = App::new(sample_emails(), imap, smtp, SENDER.to_string(), None);
    app.handle_key(KeyCode::Enter, KeyModifiers::NONE);
    assert!(matches!(app.view, View::Detail(_)));
    app.handle_key(KeyCode::Char('q'), KeyModifiers::NONE);
    assert!(app.should_quit);
}

#[test]
fn thread_grouping_with_reply() {
    let (imap, smtp) = mock_clients();
    let emails = vec![
        summary(1, "Original", "alice@example.com", "2025-01-01", true, "Hello",
            Some("orig@example.com"), None, vec![]),
        summary(2, "Re: Original", "bob@example.com", "2025-01-02", false, "Reply",
            Some("reply@example.com"), Some("orig@example.com"), vec!["orig@example.com"]),
    ];
    let app = App::new(emails, imap, smtp, SENDER.to_string(), None);
    // both emails should be in the same thread: one thread in the inbox
    assert_eq!(app.threads.len(), 1);
    assert_eq!(app.threads[0].len(), 2);
}

#[test]
fn thread_grouping_by_subject() {
    let (imap, smtp) = mock_clients();
    let emails = vec![
        summary(1, "Hello World", "alice@example.com", "2025-01-01", true, "Hi", None, None,
            vec![]),
        summary(2, "RE: Hello World", "bob@example.com", "2025-01-02", false, "Reply", None,
            None, vec![]),
    ];
    let app = App::new(emails, imap, smtp, SENDER.to_string(), None);
    // grouped by subject matching: one thread
    assert_eq!(app.threads.len(), 1);
    assert_eq!(app.threads[0].len(), 2);
}

#[test]
fn compose_esc_cancels() {
    let (imap, smtp) = mock_clients();
    let mut app = App::new(sample_emails(), imap, smtp, SENDER.to_string(), None);
    app.handle_key(KeyCode::Char('r'), KeyModifiers::NONE);
    assert!(matches!(app.view, View::Compose(_)));
    app.handle_key(KeyCode::Esc, KeyModifiers::NONE);
    assert!(matches!(app.view, View::Inbox));
}

#[test]
fn compose_body_text_input() {
    let (imap, smtp) = mock_clients();
    let mut app = App::new(sample_emails(), imap, smtp, SENDER.to_string(), None);
    app.handle_key(KeyCode::Char('r'), KeyModifiers::NONE);
    assert!(matches!(app.view, View::Compose(_)));
    app.handle_key(KeyCode::Char('H'), KeyModifiers::NONE);
    app.handle_key(KeyCode::Char('i'), KeyModifiers::NONE);
    if let View::Compose(ref state) = app.view {
        assert_eq!(state.body_lines[0], "Hi");
    } else {
        panic!("expected compose view");
    }
}

#[test]
fn compose_ctrl_s_advances_steps() {
    let (imap, smtp) = mock_clients();
    let mut app = App::new(sample_emails(), imap, smtp, SENDER.to_string(), None);
    app.handle_key(KeyCode::Char('r'), KeyModifiers::NONE);

    // body -> to
    app.handle_key(KeyCode::Char('s'), KeyModifiers::ALT);
    if let View::Compose(ref state) = app.view {
        assert_eq!(state.step, ComposeStep::To);
    } else {
        panic!("expected compose view");
    }

    // to -> cc (to is pre-filled from the reply)
    app.handle_key(KeyCode::Char('s'), KeyModifiers::ALT);
    if let View::Compose(ref state) = app.view {
        assert_eq!(state.step, ComposeStep::Cc);
    } else {
        panic!("expected compose view");
    }

    // cc -> bcc
    app.handle_key(KeyCode::Char('s'), KeyModifiers::ALT);
    if let View::Compose(ref state) = app.view {
        assert_eq!(state.step, ComposeStep::Bcc);
    } else {
        panic!("expected compose view");
    }
}

#[test]
fn compose_to_validation() {
    let (imap, smtp) = mock_clients();
    let mut app = App::new(sample_emails(), imap, smtp, SENDER.to_string(), None);
    app.handle_key(KeyCode::Char('r'), KeyModifiers::NONE);

    // advance to the recipient step
    app.handle_key(KeyCode::Char('s'), KeyModifiers::ALT);
    if let View::Compose(ref state) = app.view {
        assert_eq!(state.step, ComposeStep::To);
    }

    // clear the recipient field
    if let View::Compose(ref mut state) = app.view {
        state.to.clear();
        state.to_cursor = 0;
    }

    // trying to advance stays on the step with an error
    app.handle_key(KeyCode::Char('s'), KeyModifiers::ALT);
    if let View::Compose(ref state) = app.view {
        assert_eq!(state.step, ComposeStep::To);
        assert!(state.status_message.is_some());
    } else {
        panic!("expected compose view");
    }
}

#[test]
fn compose_subject_re_prefix() {
    let (imap, smtp) = mock_clients();
    let mut app = App::new(sample_emails(), imap, smtp, SENDER.to_string(), None);
    app.handle_key(KeyCode::Char('r'), KeyModifiers::NONE);
    if let View::Compose(ref state) = app.view {
        // the first thread after reversal starts from uid=3, subject "Third"
        assert!(state.subject.starts_with("Re: "));
    } else {
        panic!("expected compose view");
    }
}

#[test]
fn compose_in_reply_to_set() {
    let (imap, smtp) = mock_clients();
    let mut app = App::new(sample_emails(), imap, smtp, SENDER.to_string(), None);
    app.handle_key(KeyCode::Char('r'), KeyModifiers::NONE);
    if let View::Compose(ref state) = app.view {
        // the first thread after reversal is uid=3 with id msg3@example.com
        assert_eq!(state.in_reply_to.as_deref(), Some("msg3@example.com"));
    } else {
        panic!("expected compose view");
    }
}

#[test]
fn compose_send_calls_smtp() {
    let (imap, smtp) = mock_clients();

    let mut app = App::new(sample_emails(), imap, smtp, SENDER.to_string(), None);
    app.handle_key(KeyCode::Char('r'), KeyModifiers::NONE);

    // advance through all steps: body -> to -> cc -> bcc -> send
    app.handle_key(KeyCode::Char('s'), KeyModifiers::ALT);
    app.handle_key(KeyCode::Char('s'), KeyModifiers::ALT);
    app.handle_key(KeyCode::Char('s'), KeyModifiers::ALT);
    app.handle_key(KeyCode::Char('s'), KeyModifiers::ALT);

    assert!(matches!(app.view, View::Inbox));
    assert_eq!(app.status_message.as_deref(), Some("Reply sent!"));
}

#[test]
fn c_opens_new_email_from_inbox() {
    let (imap, smtp) = mock_clients();
    let mut app = App::new(sample_emails(), imap, smtp, SENDER.to_string(), None);
    app.handle_key(KeyCode::Char('c'), KeyModifiers::NONE);
    if let View::Compose(ref state) = app.view {
        assert!(!state.is_reply);
        assert!(state.subject.is_empty());
        assert!(state.to.is_empty());
        assert!(state.in_reply_to.is_none());
        assert!(state.references.is_empty());
        assert!(state.quoted_text.is_empty());
    } else {
        panic!("expected compose view");
    }
}

#[test]
fn c_opens_new_email_from_detail() {
    let (imap, smtp) = mock_clients();
    let mut app = App::new(sample_emails(), imap, smtp, SENDER.to_string(), None);
    app.handle_key(KeyCode::Enter, KeyModifiers::NONE);
    assert!(matches!(app.view, View::Detail(_)));
    app.handle_key(KeyCode::Char('c'), KeyModifiers::NONE);
    assert!(matches!(app.view, View::Compose(_)));
    if let View::Compose(ref state) = app.view {
        assert!(!state.is_reply);
    }
}

#[test]
fn new_email_step_flow_includes_subject() {
    let (imap, smtp) = mock_clients();
    let mut app = App::new(sample_emails(), imap, smtp, SENDER.to_string(), None);
    app.handle_key(KeyCode::Char('c'), KeyModifiers::NONE);

    // body -> subject
    app.handle_key(KeyCode::Char('s'), KeyModifiers::ALT);
    if let View::Compose(ref state) = app.view {
        assert_eq!(state.step, ComposeStep::Subject);
    } else {
        panic!("expected compose view");
    }

    // an empty subject stays on the step with an error
    app.handle_key(KeyCode::Char('s'), KeyModifiers::ALT);
    if let View::Compose(ref state) = app.view {
        assert_eq!(state.step, ComposeStep::Subject);
        assert!(state.status_message.is_some());
    }

    // type a subject
    app.handle_key(KeyCode::Char('H'), KeyModifiers::NONE);
    app.handle_key(KeyCode::Char('i'), KeyModifiers::NONE);
    if let View::Compose(ref state) = app.view {
        assert_eq!(state.subject, "Hi");
    }

    // subject -> to
    app.handle_key(KeyCode::Char('s'), KeyModifiers::ALT);
    if let View::Compose(ref state) = app.view {
        assert_eq!(state.step, ComposeStep::To);
    } else {
        panic!("expected compose view");
    }
}

#[test]
fn reply_step_flow_skips_subject() {
    let (imap, smtp) = mock_clients();
    let mut app = App::new(sample_emails(), imap, smtp, SENDER.to_string(), None);
    app.handle_key(KeyCode::Char('r'), KeyModifiers::NONE);

    // body -> to (replies skip the subject)
    app.handle_key(KeyCode::Char('s'), KeyModifiers::ALT);
    if let View::Compose(ref state) = app.view {
        assert_eq!(state.step, ComposeStep::To);
    } else {
        panic!("expected compose view");
    }
}

#[test]
fn new_email_send_calls_smtp() {
    let (imap, smtp) = mock_clients();

    let mut app = App::new(sample_emails(), imap, smtp, SENDER.to_string(), None);
    app.handle_key(KeyCode::Char('c'), KeyModifiers::NONE);

    // body -> subject
    app.handle_key(KeyCode::Char('s'), KeyModifiers::ALT);
    // type subject
    app.handle_key(KeyCode::Char('T'), KeyModifiers::NONE);
    app.handle_key(KeyCode::Char('e'), KeyModifiers::NONE);
    app.handle_key(KeyCode::Char('s'), KeyModifiers::NONE);
    app.handle_key(KeyCode::Char('t'), KeyModifiers::NONE);
    // subject -> to
    app.handle_key(KeyCode::Char('s'), KeyModifiers::ALT);
    // type recipient
    app.handle_key(KeyCode::Char('a'), KeyModifiers::NONE);
    app.handle_key(KeyCode::Char('@'), KeyModifiers::NONE);
    app.handle_key(KeyCode::Char('b'), KeyModifiers::NONE);
    // to -> cc
    app.handle_key(KeyCode::Char('s'), KeyModifiers::ALT);
    // cc -> bcc
    app.handle_key(KeyCode::Char('s'), KeyModifiers::ALT);
    // bcc -> send
    app.handle_key(KeyCode::Char('s'), KeyModifiers::ALT);

    assert!(matches!(app.view, View::Inbox));
    assert_eq!(app.status_message.as_deref(), Some("Email sent!"));
}

#[test]
fn seen_flag_kept_after_returning_to_inbox() {
    let (imap, smtp) = mock_clients();
    let mut app = App::new(sample_emails(), imap, smtp, SENDER.to_string(), None);
    assert!(!app.emails[0].seen);
    app.handle_key(KeyCode::Enter, KeyModifiers::NONE);
    assert!(matches!(app.view, View::Detail(_)));
    assert!(app.emails[0].seen);
    app.handle_key(KeyCode::Esc, KeyModifiers::NONE);
    assert!(matches!(app.view, View::Inbox));
    assert!(app.emails[0].seen);
}

#[test]
fn reply_prefills_bracketed_address_and_single_prefix() {
    let (imap, smtp) = mock_clients();
    let emails = vec![
        summary(7, "Re: Plans", "Dana Smith <dana@example.com>", "2025-02-01", false, "hey",
            Some("plans@example.com"), None, vec![]),
    ];
    let mut app = App::new(emails, imap, smtp, SENDER.to_string(), None);
    app.handle_key(KeyCode::Char('r'), KeyModifiers::NONE);
    if let View::Compose(ref state) = app.view {
        assert_eq!(state.to, "dana@example.com");
        // the original already carried a reply prefix: not doubled
        assert_eq!(state.subject, "Re: Plans");
        assert!(state.is_reply);
    } else {
        panic!("expected compose view");
    }
    // the subject step is skipped when advancing a reply
    app.handle_key(KeyCode::Char('s'), KeyModifiers::ALT);
    if let View::Compose(ref state) = app.view {
        assert_eq!(state.step, ComposeStep::To);
    } else {
        panic!("expected compose view");
    }
}

#[test]
fn to_step_accepts_nonempty_value() {
    let (imap, smtp) = mock_clients();
    let mut app = App::new(sample_emails(), imap, smtp, SENDER.to_string(), None);
    app.handle_key(KeyCode::Char('r'), KeyModifiers::NONE);
    app.handle_key(KeyCode::Char('s'), KeyModifiers::ALT);
    if let View::Compose(ref mut state) = app.view {
        state.to.clear();
        state.to_cursor = 0;
    }
    app.handle_key(KeyCode::Char('s'), KeyModifiers::ALT);
    if let View::Compose(ref state) = app.view {
        assert_eq!(state.step, ComposeStep::To);
        assert!(state.status_message.is_some());
    }
    app.handle_key(KeyCode::Char('x'), KeyModifiers::NONE);
    app.handle_key(KeyCode::Char('@'), KeyModifiers::NONE);
    app.handle_key(KeyCode::Char('y'), KeyModifiers::NONE);
    app.handle_key(KeyCode::Char('s'), KeyModifiers::ALT);
    if let View::Compose(ref state) = app.view {
        assert_eq!(state.step, ComposeStep::Cc);
    } else {
        panic!("expected compose view");
    }
}

#[test]
fn send_failure_keeps_compose_content() {
    let (imap, _) = mock_clients();
    let smtp = MockSmtpClient { accept: false };
    let mut app = App::new(sample_emails(), imap, smtp, SENDER.to_string(), None);
    app.handle_key(KeyCode::Char('r'), KeyModifiers::NONE);
    app.handle_key(KeyCode::Char('H'), KeyModifiers::NONE);
    app.handle_key(KeyCode::Char('i'), KeyModifiers::NONE);
    app.handle_key(KeyCode::Char('s'), KeyModifiers::ALT);
    app.handle_key(KeyCode::Char('s'), KeyModifiers::ALT);
    app.handle_key(KeyCode::Char('s'), KeyModifiers::ALT);
    app.handle_key(KeyCode::Char('s'), KeyModifiers::ALT);
    if let View::Compose(ref state) = app.view {
        assert_eq!(state.body_lines[0], "Hi");
        assert!(state.status_message.as_deref().unwrap().starts_with("Send failed: "));
    } else {
        panic!("expected compose view, send failure must not discard content");
    }
}

#[test]
fn detail_enter_toggles_expansion() {
    let (imap, smtp) = mock_clients();
    let mut app = App::new(sample_emails(), imap, smtp, SENDER.to_string(), None);
    app.handle_key(KeyCode::Enter, KeyModifiers::NONE);
    if let View::Detail(ref state) = app.view {
        // the newest message is fetched eagerly on open
        assert!(state.thread[state.active_index].body.is_some());
    } else {
        panic!("expected detail view");
    }
    // collapse, then expand again via an on-demand fetch
    app.handle_key(KeyCode::Enter, KeyModifiers::NONE);
    if let View::Detail(ref state) = app.view {
        assert!(state.thread[state.active_index].body.is_none());
    }
    app.handle_key(KeyCode::Enter, KeyModifiers::NONE);
    if let View::Detail(ref state) = app.view {
        assert!(state.thread[state.active_index].body.is_some());
    }
}

#[test]
fn detail_j_at_end_scrolls_instead_of_moving() {
    let (imap, smtp) = mock_clients();
    let mut app = App::new(sample_emails(), imap, smtp, SENDER.to_string(), None);
    app.handle_key(KeyCode::Enter, KeyModifiers::NONE);
    if let View::Detail(ref state) = app.view {
        assert_eq!(state.active_index, state.thread.len() - 1);
        assert_eq!(state.scroll_offset, 0);
    }
    app.handle_key(KeyCode::Char('j'), KeyModifiers::NONE);
    if let View::Detail(ref state) = app.view {
        assert_eq!(state.active_index, state.thread.len() - 1);
        assert_eq!(state.scroll_offset, 1);
    } else {
        panic!("expected detail view");
    }
    app.handle_key(KeyCode::Char('k'), KeyModifiers::NONE);
    if let View::Detail(ref state) = app.view {
        assert_eq!(state.scroll_offset, 0);
    }
}
