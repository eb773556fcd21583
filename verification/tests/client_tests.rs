use thrum::email::{Email, EmailBody, EmailSummary, ImapClient, ImapError, SmtpClient, SmtpError};

/// A scripted mail store that hands back a fixed inbox.
struct ScriptedImapClient {
    inbox: Vec<EmailSummary>,
}

impl ImapClient for ScriptedImapClient {
    fn fetch_inbox(&mut self) -> Result<Vec<EmailSummary>, ImapError> {
        Ok(self.inbox.clone())
    }

    fn fetch_email(&mut self, _uid: u32, _folder: &str) -> Result<EmailBody, ImapError> {
        Err(ImapError::Imap("message not found".to_string()))
    }

    fn mark_seen(&mut self, _uid: u32, _folder: &str) -> Result<(), ImapError> {
        Ok(())
    }

    fn delete_email(&mut self, _uid: u32, _folder: &str) -> Result<(), ImapError> {
        Ok(())
    }

    fn archive_email(&mut self, _uid: u32, _folder: &str) -> Result<(), ImapError> {
        Ok(())
    }

    fn append(&mut self, _folder: &str, _content: &[u8]) -> Result<(), ImapError> {
        Ok(())
    }
}

/// A scripted send client that accepts or refuses every message.
struct ScriptedSmtpClient {
    accept: bool,
}

impl SmtpClient for ScriptedSmtpClient {
    fn send(&self, _email: &Email) -> Result<Vec<u8>, SmtpError> {
        if self.accept {
            Ok(vec![])
        } else {
            Err(SmtpError::Message("missing destination address".to_string()))
        }
    }
}

#[test]
fn mock_client_returns_emails() {
    let mut mock = ScriptedImapClient {
        inbox: vec![EmailSummary {
            uid: 1,
            folder: "INBOX".to_string(),
            subject: "Hello".to_string(),
            from: "alice@example.com".to_string(),
            to: "me@example.com".to_string(),
            date: "2025-01-01".to_string(),
            seen: false,
            snippet: "Hey there".to_string(),
            message_id: None,
            in_reply_to: None,
            references: vec![],
        }],
    };

    let emails = mock.fetch_inbox().unwrap();
    assert_eq!(emails.len(), 1);
    assert_eq!(emails[0].subject, "Hello");
}

#[test]
fn mock_client_returns_empty() {
    let mut mock = ScriptedImapClient { inbox: vec![] };

    let emails = mock.fetch_inbox().unwrap();
    assert!(emails.is_empty());
}

#[test]
fn mock_client_sends_email() {
    let mock = ScriptedSmtpClient { accept: true };

    let email = Email {
        from: "sender@example.com".to_string(),
        to: vec!["recipient@example.com".to_string()],
        cc: vec![],
        bcc: vec![],
        subject: "Test".to_string(),
        body: "Hello".to_string(),
        in_reply_to: None,
        references: vec![],
    };

    assert!(mock.send(&email).is_ok());
}

#[test]
fn mock_client_send_fails() {
    let mock = ScriptedSmtpClient { accept: false };

    let email = Email {
        from: "sender@example.com".to_string(),
        to: vec![],
        cc: vec![],
        bcc: vec![],
        subject: "Test".to_string(),
        body: "Hello".to_string(),
        in_reply_to: None,
        references: vec![],
    };

    let result = mock.send(&email);
    assert!(result.is_err());
}
