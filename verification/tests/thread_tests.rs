use thrum::email::EmailSummary;
use thrum::thread::{build_threads, extract_email_address, normalize_subject};

fn summary(uid: u32, subject: &str, message_id: Option<&str>, in_reply_to: Option<&str>,
    references: Vec<&str>) -> EmailSummary {
    EmailSummary {
        uid,
        folder: "INBOX".to_string(),
        subject: subject.to_string(),
        from: "someone@example.com".to_string(),
        to: String::new(),
        date: "2025-01-01".to_string(),
        seen: false,
        snippet: String::new(),
        message_id: message_id.map(|s| s.to_string()),
        in_reply_to: in_reply_to.map(|s| s.to_string()),
        references: references.into_iter().map(|s| s.to_string()).collect(),
    }
}

#[test]
fn normalize_strips_repeated_prefixes_case_insensitively() {
    assert_eq!(normalize_subject("Re: Re: Hi"), "hi");
    assert_eq!(normalize_subject("hi"), "hi");
    assert_eq!(normalize_subject("RE:   rE: Meeting notes"), "meeting notes");
    assert_eq!(normalize_subject("  Trimmed  "), "trimmed");
    assert_eq!(normalize_subject("   "), "");
    assert_eq!(normalize_subject(""), "");
}

#[test]
fn normalize_applied_twice_changes_nothing() {
    for s in ["Re: Re: Hi", "RE: x", "plain", "  re:re:re:deep  "] {
        let once = normalize_subject(s);
        assert_eq!(normalize_subject(&once), once);
    }
}

#[test]
fn extract_email_address_picks_bracketed_part() {
    assert_eq!(extract_email_address("Alice <alice@example.com>"), "alice@example.com");
    assert_eq!(extract_email_address("bob@example.com"), "bob@example.com");
    assert_eq!(extract_email_address(""), "");
}

#[test]
fn reply_link_pair_forms_one_thread_oldest_first() {
    // newest first: the reply sits at index 0, the original at index 1
    let emails = vec![
        summary(2, "Re: Original", Some("reply@x"), Some("orig@x"), vec!["orig@x"]),
        summary(1, "Original", Some("orig@x"), None, vec![]),
    ];
    let threads = build_threads(&emails);
    assert_eq!(threads, vec![vec![1usize, 0usize]]);
}

#[test]
fn reference_chain_groups_when_reply_link_missing() {
    let emails = vec![
        summary(3, "whatever", Some("c@x"), None, vec!["a@x", "b@x"]),
        summary(2, "unrelated subject", Some("b@x"), None, vec![]),
    ];
    let threads = build_threads(&emails);
    assert_eq!(threads, vec![vec![1usize, 0usize]]);
}

#[test]
fn subject_fallback_groups_pair() {
    let emails = vec![
        summary(2, "RE: Hello World", None, None, vec![]),
        summary(1, "Hello World", None, None, vec![]),
    ];
    let threads = build_threads(&emails);
    assert_eq!(threads, vec![vec![1usize, 0usize]]);
}

#[test]
fn empty_subjects_never_group() {
    let emails = vec![
        summary(2, "   ", None, None, vec![]),
        summary(1, "", None, None, vec![]),
    ];
    let threads = build_threads(&emails);
    assert_eq!(threads, vec![vec![0usize], vec![1usize]]);
}

#[test]
fn threads_ordered_by_earliest_member_under_reordering() {
    // two unrelated pairs, interleaved; threads come out ordered by their
    // earliest member index, members oldest first
    let a0 = summary(4, "Re: Alpha", Some("a2@x"), Some("a1@x"), vec![]);
    let b0 = summary(3, "Re: Beta", Some("b2@x"), Some("b1@x"), vec![]);
    let a1 = summary(2, "Alpha", Some("a1@x"), None, vec![]);
    let b1 = summary(1, "Beta", Some("b1@x"), None, vec![]);

    let emails = vec![a0.clone(), b0.clone(), a1.clone(), b1.clone()];
    let threads = build_threads(&emails);
    assert_eq!(threads, vec![vec![2usize, 0usize], vec![3usize, 1usize]]);

    // swapping the two unrelated pairs keeps two threads of the same
    // shape, still sorted by earliest member
    let emails2 = vec![b0, a0, b1, a1];
    let threads2 = build_threads(&emails2);
    assert_eq!(threads2, vec![vec![2usize, 0usize], vec![3usize, 1usize]]);
}

#[test]
fn self_citing_pair_terminates() {
    // a malformed graph in which the two messages cite each other must not
    // hang the builder, and every message still lands in a thread
    let emails = vec![
        summary(2, "Loop", Some("m1@x"), Some("m2@x"), vec![]),
        summary(1, "Other loop", Some("m2@x"), Some("m1@x"), vec![]),
    ];
    let threads = build_threads(&emails);
    let total: usize = threads.iter().map(|t| t.len()).sum();
    assert_eq!(total, 2);
}

#[test]
fn message_without_links_is_its_own_root() {
    let emails = vec![summary(1, "Solo", Some("solo@x"), None, vec![])];
    let threads = build_threads(&emails);
    assert_eq!(threads, vec![vec![0usize]]);
}
