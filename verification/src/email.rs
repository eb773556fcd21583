//! Mail data types, the collaborator interfaces the session drives, and the
//! pure parts of summary assembly: address formatting and message-id
//! deduplication.
use vstd::prelude::*;

verus! {

/// One message as listed in the inbox. `uid` is unique only together with
/// `folder`: cross-folder collisions are possible and must not be conflated.
#[derive(Debug, Clone)]
pub struct EmailSummary {
    pub uid: u32,
    pub folder: String,
    pub subject: String,
    pub from: String,
    pub to: String,
    pub date: String,
    pub seen: bool,
    pub snippet: String,
    pub message_id: Option<String>,
    pub in_reply_to: Option<String>,
    pub references: Vec<String>,
}

/// The fully fetched content of one message.
#[derive(Debug, Clone)]
pub struct EmailBody {
    pub uid: u32,
    pub subject: String,
    pub from: String,
    pub to: Vec<String>,
    pub date: String,
    pub body_text: String,
}

/// An outgoing message handed to the send collaborator.
pub struct Email {
    pub from: String,
    pub to: Vec<String>,
    pub cc: Vec<String>,
    pub bcc: Vec<String>,
    pub subject: String,
    pub body: String,
    pub in_reply_to: Option<String>,
    pub references: Vec<String>,
}

/// An error from the mail-store collaborator.
#[derive(Debug, Clone)]
pub enum ImapError {
    Tls(String),
    Imap(String),
}

/// An error from the send collaborator.
#[derive(Debug, Clone)]
pub enum SmtpError {
    Smtp(String),
    Message(String),
    Address(String),
}

impl SmtpError {
    /// The error text, prefixed by its category.
    pub fn text(&self) -> (r: String)
        ensures
            r@ == self.text_spec(),
    {
        let (prefix, detail) = match self {
            SmtpError::Smtp(d) => ("SMTP error: ", d),
            SmtpError::Message(d) => ("message build error: ", d),
            SmtpError::Address(d) => ("address parse error: ", d),
        };
        let mut r = prefix.to_owned();
        r.append(detail.as_str());
        r
    }

    pub open spec fn text_spec(&self) -> Seq<char> {
        match self {
            SmtpError::Smtp(d) => "SMTP error: "@ + d@,
            SmtpError::Message(d) => "message build error: "@ + d@,
            SmtpError::Address(d) => "address parse error: "@ + d@,
        }
    }
}

/// The mail-store collaborator: fetches, flags and moves messages. The
/// session never relies on what an implementation returns; every outcome is
/// handled.
pub trait ImapClient {
    fn fetch_inbox(&mut self) -> Result<Vec<EmailSummary>, ImapError>;

    fn fetch_email(&mut self, uid: u32, folder: &str) -> Result<EmailBody, ImapError>;

    fn mark_seen(&mut self, uid: u32, folder: &str) -> Result<(), ImapError>;

    fn delete_email(&mut self, uid: u32, folder: &str) -> Result<(), ImapError>;

    fn archive_email(&mut self, uid: u32, folder: &str) -> Result<(), ImapError>;

    fn append(&mut self, folder: &str, content: &[u8]) -> Result<(), ImapError>;
}

/// The send collaborator.
pub trait SmtpClient {
    fn send(&self, email: &Email) -> Result<Vec<u8>, SmtpError>;
}

// ---------------------------------------------------------------------------
// Cloning helpers with exact contracts
// ---------------------------------------------------------------------------

pub fn clone_opt_string(o: &Option<String>) -> (r: Option<String>)
    ensures
        r == *o,
{
    match o {
        Some(s) => Some(s.clone()),
        None => None,
    }
}

/// String equality, stated over the character views.
pub fn string_eq(a: &String, b: &String) -> (r: bool)
    ensures
        r == (a@ == b@),
{
    a.eq(b)
}

pub fn clone_string_vec(v: &Vec<String>) -> (r: Vec<String>)
    ensures
        r@ == v@,
{
    let mut r: Vec<String> = Vec::new();
    let mut i: usize = 0;
    while i < v.len()
        invariant
            i <= v@.len(),
            r@ == v@.subrange(0, i as int),
        decreases v.len() - i,
    {
        r.push(v[i].clone());
        i = i + 1;
        assert(r@ =~= v@.subrange(0, i as int));
    }
    assert(v@.subrange(0, v@.len() as int) =~= v@);
    r
}

// ---------------------------------------------------------------------------
// Address formatting
// ---------------------------------------------------------------------------

pub open spec fn opt_view(o: Option<String>) -> Seq<char> {
    match o {
        Some(s) => s@,
        None => Seq::empty(),
    }
}

/// What an envelope address displays as: `mailbox@host`, prefixed by the
/// display name when both name and address are present.
pub open spec fn format_address_spec(
    name: Option<String>,
    mailbox: Option<String>,
    host: Option<String>,
) -> Seq<char> {
    let mb = opt_view(mailbox);
    let h = opt_view(host);
    let email = if mb.len() == 0 && h.len() == 0 {
        Seq::<char>::empty()
    } else {
        mb + "@"@ + h
    };
    let n = opt_view(name);
    if name is Some && n.len() > 0 && email.len() > 0 {
        n + " <"@ + email + ">"@
    } else {
        email
    }
}

/// Formats an envelope address from its already-decoded fields.
pub fn format_address(name: &Option<String>, mailbox: &Option<String>, host: &Option<String>)
    -> (r: String)
    ensures
        r@ == format_address_spec(*name, *mailbox, *host),
{
    let mb: &str = match mailbox {
        Some(m) => m.as_str(),
        None => "",
    };
    let h: &str = match host {
        Some(x) => x.as_str(),
        None => "",
    };
    proof {
        reveal_strlit("");
    }
    let email: String = if mb.unicode_len() == 0 && h.unicode_len() == 0 {
        String::new()
    } else {
        let mut e = mb.to_owned();
        e.append("@");
        e.append(h);
        e
    };
    if let Some(n) = name {
        if n.unicode_len() > 0 && email.unicode_len() > 0 {
            let mut r = n.clone();
            r.append(" <");
            r.append(email.as_str());
            r.append(">");
            return r;
        }
    }
    email
}

// ---------------------------------------------------------------------------
// Deduplication by message id (first occurrence wins)
// ---------------------------------------------------------------------------

/// The summaries kept once every repeated message id is dropped, keeping the
/// first occurrence; summaries without an id are always kept.
pub open spec fn dedup_rec(s: Seq<EmailSummary>, seen: Set<Seq<char>>) -> Seq<EmailSummary>
    decreases s.len(),
{
    if s.len() == 0 {
        Seq::empty()
    } else {
        let e = s[0];
        if e.message_id is Some {
            let m = e.message_id->0@;
            if seen.contains(m) {
                dedup_rec(s.drop_first(), seen)
            } else {
                seq![e] + dedup_rec(s.drop_first(), seen.insert(m))
            }
        } else {
            seq![e] + dedup_rec(s.drop_first(), seen)
        }
    }
}

pub open spec fn dedup_spec(s: Seq<EmailSummary>) -> Seq<EmailSummary> {
    dedup_rec(s, Set::empty())
}

/// Drops every summary whose message id already occurred earlier in the
/// list; the first occurrence wins. Summaries without an id are kept.
pub fn dedup_by_message_id(emails: Vec<EmailSummary>) -> (r: Vec<EmailSummary>)
    ensures
        r@ == dedup_spec(emails@),
{
    let ghost orig = emails@;
    let mut src = emails;
    let mut r: Vec<EmailSummary> = Vec::new();
    let mut seen: Vec<String> = Vec::new();
    let ghost mut seen_set = Set::<Seq<char>>::empty();
    while src.len() > 0
        invariant
            seen_set.finite(),
            forall|m: Seq<char>|
                seen_set.contains(m) <==> exists|k: int| 0 <= k < seen@.len() && seen@[k]@ == m,
            dedup_spec(orig) == r@ + dedup_rec(src@, seen_set),
        decreases src@.len(),
    {
        let ghost pre = src@;
        let e = src.remove(0);
        proof {
            assert(pre.remove(0) =~= pre.drop_first());
            assert(e == pre[0]);
        }
        match &e.message_id {
            Some(mid) => {
                let mut dup = false;
                let mut k: usize = 0;
                while k < seen.len()
                    invariant
                        k <= seen@.len(),
                        dup <==> exists|k2: int| 0 <= k2 < k && seen@[k2]@ == mid@,
                    decreases seen.len() - k,
                {
                    if string_eq(&seen[k], mid) {
                        dup = true;
                        assert(seen@[k as int]@ == mid@);
                    }
                    k = k + 1;
                }
                if dup {
                    assert(seen_set.contains(mid@));
                    assert(dedup_rec(pre, seen_set) == dedup_rec(src@, seen_set));
                } else {
                    assert(!seen_set.contains(mid@));
                    let ghost old_seen = seen@;
                    seen.push(mid.clone());
                    proof {
                        seen_set = seen_set.insert(mid@);
                        assert forall|m: Seq<char>| seen_set.contains(m) implies exists|k2: int|
                            0 <= k2 < seen@.len() && seen@[k2]@ == m by {
                            if m == mid@ {
                                assert(seen@[seen@.len() - 1]@ == m);
                            } else {
                                let k2 = choose|k2: int|
                                    0 <= k2 < old_seen.len() && old_seen[k2]@ == m;
                                assert(seen@[k2]@ == m);
                            }
                        }
                        assert forall|m: Seq<char>|
                            (exists|k2: int| 0 <= k2 < seen@.len() && seen@[k2]@ == m)
                            implies seen_set.contains(m) by {
                            let k2 = choose|k2: int| 0 <= k2 < seen@.len() && seen@[k2]@ == m;
                            if k2 < old_seen.len() {
                                assert(old_seen[k2]@ == m);
                            } else {
                                assert(m == mid@);
                            }
                        }
                    }
                    r.push(e);
                }
            },
            None => {
                r.push(e);
            },
        }
    }
    assert(dedup_rec(src@, seen_set) =~= Seq::<EmailSummary>::empty());
    assert(r@ =~= dedup_spec(orig));
    r
}

} // verus!
