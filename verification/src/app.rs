//! The interactive session state machine: a tri-state view model (inbox,
//! detail, compose) over the mailbox list and thread index, with a
//! prefix-chord command layer and a linear compose wizard. All mutation goes
//! through `handle_key`; collaborator calls run to completion inside it.
use vstd::prelude::*;
use vstd::view::View as _;

use crate::email::{
    clone_opt_string, clone_string_vec, string_eq, Email, EmailBody, EmailSummary, ImapClient,
    SmtpClient,
};
use crate::text::{chars_to_string, lower_seq, starts_with, str_to_chars, sub_vec, trim_spec,
    trim_vec};
use crate::thread::{build_threads, build_threads_spec, extract_email_address,
    extract_email_address_spec};

verus! {

/// The key alphabet the session distinguishes.
#[derive(Debug, Clone, Copy, PartialEq, Eq, Structural)]
pub enum KeyCode {
    Char(char),
    Enter,
    Esc,
    Backspace,
    Left,
    Right,
    Up,
    Down,
    Home,
    End,
}

/// The one modifier the session distinguishes.
#[allow(non_camel_case_types)]
#[derive(Debug, Clone, Copy, PartialEq, Eq, Structural)]
pub enum KeyModifiers {
    NONE,
    ALT,
}

/// Selection state of the inbox table.
#[derive(Debug, Clone, Copy, PartialEq, Eq, Structural)]
pub struct TableState {
    pub selected_index: Option<usize>,
}

impl TableState {
    pub fn new() -> (r: TableState)
        ensures
            r.selected_index is None,
    {
        TableState { selected_index: None }
    }

    pub fn selected(&self) -> (r: Option<usize>)
        ensures
            r == self.selected_index,
    {
        self.selected_index
    }

    pub fn select(&mut self, s: Option<usize>)
        ensures
            final(self).selected_index == s,
    {
        self.selected_index = s;
    }
}

/// The steps of the compose wizard, in order; `Subject` is skipped for
/// replies.
#[derive(Debug, Clone, Copy, PartialEq, Eq, Structural)]
pub enum ComposeStep {
    Body,
    Subject,
    To,
    Cc,
    Bcc,
}

pub struct ComposeState {
    pub step: ComposeStep,
    pub is_reply: bool,
    pub body_lines: Vec<String>,
    pub cursor_row: usize,
    pub cursor_col: usize,
    pub to: String,
    pub to_cursor: usize,
    pub cc: String,
    pub cc_cursor: usize,
    pub bcc: String,
    pub bcc_cursor: usize,
    pub subject: String,
    pub subject_cursor: usize,
    pub in_reply_to: Option<String>,
    pub references: Vec<String>,
    pub quoted_text: String,
    pub status_message: Option<String>,
}

impl ComposeState {
    /// Cursors stay inside their fields; the body always has a line.
    pub open spec fn wf(&self) -> bool {
        &&& self.body_lines@.len() > 0
        &&& (self.cursor_row as int) < self.body_lines@.len()
        &&& self.cursor_col <= self.body_lines@[self.cursor_row as int]@.len()
        &&& self.to_cursor <= self.to@.len()
        &&& self.cc_cursor <= self.cc@.len()
        &&& self.bcc_cursor <= self.bcc@.len()
        &&& self.subject_cursor <= self.subject@.len()
    }
}

pub struct ThreadMessage {
    pub email_index: usize,
    pub body: Option<EmailBody>,
}

pub struct DetailState {
    pub thread: Vec<ThreadMessage>,
    pub active_index: usize,
    pub scroll_offset: u16,
    pub status_message: Option<String>,
}

impl DetailState {
    /// The open thread is non-empty, the active pointer stays inside it, and
    /// every member points into the summary list.
    pub open spec fn wf(&self, emails_len: int) -> bool {
        &&& self.thread@.len() > 0
        &&& (self.active_index as int) < self.thread@.len()
        &&& forall|m: int|
            0 <= m < self.thread@.len() ==> (#[trigger] self.thread@[m]).email_index < emails_len
    }
}

/// The active view; exactly one owns interaction at a time.
pub enum View {
    Inbox,
    Detail(DetailState),
    Compose(Box<ComposeState>),
}

/// The session: mailbox list (newest first), derived thread index, active
/// view, prefix-chord flag, and the two collaborators.
pub struct App<I: ImapClient, S: SmtpClient> {
    pub should_quit: bool,
    pub emails: Vec<EmailSummary>,
    pub table_state: TableState,
    pub view: View,
    pub threads: Vec<Vec<usize>>,
    pub pending_prefix: bool,
    pub status_message: Option<String>,
    pub imap_client: I,
    pub smtp_client: S,
    pub sender_from: String,
    pub sent_folder: Option<String>,
}

impl<I: ImapClient, S: SmtpClient> App<I, S> {
    /// Structural soundness of the session: the selection and every stored
    /// index stays inside its list.
    pub open spec fn inv(&self) -> bool {
        &&& match self.table_state.selected_index {
            Some(s) => (s as int) < self.threads@.len(),
            None => true,
        }
        &&& forall|k: int| 0 <= k < self.threads@.len() ==> (#[trigger] self.threads@[k])@.len() > 0
        &&& forall|k: int, m: int|
            0 <= k < self.threads@.len() && 0 <= m < self.threads@[k]@.len()
                ==> (#[trigger] self.threads@[k]@[m]) < self.emails@.len()
        &&& match self.view {
            View::Inbox => true,
            View::Detail(d) => d.wf(self.emails@.len() as int),
            View::Compose(c) => c.wf(),
        }
    }
}

} // verus!

verus! {

/// Element-wise copy of an index vector.
pub fn copy_usize_vec(v: &Vec<usize>) -> (r: Vec<usize>)
    ensures
        r@ == v@,
{
    let mut r: Vec<usize> = Vec::new();
    let mut i: usize = 0;
    while i < v.len()
        invariant
            i <= v@.len(),
            r@ == v@.subrange(0, i as int),
        decreases v.len() - i,
    {
        r.push(v[i]);
        i = i + 1;
        assert(r@ =~= v@.subrange(0, i as int));
    }
    assert(v@.subrange(0, v@.len() as int) =~= v@);
    r
}

/// The uids of the summaries at the given indices, out-of-range indices
/// skipped.
pub open spec fn uids_of(emails: Seq<EmailSummary>, idxs: Seq<usize>) -> Seq<u32>
    decreases idxs.len(),
{
    if idxs.len() == 0 {
        Seq::empty()
    } else {
        (if (idxs[0] as int) < emails.len() {
            seq![emails[idxs[0] as int].uid]
        } else {
            Seq::empty()
        }) + uids_of(emails, idxs.drop_first())
    }
}

/// The selection after a mutation: clamped to the new last thread, or
/// cleared when the list became empty.
pub open spec fn fix_sel_spec(sel: Option<usize>, threads_len: int) -> Option<usize> {
    match sel {
        None => None,
        Some(s) => if threads_len == 0 {
            None
        } else if s as int >= threads_len {
            Some((threads_len - 1) as usize)
        } else {
            Some(s)
        },
    }
}

impl<I: ImapClient, S: SmtpClient> App<I, S> {
    /// Everything except the table selection (and the collaborators) is
    /// unchanged.
    pub open spec fn frame_sel(pre: Self, post: Self) -> bool {
        &&& post.should_quit == pre.should_quit
        &&& post.emails == pre.emails
        &&& post.view == pre.view
        &&& post.threads == pre.threads
        &&& post.pending_prefix == pre.pending_prefix
        &&& post.status_message == pre.status_message
        &&& post.sender_from == pre.sender_from
        &&& post.sent_folder == pre.sent_folder
    }

    /// Nothing observable changed (the collaborators may have been asked).
    pub open spec fn frame_all(pre: Self, post: Self) -> bool {
        &&& Self::frame_sel(pre, post)
        &&& post.table_state == pre.table_state
    }

    /// The email indices the current selection stands for: the whole
    /// selected thread in the inbox, the active message in the detail view.
    pub open spec fn sel_indices_spec(app: Self) -> Seq<usize> {
        match app.view {
            View::Detail(d) => seq![d.thread@[d.active_index as int].email_index],
            View::Inbox => match app.table_state.selected_index {
                None => Seq::empty(),
                Some(s) => if (s as int) < app.threads@.len() {
                    app.threads@[s as int]@
                } else {
                    Seq::empty()
                },
            },
            View::Compose(_) => Seq::empty(),
        }
    }

    pub open spec fn select_next_rel(pre: Self, post: Self) -> bool {
        &&& Self::frame_sel(pre, post)
        &&& if pre.threads@.len() == 0 {
            post.table_state == pre.table_state
        } else {
            post.table_state.selected_index == Some(
                {
                    let cur = match pre.table_state.selected_index {
                        Some(s) => s as int,
                        None => 0,
                    };
                    if cur + 1 < pre.threads@.len() {
                        (cur + 1) as usize
                    } else {
                        (pre.threads@.len() - 1) as usize
                    }
                },
            )
        }
    }

    pub open spec fn select_previous_rel(pre: Self, post: Self) -> bool {
        &&& Self::frame_sel(pre, post)
        &&& if pre.threads@.len() == 0 {
            post.table_state == pre.table_state
        } else {
            post.table_state.selected_index == Some(
                {
                    let cur = match pre.table_state.selected_index {
                        Some(s) => s as int,
                        None => 0,
                    };
                    if cur > 0 {
                        (cur - 1) as usize
                    } else {
                        0usize
                    }
                },
            )
        }
    }

    pub open spec fn select_first_rel(pre: Self, post: Self) -> bool {
        &&& Self::frame_sel(pre, post)
        &&& if pre.threads@.len() == 0 {
            post.table_state == pre.table_state
        } else {
            post.table_state.selected_index == Some(0usize)
        }
    }

    pub open spec fn select_last_rel(pre: Self, post: Self) -> bool {
        &&& Self::frame_sel(pre, post)
        &&& if pre.threads@.len() == 0 {
            post.table_state == pre.table_state
        } else {
            post.table_state.selected_index == Some((pre.threads@.len() - 1) as usize)
        }
    }

    fn select_next(&mut self)
        requires
            old(self).inv(),
        ensures
            final(self).inv(),
            Self::select_next_rel(*old(self), *final(self)),
    {
        if self.threads.len() == 0 {
            return;
        }
        let current = match self.table_state.selected() {
            Some(s) => s,
            None => 0,
        };
        let len = self.threads.len();
        let next = if current + 1 < len {
            current + 1
        } else {
            len - 1
        };
        self.table_state.select(Some(next));
    }

    fn select_previous(&mut self)
        requires
            old(self).inv(),
        ensures
            final(self).inv(),
            Self::select_previous_rel(*old(self), *final(self)),
    {
        if self.threads.len() == 0 {
            return;
        }
        let current = match self.table_state.selected() {
            Some(s) => s,
            None => 0,
        };
        let prev = if current > 0 {
            current - 1
        } else {
            0
        };
        self.table_state.select(Some(prev));
    }

    fn select_first(&mut self)
        requires
            old(self).inv(),
        ensures
            final(self).inv(),
            Self::select_first_rel(*old(self), *final(self)),
    {
        if self.threads.len() > 0 {
            self.table_state.select(Some(0));
        }
    }

    fn select_last(&mut self)
        requires
            old(self).inv(),
        ensures
            final(self).inv(),
            Self::select_last_rel(*old(self), *final(self)),
    {
        if self.threads.len() > 0 {
            self.table_state.select(Some(self.threads.len() - 1));
        }
    }

    fn fix_selection(&mut self)
        ensures
            Self::frame_sel(*old(self), *final(self)),
            final(self).table_state.selected_index == fix_sel_spec(
                old(self).table_state.selected_index,
                old(self).threads@.len() as int,
            ),
    {
        match self.table_state.selected() {
            Some(selected) => {
                if selected >= self.threads.len() && self.threads.len() > 0 {
                    self.table_state.select(Some(self.threads.len() - 1));
                } else if self.threads.len() == 0 {
                    self.table_state.select(None);
                }
            },
            None => {},
        }
    }

    /// The email indices of the current selection.
    fn selected_email_indices(&self) -> (r: Vec<usize>)
        requires
            self.inv(),
        ensures
            r@ == Self::sel_indices_spec(*self),
            forall|m: int| 0 <= m < r@.len() ==> (#[trigger] r@[m] as int) < self.emails@.len(),
    {
        match &self.view {
            View::Detail(state) => {
                let mut r: Vec<usize> = Vec::new();
                r.push(state.thread[state.active_index].email_index);
                assert(r@ =~= Self::sel_indices_spec(*self));
                r
            },
            View::Inbox => {
                match self.table_state.selected() {
                    None => {
                        let r: Vec<usize> = Vec::new();
                        assert(r@ =~= Self::sel_indices_spec(*self));
                        r
                    },
                    Some(selected) => {
                        if selected < self.threads.len() {
                            copy_usize_vec(&self.threads[selected])
                        } else {
                            let r: Vec<usize> = Vec::new();
                            assert(r@ =~= Self::sel_indices_spec(*self));
                            r
                        }
                    },
                }
            },
            View::Compose(_) => {
                let r: Vec<usize> = Vec::new();
                assert(r@ =~= Self::sel_indices_spec(*self));
                r
            },
        }
    }

    /// The uids those indices stand for.
    fn selected_uids(&self) -> (r: Vec<u32>)
        requires
            self.inv(),
        ensures
            r@ == uids_of(self.emails@, Self::sel_indices_spec(*self)),
    {
        let idxs = self.selected_email_indices();
        let mut r: Vec<u32> = Vec::new();
        let mut i: usize = 0;
        assert(idxs@.subrange(0, idxs@.len() as int) =~= idxs@);
        while i < idxs.len()
            invariant
                i <= idxs@.len(),
                forall|m: int|
                    0 <= m < idxs@.len() ==> (#[trigger] idxs@[m] as int) < self.emails@.len(),
                uids_of(self.emails@, idxs@) == r@ + uids_of(
                    self.emails@,
                    idxs@.subrange(i as int, idxs@.len() as int),
                ),
            decreases idxs.len() - i,
        {
            proof {
                let rest = idxs@.subrange(i as int, idxs@.len() as int);
                assert(rest.drop_first() =~= idxs@.subrange(i + 1, idxs@.len() as int));
            }
            let idx = idxs[i];
            if idx < self.emails.len() {
                r.push(self.emails[idx].uid);
            }
            i = i + 1;
        }
        assert(uids_of(self.emails@, idxs@.subrange(idxs@.len() as int, idxs@.len() as int))
            =~= Seq::<u32>::empty());
        assert(r@ =~= uids_of(self.emails@, idxs@));
        r
    }
}

} // verus!

verus! {

fn contains_u32(v: &Vec<u32>, x: u32) -> (r: bool)
    ensures
        r == v@.contains(x),
{
    let mut i: usize = 0;
    while i < v.len()
        invariant
            i <= v@.len(),
            forall|j: int| 0 <= j < i ==> v@[j] != x,
        decreases v.len() - i,
    {
        if v[i] == x {
            assert(v@[i as int] == x);
            return true;
        }
        i = i + 1;
    }
    false
}

fn contains_usize(v: &Vec<usize>, x: usize) -> (r: bool)
    ensures
        r == v@.contains(x),
{
    let mut i: usize = 0;
    while i < v.len()
        invariant
            i <= v@.len(),
            forall|j: int| 0 <= j < i ==> v@[j] != x,
        decreases v.len() - i,
    {
        if v[i] == x {
            assert(v@[i as int] == x);
            return true;
        }
        i = i + 1;
    }
    false
}

/// The summaries from position `j` on whose position is not listed in
/// `idxs`.
pub open spec fn keep_not_indexed(s: Seq<EmailSummary>, idxs: Seq<usize>, j: int) -> Seq<
    EmailSummary,
>
    decreases s.len() - j,
{
    if j < 0 || j >= s.len() {
        Seq::empty()
    } else {
        (if idxs.contains(j as usize) {
            Seq::empty()
        } else {
            seq![s[j]]
        }) + keep_not_indexed(s, idxs, j + 1)
    }
}

/// A summary with its seen flag raised when its uid is listed.
pub open spec fn mark_one(e: EmailSummary, uids: Seq<u32>) -> EmailSummary {
    if uids.contains(e.uid) {
        EmailSummary { seen: true, ..e }
    } else {
        e
    }
}

impl<I: ImapClient, S: SmtpClient> App<I, S> {
    /// Removal of the selected messages: the listed summaries leave the
    /// list, threads are rebuilt, the selection is repaired and the view
    /// returns to the inbox. With nothing selected, nothing changes.
    pub open spec fn remove_selected_rel(pre: Self, post: Self) -> bool {
        let idxs = Self::sel_indices_spec(pre);
        if idxs.len() == 0 {
            Self::frame_all(pre, post)
        } else {
            &&& post.emails@ == keep_not_indexed(pre.emails@, idxs, 0)
            &&& post.threads.deep_view() == build_threads_spec(post.emails@)
            &&& post.table_state.selected_index == fix_sel_spec(
                pre.table_state.selected_index,
                post.threads@.len() as int,
            )
            &&& post.view is Inbox
            &&& post.should_quit == pre.should_quit
            &&& post.pending_prefix == pre.pending_prefix
            &&& post.status_message == pre.status_message
            &&& post.sender_from == pre.sender_from
            &&& post.sent_folder == pre.sent_folder
        }
    }

    /// Marking the selected messages read: seen flags raised in place for
    /// every summary sharing a selected uid; nothing else moves.
    pub open spec fn mark_read_rel(pre: Self, post: Self) -> bool {
        let uids = uids_of(pre.emails@, Self::sel_indices_spec(pre));
        if uids.len() == 0 {
            Self::frame_all(pre, post)
        } else {
            &&& post.emails@.len() == pre.emails@.len()
            &&& forall|j: int|
                0 <= j < pre.emails@.len() ==> post.emails@[j] == mark_one(
                    #[trigger] pre.emails@[j],
                    uids,
                )
            &&& post.view == pre.view
            &&& post.threads == pre.threads
            &&& post.table_state == pre.table_state
            &&& post.should_quit == pre.should_quit
            &&& post.pending_prefix == pre.pending_prefix
            &&& post.status_message == pre.status_message
            &&& post.sender_from == pre.sender_from
            &&& post.sent_folder == pre.sent_folder
        }
    }

    /// The label stub: a "not implemented" notice in the status line (and
    /// in the open detail view), nothing else.
    pub open spec fn label_rel(pre: Self, post: Self) -> bool {
        &&& (post.status_message matches Some(m) && m@ == "Labels not yet implemented"@)
        &&& match pre.view {
            View::Detail(d) => (post.view matches View::Detail(d2) && {
                &&& d2.thread == d.thread
                &&& d2.active_index == d.active_index
                &&& d2.scroll_offset == d.scroll_offset
                &&& d2.status_message matches Some(m2) && m2@ == "Labels not yet implemented"@
            }),
            _ => post.view == pre.view,
        }
        &&& post.emails == pre.emails
        &&& post.threads == pre.threads
        &&& post.table_state == pre.table_state
        &&& post.should_quit == pre.should_quit
        &&& post.pending_prefix == pre.pending_prefix
        &&& post.sender_from == pre.sender_from
        &&& post.sent_folder == pre.sent_folder
    }

    /// Shared removal path of the delete and archive chords; which store
    /// operation ran is the collaborator's business and invisible here.
    fn remove_selected(&mut self, archive: bool)
        requires
            old(self).inv(),
        ensures
            final(self).inv(),
            Self::remove_selected_rel(*old(self), *final(self)),
    {
        let idxs = self.selected_email_indices();
        if idxs.len() == 0 {
            return;
        }
        // best-effort store calls; errors are deliberately ignored so the
        // local state stays authoritative for rendering
        let mut i: usize = 0;
        while i < idxs.len()
            invariant
                old(self).inv(),
                i <= idxs@.len(),
                forall|m: int|
                    0 <= m < idxs@.len() ==> (#[trigger] idxs@[m] as int) < self.emails@.len(),
                self.should_quit == old(self).should_quit,
                self.emails == old(self).emails,
                self.table_state == old(self).table_state,
                self.view == old(self).view,
                self.threads == old(self).threads,
                self.pending_prefix == old(self).pending_prefix,
                self.status_message == old(self).status_message,
                self.sender_from == old(self).sender_from,
                self.sent_folder == old(self).sent_folder,
            decreases idxs.len() - i,
        {
            let idx = idxs[i];
            let uid = self.emails[idx].uid;
            let folder = self.emails[idx].folder.clone();
            if archive {
                let _ = self.imap_client.archive_email(uid, folder.as_str());
            } else {
                let _ = self.imap_client.delete_email(uid, folder.as_str());
            }
            i = i + 1;
        }
        // drop the affected summaries, scanning from the end so earlier
        // positions keep their meaning
        let ghost old_emails = self.emails@;
        let mut j: usize = self.emails.len();
        assert(keep_not_indexed(old_emails, idxs@, j as int) =~= Seq::<EmailSummary>::empty());
        while j > 0
            invariant
                j <= self.emails@.len() <= old_emails.len(),
                self.emails@.subrange(0, j as int) == old_emails.subrange(0, j as int),
                self.emails@ == old_emails.subrange(0, j as int) + keep_not_indexed(
                    old_emails,
                    idxs@,
                    j as int,
                ),
                self.should_quit == old(self).should_quit,
                self.table_state == old(self).table_state,
                self.view == old(self).view,
                self.threads == old(self).threads,
                self.pending_prefix == old(self).pending_prefix,
                self.status_message == old(self).status_message,
                self.sender_from == old(self).sender_from,
                self.sent_folder == old(self).sent_folder,
            decreases j,
        {
            j = j - 1;
            let ghost pre_emails = self.emails@;
            if contains_usize(&idxs, j) {
                self.emails.remove(j);
                proof {
                    assert(self.emails@ =~= old_emails.subrange(0, j as int) + keep_not_indexed(
                        old_emails,
                        idxs@,
                        j as int,
                    ));
                    assert(self.emails@.subrange(0, j as int) =~= old_emails.subrange(
                        0,
                        j as int,
                    ));
                }
            } else {
                proof {
                    assert(self.emails@ =~= old_emails.subrange(0, j as int) + keep_not_indexed(
                        old_emails,
                        idxs@,
                        j as int,
                    ));
                }
            }
        }
        assert(self.emails@ =~= keep_not_indexed(old_emails, idxs@, 0));
        let new_threads = build_threads(self.emails.as_slice());
        proof {
            crate::thread::lemma_threads_deep_view(new_threads);
        }
        self.threads = new_threads;
        self.view = View::Inbox;
        self.fix_selection();
    }

    fn delete_selected_email(&mut self)
        requires
            old(self).inv(),
        ensures
            final(self).inv(),
            Self::remove_selected_rel(*old(self), *final(self)),
    {
        self.remove_selected(false);
    }

    fn archive_selected_email(&mut self)
        requires
            old(self).inv(),
        ensures
            final(self).inv(),
            Self::remove_selected_rel(*old(self), *final(self)),
    {
        self.remove_selected(true);
    }

    fn mark_selected_read(&mut self)
        requires
            old(self).inv(),
        ensures
            final(self).inv(),
            Self::mark_read_rel(*old(self), *final(self)),
    {
        let idxs = self.selected_email_indices();
        let uids = self.selected_uids();
        if uids.len() == 0 {
            return;
        }
        // best-effort store calls; errors are deliberately ignored
        let mut i: usize = 0;
        while i < idxs.len()
            invariant
                old(self).inv(),
                i <= idxs@.len(),
                forall|m: int|
                    0 <= m < idxs@.len() ==> (#[trigger] idxs@[m] as int) < self.emails@.len(),
                self.should_quit == old(self).should_quit,
                self.emails == old(self).emails,
                self.table_state == old(self).table_state,
                self.view == old(self).view,
                self.threads == old(self).threads,
                self.pending_prefix == old(self).pending_prefix,
                self.status_message == old(self).status_message,
                self.sender_from == old(self).sender_from,
                self.sent_folder == old(self).sent_folder,
            decreases idxs.len() - i,
        {
            let idx = idxs[i];
            let uid = self.emails[idx].uid;
            let folder = self.emails[idx].folder.clone();
            let _ = self.imap_client.mark_seen(uid, folder.as_str());
            i = i + 1;
        }
        // raise the seen flags in place
        let ghost old_emails = self.emails@;
        let mut updated: Vec<EmailSummary> = Vec::new();
        while self.emails.len() > 0
            invariant
                updated@.len() + self.emails@.len() == old_emails.len(),
                self.emails@ == old_emails.subrange(updated@.len() as int, old_emails.len() as int),
                forall|m: int|
                    0 <= m < updated@.len() ==> updated@[m] == mark_one(
                        #[trigger] old_emails[m],
                        uids@,
                    ),
                uids@ == uids_of(old(self).emails@, Self::sel_indices_spec(*old(self))),
                self.should_quit == old(self).should_quit,
                self.table_state == old(self).table_state,
                self.view == old(self).view,
                self.threads == old(self).threads,
                self.pending_prefix == old(self).pending_prefix,
                self.status_message == old(self).status_message,
                self.sender_from == old(self).sender_from,
                self.sent_folder == old(self).sent_folder,
            decreases self.emails@.len(),
        {
            let ghost pre_emails = self.emails@;
            let e = self.emails.remove(0);
            proof {
                assert(pre_emails.remove(0) =~= pre_emails.drop_first());
                assert(self.emails@ =~= old_emails.subrange(
                    updated@.len() as int + 1,
                    old_emails.len() as int,
                ));
            }
            if contains_u32(&uids, e.uid) {
                let marked = EmailSummary { seen: true, ..e };
                updated.push(marked);
            } else {
                updated.push(e);
            }
        }
        self.emails = updated;
    }

    fn handle_prefix_chord(&mut self, key: KeyCode)
        requires
            old(self).inv(),
        ensures
            final(self).inv(),
            key == KeyCode::Char('d') ==> Self::remove_selected_rel(*old(self), *final(self)),
            key == KeyCode::Char('a') ==> Self::remove_selected_rel(*old(self), *final(self)),
            key == KeyCode::Char('r') ==> Self::mark_read_rel(*old(self), *final(self)),
            key == KeyCode::Char('l') ==> Self::label_rel(*old(self), *final(self)),
            (key != KeyCode::Char('d') && key != KeyCode::Char('a') && key != KeyCode::Char('r')
                && key != KeyCode::Char('l')) ==> Self::frame_all(*old(self), *final(self)),
    {
        match key {
            KeyCode::Char(c) => {
                if c == 'd' {
                    self.delete_selected_email();
                } else if c == 'a' {
                    self.archive_selected_email();
                } else if c == 'r' {
                    self.mark_selected_read();
                } else if c == 'l' {
                    self.status_message = Some("Labels not yet implemented".to_owned());
                    match &mut self.view {
                        View::Detail(state) => {
                            state.status_message = Some("Labels not yet implemented".to_owned());
                        },
                        _ => {},
                    }
                }
                // an unknown chord key silently cancels the chord
            },
            _ => {},
        }
    }
}

} // verus!

verus! {

impl<I: ImapClient, S: SmtpClient> App<I, S> {
    /// Opening the selected thread: its newest message is marked seen
    /// locally (the store call is best-effort) and its body fetched; older
    /// messages start collapsed. With nothing selected, nothing changes.
    pub open spec fn open_email_rel(pre: Self, post: Self) -> bool {
        let idxs = Self::sel_indices_spec(pre);
        if idxs.len() == 0 {
            Self::frame_all(pre, post)
        } else {
            let last = idxs[idxs.len() - 1] as int;
            &&& post.emails@ == pre.emails@.update(
                last,
                EmailSummary { seen: true, ..pre.emails@[last] },
            )
            &&& (post.view matches View::Detail(d) && {
                &&& d.thread@.len() == idxs.len()
                &&& forall|m: int|
                    0 <= m < idxs.len() ==> (#[trigger] d.thread@[m]).email_index == idxs[m]
                &&& forall|m: int|
                    0 <= m < idxs.len() - 1 ==> (#[trigger] d.thread@[m]).body is None
                &&& d.active_index as int == idxs.len() - 1
                &&& d.scroll_offset == 0
                &&& d.status_message is None
            })
            &&& post.threads == pre.threads
            &&& post.table_state == pre.table_state
            &&& post.should_quit == pre.should_quit
            &&& post.pending_prefix == pre.pending_prefix
            &&& post.status_message == pre.status_message
            &&& post.sender_from == pre.sender_from
            &&& post.sent_folder == pre.sent_folder
        }
    }

    fn open_email(&mut self)
        requires
            old(self).inv(),
        ensures
            final(self).inv(),
            Self::open_email_rel(*old(self), *final(self)),
    {
        let thread_indices = self.selected_email_indices();
        if thread_indices.len() == 0 {
            return;
        }
        // the most recent message is the last one (the thread is oldest
        // first)
        let most_recent_idx = thread_indices.len() - 1;
        let most_recent_email_idx = thread_indices[most_recent_idx];
        let uid = self.emails[most_recent_email_idx].uid;
        let folder = self.emails[most_recent_email_idx].folder.clone();

        // mark seen: local state is authoritative, the store call may fail
        let _ = self.imap_client.mark_seen(uid, folder.as_str());
        let ghost pre_emails = self.emails@;
        let mut e = self.emails.remove(most_recent_email_idx);
        e.seen = true;
        self.emails.insert(most_recent_email_idx, e);
        proof {
            assert(self.emails@ =~= pre_emails.update(
                most_recent_email_idx as int,
                EmailSummary { seen: true, ..pre_emails[most_recent_email_idx as int] },
            ));
        }

        // fetch the newest message's body eagerly
        let body = match self.imap_client.fetch_email(uid, folder.as_str()) {
            Ok(b) => Some(b),
            Err(_) => None,
        };

        let mut thread: Vec<ThreadMessage> = Vec::new();
        let mut i: usize = 0;
        while i < most_recent_idx
            invariant
                i <= most_recent_idx,
                most_recent_idx == thread_indices@.len() - 1,
                thread@.len() == i,
                forall|m: int|
                    0 <= m < i ==> (#[trigger] thread@[m]).email_index == thread_indices@[m],
                forall|m: int| 0 <= m < i ==> (#[trigger] thread@[m]).body is None,
            decreases most_recent_idx - i,
        {
            thread.push(ThreadMessage { email_index: thread_indices[i], body: None });
            i = i + 1;
        }
        thread.push(ThreadMessage { email_index: most_recent_email_idx, body });

        self.view = View::Detail(
            DetailState {
                thread,
                active_index: most_recent_idx,
                scroll_offset: 0,
                status_message: None,
            },
        );
    }

    /// The indices a reply addresses: the whole selected thread in the
    /// inbox, the whole open thread in the detail view.
    pub open spec fn reply_indices_spec(pre: Self) -> Seq<usize> {
        match pre.view {
            View::Inbox => match pre.table_state.selected_index {
                None => Seq::empty(),
                Some(s) => if (s as int) < pre.threads@.len() {
                    pre.threads@[s as int]@
                } else {
                    Seq::empty()
                },
            },
            View::Detail(d) => Seq::new(d.thread@.len(), |m: int| d.thread@[m].email_index),
            View::Compose(_) => Seq::empty(),
        }
    }

    /// The reply subject: unchanged when the original already starts with a
    /// reply prefix, else prefixed once.
    pub open spec fn reply_subject_spec(subj: Seq<char>) -> Seq<char> {
        if starts_with(lower_seq(trim_spec(subj)), "re:"@) {
            subj
        } else {
            "Re: "@ + subj
        }
    }

    /// The reply reference chain: the original's references, extended by
    /// its message id when not already present.
    pub open spec fn reply_references_spec(rt: EmailSummary) -> Seq<String> {
        if rt.message_id is Some && !(exists|k: int|
            0 <= k < rt.references@.len() && (#[trigger] rt.references@[k])@ == rt.message_id->0@) {
            rt.references@.push(rt.message_id->0)
        } else {
            rt.references@
        }
    }

    /// Starting a reply: a compose view seeded from the thread's newest
    /// message; the quoted text depends on what the store returns and is
    /// not pinned here.
    pub open spec fn start_reply_rel(pre: Self, post: Self) -> bool {
        let idxs = Self::reply_indices_spec(pre);
        if idxs.len() == 0 {
            Self::frame_all(pre, post)
        } else {
            let rt = pre.emails@[idxs[idxs.len() - 1] as int];
            &&& (post.view matches View::Compose(c) && {
                &&& c.step == ComposeStep::Body
                &&& c.is_reply == true
                &&& c.body_lines@.len() == 1 && c.body_lines@[0]@.len() == 0
                &&& c.cursor_row == 0 && c.cursor_col == 0
                &&& c.to@ == extract_email_address_spec(rt.from@)
                &&& c.to_cursor == c.to@.len()
                &&& c.cc@.len() == 0 && c.cc_cursor == 0
                &&& c.bcc@.len() == 0 && c.bcc_cursor == 0
                &&& c.subject@ == Self::reply_subject_spec(rt.subject@)
                &&& c.subject_cursor == 0
                &&& c.in_reply_to == rt.message_id
                &&& c.references@ == Self::reply_references_spec(rt)
                &&& c.status_message is None
            })
            &&& post.emails == pre.emails
            &&& post.threads == pre.threads
            &&& post.table_state == pre.table_state
            &&& post.should_quit == pre.should_quit
            &&& post.pending_prefix == pre.pending_prefix
            &&& post.status_message == pre.status_message
            &&& post.sender_from == pre.sender_from
            &&& post.sent_folder == pre.sent_folder
        }
    }

    /// Starting a blank compose; a no-op when one is already open.
    pub open spec fn start_new_rel(pre: Self, post: Self) -> bool {
        if pre.view is Compose {
            Self::frame_all(pre, post)
        } else {
            &&& (post.view matches View::Compose(c) && {
                &&& c.step == ComposeStep::Body
                &&& c.is_reply == false
                &&& c.body_lines@.len() == 1 && c.body_lines@[0]@.len() == 0
                &&& c.cursor_row == 0 && c.cursor_col == 0
                &&& c.to@.len() == 0 && c.to_cursor == 0
                &&& c.cc@.len() == 0 && c.cc_cursor == 0
                &&& c.bcc@.len() == 0 && c.bcc_cursor == 0
                &&& c.subject@.len() == 0 && c.subject_cursor == 0
                &&& c.in_reply_to is None
                &&& c.references@.len() == 0
                &&& c.quoted_text@.len() == 0
                &&& c.status_message is None
            })
            &&& post.emails == pre.emails
            &&& post.threads == pre.threads
            &&& post.table_state == pre.table_state
            &&& post.should_quit == pre.should_quit
            &&& post.pending_prefix == pre.pending_prefix
            &&& post.status_message == pre.status_message
            &&& post.sender_from == pre.sender_from
            &&& post.sent_folder == pre.sent_folder
        }
    }

    fn start_new_email(&mut self)
        requires
            old(self).inv(),
        ensures
            final(self).inv(),
            Self::start_new_rel(*old(self), *final(self)),
    {
        match &self.view {
            View::Compose(_) => {
                return;
            },
            _ => {},
        }
        proof {
            reveal_strlit("");
        }
        let mut body_lines: Vec<String> = Vec::new();
        body_lines.push(String::new());
        self.view = View::Compose(
            Box::new(
                ComposeState {
                    step: ComposeStep::Body,
                    is_reply: false,
                    body_lines,
                    cursor_row: 0,
                    cursor_col: 0,
                    to: String::new(),
                    to_cursor: 0,
                    cc: String::new(),
                    cc_cursor: 0,
                    bcc: String::new(),
                    bcc_cursor: 0,
                    subject: String::new(),
                    subject_cursor: 0,
                    in_reply_to: None,
                    references: Vec::new(),
                    quoted_text: String::new(),
                    status_message: None,
                },
            ),
        );
    }

    fn start_reply(&mut self)
        requires
            old(self).inv(),
        ensures
            final(self).inv(),
            Self::start_reply_rel(*old(self), *final(self)),
    {
        let thread_indices: Vec<usize> = match &self.view {
            View::Inbox => {
                match self.table_state.selected() {
                    Some(selected) => {
                        if selected < self.threads.len() {
                            copy_usize_vec(&self.threads[selected])
                        } else {
                            Vec::new()
                        }
                    },
                    None => {
                        assert(Self::reply_indices_spec(*self).len() == 0);
                        return;
                    },
                }
            },
            View::Detail(state) => {
                let mut idxs: Vec<usize> = Vec::new();
                let mut m: usize = 0;
                while m < state.thread.len()
                    invariant
                        m <= state.thread@.len(),
                        idxs@.len() == m,
                        forall|k: int|
                            0 <= k < m ==> #[trigger] idxs@[k] == state.thread@[k].email_index,
                    decreases state.thread.len() - m,
                {
                    idxs.push(state.thread[m].email_index);
                    m = m + 1;
                }
                assert(idxs@ =~= Seq::new(
                    state.thread@.len(),
                    |k: int| state.thread@[k].email_index,
                ));
                idxs
            },
            View::Compose(_) => {
                return;
            },
        };
        assert(thread_indices@ == Self::reply_indices_spec(*self));
        if thread_indices.len() == 0 {
            return;
        }

        // the most recent message is last in the thread (oldest first)
        let reply_to_idx = thread_indices[thread_indices.len() - 1];
        assert((reply_to_idx as int) < self.emails@.len());

        // subject with a single reply prefix
        let subj_chars = str_to_chars(self.emails[reply_to_idx].subject.as_str());
        let trimmed = trim_vec(&subj_chars);
        let lowered = crate::text::to_lower_vec(&trimmed);
        let re_pat = str_to_chars("re:");
        proof {
            reveal_strlit("re:");
        }
        let subject: String = if crate::text::starts_with_vec(&lowered, &re_pat) {
            self.emails[reply_to_idx].subject.clone()
        } else {
            let mut s = "Re: ".to_owned();
            s.append(self.emails[reply_to_idx].subject.as_str());
            s
        };

        let in_reply_to = clone_opt_string(&self.emails[reply_to_idx].message_id);

        // reference chain, extended by the replied-to id when new
        let mut references = clone_string_vec(&self.emails[reply_to_idx].references);
        match &self.emails[reply_to_idx].message_id {
            Some(mid) => {
                let mut found = false;
                let mut k: usize = 0;
                while k < references.len()
                    invariant
                        k <= references@.len(),
                        references@ == self.emails@[reply_to_idx as int].references@,
                        found <==> exists|k2: int|
                            0 <= k2 < k && (#[trigger] references@[k2])@ == mid@,
                    decreases references.len() - k,
                {
                    if string_eq(&references[k], mid) {
                        found = true;
                        assert(references@[k as int]@ == mid@);
                    }
                    k = k + 1;
                }
                if !found {
                    references.push(mid.clone());
                }
            },
            None => {},
        }

        let to = extract_email_address(self.emails[reply_to_idx].from.as_str());
        let to_chars = str_to_chars(to.as_str());
        let to_cursor = to_chars.len();

        // quoted text: every message of the thread, fetched best-effort
        let mut quoted = String::new();
        let mut first_part = true;
        let mut qi: usize = 0;
        while qi < thread_indices.len()
            invariant
                old(self).inv(),
                qi <= thread_indices@.len(),
                forall|m: int|
                    0 <= m < thread_indices@.len() ==> (#[trigger] thread_indices@[m] as int)
                        < self.emails@.len(),
                self.should_quit == old(self).should_quit,
                self.emails == old(self).emails,
                self.table_state == old(self).table_state,
                self.view == old(self).view,
                self.threads == old(self).threads,
                self.pending_prefix == old(self).pending_prefix,
                self.status_message == old(self).status_message,
                self.sender_from == old(self).sender_from,
                self.sent_folder == old(self).sent_folder,
            decreases thread_indices.len() - qi,
        {
            let idx = thread_indices[qi];
            let uid = self.emails[idx].uid;
            let folder = self.emails[idx].folder.clone();
            match self.imap_client.fetch_email(uid, folder.as_str()) {
                Ok(body) => {
                    if !first_part {
                        quoted.append("\n\n");
                    }
                    first_part = false;
                    quoted.append("On ");
                    quoted.append(self.emails[idx].date.as_str());
                    quoted.append(", ");
                    quoted.append(self.emails[idx].from.as_str());
                    quoted.append(" wrote:\n");
                    let body_chars = str_to_chars(body.body_text.as_str());
                    let lines = crate::text::split_lines_vec(&body_chars);
                    let mut li: usize = 0;
                    while li < lines.len()
                        invariant
                            li <= lines@.len(),
                        decreases lines.len() - li,
                    {
                        if li > 0 {
                            quoted.append("\n");
                        }
                        quoted.append("> ");
                        let line_str = chars_to_string(&lines[li]);
                        quoted.append(line_str.as_str());
                        li = li + 1;
                    }
                },
                Err(_) => {},
            }
            qi = qi + 1;
        }

        let mut body_lines: Vec<String> = Vec::new();
        proof {
            reveal_strlit("");
        }
        body_lines.push(String::new());
        self.view = View::Compose(
            Box::new(
                ComposeState {
                    step: ComposeStep::Body,
                    is_reply: true,
                    body_lines,
                    cursor_row: 0,
                    cursor_col: 0,
                    to,
                    to_cursor,
                    cc: String::new(),
                    cc_cursor: 0,
                    bcc: String::new(),
                    bcc_cursor: 0,
                    subject,
                    subject_cursor: 0,
                    in_reply_to,
                    references,
                    quoted_text: quoted,
                    status_message: None,
                },
            ),
        );
    }
}

} // verus!

verus! {

/// One editing step on a single-line field: insert at the cursor, delete
/// before it, or move it, clamped to the field.
pub open spec fn line_edit_spec(f0: Seq<char>, c0: int, key: KeyCode) -> (Seq<char>, int) {
    match key {
        KeyCode::Char(ch) => (f0.insert(c0, ch), c0 + 1),
        KeyCode::Backspace => if c0 > 0 {
            (f0.remove(c0 - 1), c0 - 1)
        } else {
            (f0, c0)
        },
        KeyCode::Left => if c0 > 0 {
            (f0, c0 - 1)
        } else {
            (f0, c0)
        },
        KeyCode::Right => if c0 < f0.len() {
            (f0, c0 + 1)
        } else {
            (f0, c0)
        },
        _ => (f0, c0),
    }
}

/// Routes one key into a single-line field with its cursor (a character
/// index).
pub fn handle_line_input(field: &mut String, cursor: &mut usize, key: KeyCode)
    requires
        *old(cursor) <= old(field)@.len(),
    ensures
        (final(field)@, *final(cursor) as int) == line_edit_spec(
            old(field)@,
            *old(cursor) as int,
            key,
        ),
        *final(cursor) <= final(field)@.len(),
{
    match key {
        KeyCode::Char(ch) => {
            let mut chars = str_to_chars(field.as_str());
            chars.insert(*cursor, ch);
            *field = chars_to_string(&chars);
            let n = chars.len();
            assert(*cursor < n);
            *cursor = *cursor + 1;
        },
        KeyCode::Backspace => {
            if *cursor > 0 {
                let mut chars = str_to_chars(field.as_str());
                *cursor = *cursor - 1;
                chars.remove(*cursor);
                *field = chars_to_string(&chars);
            }
        },
        KeyCode::Left => {
            if *cursor > 0 {
                *cursor = *cursor - 1;
            }
        },
        KeyCode::Right => {
            let len = field.as_str().unicode_len();
            if *cursor < len {
                *cursor = *cursor + 1;
            }
        },
        _ => {},
    }
}

/// One editing step in the multi-line body: character insertion, line
/// splitting on enter, deletion with line joining, and clamped cursor
/// movement.
pub open spec fn body_edit_spec(lines0: Seq<Seq<char>>, r0: int, c0: int, key: KeyCode) -> (
    Seq<Seq<char>>,
    int,
    int,
) {
    let line = lines0[r0];
    match key {
        KeyCode::Char(ch) => (lines0.update(r0, line.insert(c0, ch)), r0, c0 + 1),
        KeyCode::Enter => (
            lines0.update(r0, line.subrange(0, c0)).insert(
                r0 + 1,
                line.subrange(c0, line.len() as int),
            ),
            r0 + 1,
            0,
        ),
        KeyCode::Backspace => if c0 > 0 {
            (lines0.update(r0, line.remove(c0 - 1)), r0, c0 - 1)
        } else if r0 > 0 {
            (
                lines0.update(r0 - 1, lines0[r0 - 1] + line).remove(r0),
                r0 - 1,
                lines0[r0 - 1].len() as int,
            )
        } else {
            (lines0, r0, c0)
        },
        KeyCode::Left => if c0 > 0 {
            (lines0, r0, c0 - 1)
        } else {
            (lines0, r0, c0)
        },
        KeyCode::Right => if c0 < line.len() {
            (lines0, r0, c0 + 1)
        } else {
            (lines0, r0, c0)
        },
        KeyCode::Up => if r0 > 0 {
            (lines0, r0 - 1, if c0 <= lines0[r0 - 1].len() {
                c0
            } else {
                lines0[r0 - 1].len() as int
            })
        } else {
            (lines0, r0, c0)
        },
        KeyCode::Down => if r0 + 1 < lines0.len() {
            (lines0, r0 + 1, if c0 <= lines0[r0 + 1].len() {
                c0
            } else {
                lines0[r0 + 1].len() as int
            })
        } else {
            (lines0, r0, c0)
        },
        _ => (lines0, r0, c0),
    }
}

/// Routes one key into the body editor. Only the body lines and the two
/// cursors change.
pub fn handle_body_input(state: &mut ComposeState, key: KeyCode)
    requires
        old(state).wf(),
    ensures
        final(state).wf(),
        ({
            let post = *final(state);
            (post.body_lines.deep_view(), post.cursor_row as int, post.cursor_col as int)
        }) == body_edit_spec(
            old(state).body_lines.deep_view(),
            old(state).cursor_row as int,
            old(state).cursor_col as int,
            key,
        ),
        final(state).step == old(state).step,
        final(state).is_reply == old(state).is_reply,
        final(state).to == old(state).to,
        final(state).to_cursor == old(state).to_cursor,
        final(state).cc == old(state).cc,
        final(state).cc_cursor == old(state).cc_cursor,
        final(state).bcc == old(state).bcc,
        final(state).bcc_cursor == old(state).bcc_cursor,
        final(state).subject == old(state).subject,
        final(state).subject_cursor == old(state).subject_cursor,
        final(state).in_reply_to == old(state).in_reply_to,
        final(state).references == old(state).references,
        final(state).quoted_text == old(state).quoted_text,
        final(state).status_message == old(state).status_message,
{
    proof {
        crate::text::lemma_strings_deep_view(state.body_lines);
    }
    let ghost lines0 = state.body_lines.deep_view();
    let row = state.cursor_row;
    match key {
        KeyCode::Char(ch) => {
            let line = state.body_lines.remove(row);
            let mut chars = str_to_chars(line.as_str());
            chars.insert(state.cursor_col, ch);
            let newline = chars_to_string(&chars);
            state.body_lines.insert(row, newline);
            let n = chars.len();
            assert(state.cursor_col < n);
            state.cursor_col = state.cursor_col + 1;
            proof {
                crate::text::lemma_strings_deep_view(state.body_lines);
                assert(state.body_lines.deep_view() =~= lines0.update(
                    row as int,
                    lines0[row as int].insert(old(state).cursor_col as int, ch),
                ));
            }
        },
        KeyCode::Enter => {
            let line = state.body_lines.remove(row);
            let chars = str_to_chars(line.as_str());
            let prefix = sub_vec(&chars, 0, state.cursor_col);
            let suffix = sub_vec(&chars, state.cursor_col, chars.len());
            state.body_lines.insert(row, chars_to_string(&prefix));
            let nlines = state.body_lines.len();
            assert(row < nlines);
            state.body_lines.insert(row + 1, chars_to_string(&suffix));
            state.cursor_row = row + 1;
            state.cursor_col = 0;
            proof {
                crate::text::lemma_strings_deep_view(state.body_lines);
                let c0 = old(state).cursor_col as int;
                let l0 = lines0[row as int];
                assert(state.body_lines.deep_view() =~= lines0.update(
                    row as int,
                    l0.subrange(0, c0),
                ).insert(row as int + 1, l0.subrange(c0, l0.len() as int)));
            }
        },
        KeyCode::Backspace => {
            if state.cursor_col > 0 {
                let line = state.body_lines.remove(row);
                let mut chars = str_to_chars(line.as_str());
                state.cursor_col = state.cursor_col - 1;
                chars.remove(state.cursor_col);
                state.body_lines.insert(row, chars_to_string(&chars));
                proof {
                    crate::text::lemma_strings_deep_view(state.body_lines);
                    assert(state.body_lines.deep_view() =~= lines0.update(
                        row as int,
                        lines0[row as int].remove(old(state).cursor_col - 1),
                    ));
                }
            } else if state.cursor_row > 0 {
                let line = state.body_lines.remove(row);
                let prev = state.body_lines.remove(row - 1);
                let prev_chars = str_to_chars(prev.as_str());
                let mut merged = prev.clone();
                merged.append(line.as_str());
                state.body_lines.insert(row - 1, merged);
                state.cursor_row = row - 1;
                state.cursor_col = prev_chars.len();
                proof {
                    crate::text::lemma_strings_deep_view(state.body_lines);
                    assert(state.body_lines.deep_view() =~= lines0.update(
                        row - 1,
                        lines0[row - 1] + lines0[row as int],
                    ).remove(row as int));
                }
            }
        },
        KeyCode::Left => {
            if state.cursor_col > 0 {
                state.cursor_col = state.cursor_col - 1;
            }
        },
        KeyCode::Right => {
            let len = state.body_lines[row].as_str().unicode_len();
            if state.cursor_col < len {
                state.cursor_col = state.cursor_col + 1;
            }
        },
        KeyCode::Up => {
            if state.cursor_row > 0 {
                state.cursor_row = row - 1;
                let len = state.body_lines[row - 1].as_str().unicode_len();
                if state.cursor_col > len {
                    state.cursor_col = len;
                }
            }
        },
        KeyCode::Down => {
            let nlines = state.body_lines.len();
            assert(row < nlines);
            if row + 1 < nlines {
                state.cursor_row = row + 1;
                let len = state.body_lines[row + 1].as_str().unicode_len();
                if state.cursor_col > len {
                    state.cursor_col = len;
                }
            }
        },
        _ => {},
    }
    proof {
        crate::text::lemma_strings_deep_view(state.body_lines);
    }
}

} // verus!

verus! {

/// Comma-separated recipients: each entry trimmed, empties dropped.
pub open spec fn clean_parts(parts: Seq<Seq<char>>) -> Seq<Seq<char>>
    decreases parts.len(),
{
    if parts.len() == 0 {
        Seq::empty()
    } else {
        (if trim_spec(parts[0]).len() > 0 {
            seq![trim_spec(parts[0])]
        } else {
            Seq::empty()
        }) + clean_parts(parts.drop_first())
    }
}

pub open spec fn split_recipients_spec(s: Seq<char>) -> Seq<Seq<char>> {
    clean_parts(crate::text::split_seq_spec(s, ","@))
}

/// Splits a recipients field on commas, trimming and dropping empty
/// entries.
#[verifier::rlimit(50)]
pub fn split_recipients(s: &String) -> (r: Vec<String>)
    ensures
        r.deep_view() == split_recipients_spec(s@),
{
    let chars = str_to_chars(s.as_str());
    let comma = str_to_chars(",");
    proof {
        reveal_strlit(",");
    }
    let parts = crate::text::split_seq_vec(&chars, &comma);
    proof {
        crate::text::lemma_lines_deep_view(parts);
    }
    let ghost pd = parts.deep_view();
    let mut r: Vec<String> = Vec::new();
    let mut i: usize = 0;
    proof {
        crate::text::lemma_strings_deep_view(r);
        assert(pd.subrange(0, pd.len() as int) =~= pd);
    }
    while i < parts.len()
        invariant
            i <= parts@.len(),
            pd == parts.deep_view(),
            pd.len() == parts@.len(),
            forall|m: int| 0 <= m < parts@.len() ==> pd[m] == parts@[m]@,
            split_recipients_spec(s@) == r.deep_view() + clean_parts(
                pd.subrange(i as int, pd.len() as int),
            ),
        decreases parts.len() - i,
    {
        proof {
            let rest = pd.subrange(i as int, pd.len() as int);
            assert(rest[0] == parts@[i as int]@);
            assert(rest.drop_first() =~= pd.subrange(i + 1, pd.len() as int));
        }
        let trimmed = trim_vec(&parts[i]);
        if trimmed.len() > 0 {
            let ghost rdeep = r.deep_view();
            r.push(chars_to_string(&trimmed));
            proof {
                crate::text::lemma_strings_deep_view(r);
                assert(r.deep_view() =~= rdeep + seq![trim_spec(pd[i as int])]);
            }
        }
        i = i + 1;
    }
    proof {
        assert(clean_parts(pd.subrange(pd.len() as int, pd.len() as int)) =~= Seq::<
            Seq<char>,
        >::empty());
        assert(r.deep_view() =~= split_recipients_spec(s@));
    }
    r
}

/// The body lines joined by newlines.
pub open spec fn join_lines(lines: Seq<Seq<char>>) -> Seq<char>
    decreases lines.len(),
{
    if lines.len() == 0 {
        Seq::empty()
    } else if lines.len() == 1 {
        lines[0]
    } else {
        lines[0] + "\n"@ + join_lines(lines.drop_first())
    }
}

/// The outgoing body: the typed lines, and the quoted text after a blank
/// line when there is any.
pub open spec fn outgoing_body_spec(lines: Seq<Seq<char>>, quoted: Seq<char>) -> Seq<char> {
    if quoted.len() > 0 {
        join_lines(lines) + "\n\n"@ + quoted
    } else {
        join_lines(lines)
    }
}

/// Builds the outgoing message exactly as the wizard state prescribes:
/// recipients split on commas and cleaned, body lines joined, the quoted
/// text appended verbatim after a blank line.
#[verifier::rlimit(100)]
pub fn compose_outgoing(state: &ComposeState, sender_from: &String) -> (r: Email)
    ensures
        r.from == *sender_from,
        r.to.deep_view() == split_recipients_spec(state.to@),
        r.cc.deep_view() == split_recipients_spec(state.cc@),
        r.bcc.deep_view() == split_recipients_spec(state.bcc@),
        r.subject == state.subject,
        r.body@ == outgoing_body_spec(state.body_lines.deep_view(), state.quoted_text@),
        r.in_reply_to == state.in_reply_to,
        r.references@ == state.references@,
{
    proof {
        crate::text::lemma_strings_deep_view(state.body_lines);
        reveal_strlit("\n");
        reveal_strlit("\n\n");
    }
    let ghost lines0 = state.body_lines.deep_view();
    let mut body = String::new();
    let mut i: usize = 0;
    while i < state.body_lines.len()
        invariant
            i <= state.body_lines@.len(),
            lines0 == state.body_lines.deep_view(),
            lines0.len() == state.body_lines@.len(),
            forall|m: int| 0 <= m < lines0.len() ==> lines0[m] == state.body_lines@[m]@,
            i == 0 ==> body@ == Seq::<char>::empty(),
            0 < i <= lines0.len() ==> body@ == join_lines(lines0.subrange(0, i as int)),
        decreases state.body_lines.len() - i,
    {
        if i > 0 {
            body.append("\n");
        }
        body.append(state.body_lines[i].as_str());
        proof {
            if i > 0 {
                lemma_join_lines_snoc(lines0.subrange(0, i as int), lines0[i as int]);
                assert(lines0.subrange(0, i + 1) =~= lines0.subrange(0, i as int).push(
                    lines0[i as int],
                ));
            } else {
                assert(lines0.subrange(0, 1) =~= seq![lines0[0]]);
                assert(join_lines(lines0.subrange(0, 1)) == lines0[0]);
            }
        }
        i = i + 1;
    }
    proof {
        assert(lines0.subrange(0, lines0.len() as int) =~= lines0);
    }
    if state.quoted_text.as_str().unicode_len() > 0 {
        body.append("\n\n");
        body.append(state.quoted_text.as_str());
    }
    Email {
        from: sender_from.clone(),
        to: split_recipients(&state.to),
        cc: split_recipients(&state.cc),
        bcc: split_recipients(&state.bcc),
        subject: state.subject.clone(),
        body,
        in_reply_to: clone_opt_string(&state.in_reply_to),
        references: clone_string_vec(&state.references),
    }
}

/// Appending one more line to a join adds one newline and the line.
proof fn lemma_join_lines_snoc(lines: Seq<Seq<char>>, extra: Seq<char>)
    requires
        lines.len() > 0,
    ensures
        join_lines(lines.push(extra)) == join_lines(lines) + "\n"@ + extra,
    decreases lines.len(),
{
    if lines.len() == 1 {
        assert(lines.push(extra).drop_first() =~= seq![extra]);
        assert(lines.push(extra)[0] == lines[0]);
        assert(join_lines(seq![extra]) == extra);
        assert(join_lines(lines.push(extra)) =~= join_lines(lines) + "\n"@ + extra);
    } else {
        assert(lines.push(extra).drop_first() =~= lines.drop_first().push(extra));
        lemma_join_lines_snoc(lines.drop_first(), extra);
        assert(join_lines(lines.push(extra)) == lines[0] + "\n"@ + join_lines(
            lines.drop_first().push(extra),
        ));
        assert(join_lines(lines.push(extra)) =~= join_lines(lines) + "\n"@ + extra);
    }
}

} // verus!

verus! {

impl<I: ImapClient, S: SmtpClient> App<I, S> {
    /// Only the quit flag is raised.
    pub open spec fn quit_rel(pre: Self, post: Self) -> bool {
        &&& post.should_quit == true
        &&& post.emails == pre.emails
        &&& post.view == pre.view
        &&& post.threads == pre.threads
        &&& post.table_state == pre.table_state
        &&& post.pending_prefix == pre.pending_prefix
        &&& post.status_message == pre.status_message
        &&& post.sender_from == pre.sender_from
        &&& post.sent_folder == pre.sent_folder
    }

    /// Only the prefix chord is armed.
    pub open spec fn arm_prefix_rel(pre: Self, post: Self) -> bool {
        &&& post.pending_prefix == true
        &&& post.emails == pre.emails
        &&& post.view == pre.view
        &&& post.threads == pre.threads
        &&& post.table_state == pre.table_state
        &&& post.should_quit == pre.should_quit
        &&& post.status_message == pre.status_message
        &&& post.sender_from == pre.sender_from
        &&& post.sent_folder == pre.sent_folder
    }

    /// Only the view returns to the inbox.
    pub open spec fn to_inbox_rel(pre: Self, post: Self) -> bool {
        &&& post.view is Inbox
        &&& post.emails == pre.emails
        &&& post.threads == pre.threads
        &&& post.table_state == pre.table_state
        &&& post.should_quit == pre.should_quit
        &&& post.pending_prefix == pre.pending_prefix
        &&& post.status_message == pre.status_message
        &&& post.sender_from == pre.sender_from
        &&& post.sent_folder == pre.sent_folder
    }

    /// One key in the inbox view: quit, motion, open,
    /// reply, compose, chord arming; anything else is ignored.
    pub open spec fn inbox_rel(pre: Self, post: Self, key: KeyCode) -> bool {
        if key == KeyCode::Char('q') {
            Self::quit_rel(pre, post)
        } else if key == KeyCode::Char('j') || key == KeyCode::Down {
            Self::select_next_rel(pre, post)
        } else if key == KeyCode::Char('k') || key == KeyCode::Up {
            Self::select_previous_rel(pre, post)
        } else if key == KeyCode::Char('g') || key == KeyCode::Home {
            Self::select_first_rel(pre, post)
        } else if key == KeyCode::Char('G') || key == KeyCode::End {
            Self::select_last_rel(pre, post)
        } else if key == KeyCode::Enter {
            Self::open_email_rel(pre, post)
        } else if key == KeyCode::Char('r') {
            Self::start_reply_rel(pre, post)
        } else if key == KeyCode::Char('c') {
            Self::start_new_rel(pre, post)
        } else if key == KeyCode::Char('m') {
            Self::arm_prefix_rel(pre, post)
        } else {
            Self::frame_all(pre, post)
        }
    }

    fn handle_inbox_key(&mut self, key: KeyCode)
        requires
            old(self).inv(),
        ensures
            final(self).inv(),
            Self::inbox_rel(*old(self), *final(self), key),
    {
        match key {
            KeyCode::Char(c) => {
                if c == 'q' {
                    self.should_quit = true;
                } else if c == 'j' {
                    self.select_next();
                } else if c == 'k' {
                    self.select_previous();
                } else if c == 'g' {
                    self.select_first();
                } else if c == 'G' {
                    self.select_last();
                } else if c == 'r' {
                    self.start_reply();
                } else if c == 'c' {
                    self.start_new_email();
                } else if c == 'm' {
                    self.pending_prefix = true;
                }
            },
            KeyCode::Down => self.select_next(),
            KeyCode::Up => self.select_previous(),
            KeyCode::Home => self.select_first(),
            KeyCode::End => self.select_last(),
            KeyCode::Enter => self.open_email(),
            _ => {},
        }
    }

    /// One key in the detail view: back, quit, reply, compose, chord
    /// arming, motion (moving the active message, scrolling at the ends),
    /// and expand/collapse on enter.
    pub open spec fn detail_rel(pre: Self, post: Self, key: KeyCode) -> bool {
        if key == KeyCode::Esc {
            Self::to_inbox_rel(pre, post)
        } else if key == KeyCode::Char('q') {
            Self::quit_rel(pre, post)
        } else if key == KeyCode::Char('r') {
            Self::start_reply_rel(pre, post)
        } else if key == KeyCode::Char('c') {
            Self::start_new_rel(pre, post)
        } else if key == KeyCode::Char('m') {
            Self::arm_prefix_rel(pre, post)
        } else if key == KeyCode::Char('j') || key == KeyCode::Down {
            Self::detail_down_rel(pre, post)
        } else if key == KeyCode::Char('k') || key == KeyCode::Up {
            Self::detail_up_rel(pre, post)
        } else if key == KeyCode::Enter {
            Self::detail_toggle_rel(pre, post)
        } else {
            Self::frame_all(pre, post)
        }
    }

    /// Down in the detail view: the active pointer advances, or the text
    /// scrolls one line once the pointer is at the end.
    pub open spec fn detail_down_rel(pre: Self, post: Self) -> bool {
        match pre.view {
            View::Detail(d) => {
                &&& (post.view matches View::Detail(d2) && {
                    &&& d2.thread == d.thread
                    &&& d2.status_message == d.status_message
                    &&& if d.active_index + 1 < d.thread@.len() {
                        d2.active_index == d.active_index + 1 && d2.scroll_offset
                            == d.scroll_offset
                    } else {
                        d2.active_index == d.active_index && d2.scroll_offset == (
                        if d.scroll_offset < u16::MAX {
                            (d.scroll_offset + 1) as u16
                        } else {
                            u16::MAX
                        })
                    }
                })
                &&& Self::frame_view_only(pre, post)
            },
            _ => Self::frame_all(pre, post),
        }
    }

    /// Up in the detail view: the active pointer retreats, or the text
    /// scrolls back at the start.
    pub open spec fn detail_up_rel(pre: Self, post: Self) -> bool {
        match pre.view {
            View::Detail(d) => {
                &&& (post.view matches View::Detail(d2) && {
                    &&& d2.thread == d.thread
                    &&& d2.status_message == d.status_message
                    &&& if d.active_index > 0 {
                        d2.active_index == d.active_index - 1 && d2.scroll_offset
                            == d.scroll_offset
                    } else {
                        d2.active_index == d.active_index && d2.scroll_offset == (
                        if d.scroll_offset > 0 {
                            (d.scroll_offset - 1) as u16
                        } else {
                            0u16
                        })
                    }
                })
                &&& Self::frame_view_only(pre, post)
            },
            _ => Self::frame_all(pre, post),
        }
    }

    /// Enter in the detail view: the active message collapses when
    /// expanded; expanding fetches the body on demand, and a failed fetch
    /// leaves it collapsed.
    pub open spec fn detail_toggle_rel(pre: Self, post: Self) -> bool {
        match pre.view {
            View::Detail(d) => {
                &&& (post.view matches View::Detail(d2) && {
                    &&& d2.thread@.len() == d.thread@.len()
                    &&& forall|m: int|
                        0 <= m < d.thread@.len() && m != d.active_index ==> d2.thread@[m] == (
                        #[trigger] d.thread@[m])
                    &&& d2.thread@[d.active_index as int].email_index == d.thread@[
                        d.active_index as int
                    ].email_index
                    &&& (d.thread@[d.active_index as int].body is Some ==> d2.thread@[
                        d.active_index as int
                    ].body is None)
                    &&& d2.active_index == d.active_index
                    &&& d2.scroll_offset == d.scroll_offset
                    &&& d2.status_message == d.status_message
                })
                &&& Self::frame_view_only(pre, post)
            },
            _ => Self::frame_all(pre, post),
        }
    }

    /// Everything but the view (and the collaborators) is unchanged.
    pub open spec fn frame_view_only(pre: Self, post: Self) -> bool {
        &&& post.emails == pre.emails
        &&& post.threads == pre.threads
        &&& post.table_state == pre.table_state
        &&& post.should_quit == pre.should_quit
        &&& post.pending_prefix == pre.pending_prefix
        &&& post.status_message == pre.status_message
        &&& post.sender_from == pre.sender_from
        &&& post.sent_folder == pre.sent_folder
    }

    fn handle_detail_key(&mut self, key: KeyCode, _modifiers: KeyModifiers)
        requires
            old(self).inv(),
        ensures
            final(self).inv(),
            Self::detail_rel(*old(self), *final(self), key),
    {
        match key {
            KeyCode::Esc => {
                self.view = View::Inbox;
            },
            KeyCode::Char(c) => {
                if c == 'q' {
                    self.should_quit = true;
                } else if c == 'r' {
                    self.start_reply();
                } else if c == 'c' {
                    self.start_new_email();
                } else if c == 'm' {
                    self.pending_prefix = true;
                } else if c == 'j' {
                    self.detail_move_down();
                } else if c == 'k' {
                    self.detail_move_up();
                }
            },
            KeyCode::Down => self.detail_move_down(),
            KeyCode::Up => self.detail_move_up(),
            KeyCode::Enter => self.detail_toggle(),
            _ => {},
        }
    }

    fn detail_move_down(&mut self)
        requires
            old(self).inv(),
        ensures
            final(self).inv(),
            Self::detail_down_rel(*old(self), *final(self)),
    {
        match &mut self.view {
            View::Detail(state) => {
                let n = state.thread.len();
                assert(state.active_index < n);
                if state.active_index + 1 < n {
                    state.active_index = state.active_index + 1;
                } else {
                    if state.scroll_offset < u16::MAX {
                        state.scroll_offset = state.scroll_offset + 1;
                    }
                }
            },
            _ => {},
        }
    }

    fn detail_move_up(&mut self)
        requires
            old(self).inv(),
        ensures
            final(self).inv(),
            Self::detail_up_rel(*old(self), *final(self)),
    {
        match &mut self.view {
            View::Detail(state) => {
                if state.active_index > 0 {
                    state.active_index = state.active_index - 1;
                } else {
                    if state.scroll_offset > 0 {
                        state.scroll_offset = state.scroll_offset - 1;
                    }
                }
            },
            _ => {},
        }
    }

    fn detail_toggle(&mut self)
        requires
            old(self).inv(),
        ensures
            final(self).inv(),
            Self::detail_toggle_rel(*old(self), *final(self)),
    {
        let (idx, email_index, expanded) = match &self.view {
            View::Detail(state) => {
                let idx = state.active_index;
                (idx, state.thread[idx].email_index, state.thread[idx].body.is_some())
            },
            _ => {
                return;
            },
        };
        if expanded {
            match &mut self.view {
                View::Detail(state) => {
                    let ghost pre_thread = state.thread@;
                    let mut tm = state.thread.remove(idx);
                    tm.body = None;
                    state.thread.insert(idx, tm);
                    proof {
                        assert(state.thread@ =~= pre_thread.update(
                            idx as int,
                            ThreadMessage { body: None, ..pre_thread[idx as int] },
                        ));
                    }
                },
                _ => {},
            }
        } else {
            let uid = self.emails[email_index].uid;
            let folder = self.emails[email_index].folder.clone();
            let fetched = match self.imap_client.fetch_email(uid, folder.as_str()) {
                Ok(b) => Some(b),
                Err(_) => None,
            };
            match fetched {
                Some(body) => {
                    match &mut self.view {
                        View::Detail(state) => {
                            let ghost pre_thread = state.thread@;
                            let mut tm = state.thread.remove(idx);
                            tm.body = Some(body);
                            state.thread.insert(idx, tm);
                            proof {
                                assert(state.thread@[idx as int].email_index == pre_thread[
                                    idx as int
                                ].email_index);
                                assert(forall|m: int|
                                    0 <= m < pre_thread.len() && m != idx
                                        ==> state.thread@[m] == pre_thread[m]);
                            }
                        },
                        _ => {},
                    }
                },
                None => {},
            }
        }
    }
}

} // verus!

verus! {

impl<I: ImapClient, S: SmtpClient> App<I, S> {
    /// Sending the composed message: on success the view clears to the
    /// inbox with a confirmation; on failure the compose view and all typed
    /// content stay, the error surfacing as the step status. Which happens
    /// is the send collaborator's decision.
    pub open spec fn send_rel(pre: Self, post: Self) -> bool {
        match pre.view {
            View::Compose(c) => ({
                // sent: back to the inbox with a confirmation
                ||| {
                    &&& post.view is Inbox
                    &&& (post.status_message matches Some(m) && m@ == (if c.is_reply {
                        "Reply sent!"@
                    } else {
                        "Email sent!"@
                    }))
                    &&& post.emails == pre.emails
                    &&& post.threads == pre.threads
                    &&& post.table_state == pre.table_state
                    &&& post.should_quit == pre.should_quit
                    &&& post.pending_prefix == pre.pending_prefix
                    &&& post.sender_from == pre.sender_from
                    &&& post.sent_folder == pre.sent_folder
                }
                // failed: typed content preserved, error in the step status
                ||| {
                    &&& (post.view matches View::Compose(c2) && {
                        &&& c2.step == c.step
                        &&& c2.is_reply == c.is_reply
                        &&& c2.body_lines == c.body_lines
                        &&& c2.cursor_row == c.cursor_row
                        &&& c2.cursor_col == c.cursor_col
                        &&& c2.to == c.to
                        &&& c2.to_cursor == c.to_cursor
                        &&& c2.cc == c.cc
                        &&& c2.cc_cursor == c.cc_cursor
                        &&& c2.bcc == c.bcc
                        &&& c2.bcc_cursor == c.bcc_cursor
                        &&& c2.subject == c.subject
                        &&& c2.subject_cursor == c.subject_cursor
                        &&& c2.in_reply_to == c.in_reply_to
                        &&& c2.references == c.references
                        &&& c2.quoted_text == c.quoted_text
                        &&& c2.status_message is Some
                    })
                    &&& Self::frame_view_only(pre, post)
                }
            }),
            _ => Self::frame_all(pre, post),
        }
    }

    /// Advancing the wizard: body to subject (replies skip to the
    /// recipients), empty subject and recipient fields refused with a step
    /// status, the last step sending.
    pub open spec fn advance_rel(pre: Self, post: Self) -> bool {
        match pre.view {
            View::Compose(c) => match c.step {
                ComposeStep::Body => Self::step_rel(
                    pre,
                    post,
                    c,
                    if c.is_reply {
                        ComposeStep::To
                    } else {
                        ComposeStep::Subject
                    },
                ),
                ComposeStep::Subject => if trim_spec(c.subject@).len() == 0 {
                    Self::refuse_rel(pre, post, c, "Subject cannot be empty"@)
                } else {
                    Self::step_rel(pre, post, c, ComposeStep::To)
                },
                ComposeStep::To => if trim_spec(c.to@).len() == 0 {
                    Self::refuse_rel(pre, post, c, "To field cannot be empty"@)
                } else {
                    Self::step_rel(pre, post, c, ComposeStep::Cc)
                },
                ComposeStep::Cc => Self::step_rel(pre, post, c, ComposeStep::Bcc),
                ComposeStep::Bcc => Self::send_rel(pre, post),
            },
            _ => Self::frame_all(pre, post),
        }
    }

    /// The wizard moved to `step`, its status cleared, nothing else
    /// touched.
    pub open spec fn step_rel(pre: Self, post: Self, c: Box<ComposeState>, step: ComposeStep)
        -> bool {
        &&& (post.view matches View::Compose(c2) && {
            &&& c2.step == step
            &&& c2.status_message is None
            &&& c2.is_reply == c.is_reply
            &&& c2.body_lines == c.body_lines
            &&& c2.cursor_row == c.cursor_row
            &&& c2.cursor_col == c.cursor_col
            &&& c2.to == c.to
            &&& c2.to_cursor == c.to_cursor
            &&& c2.cc == c.cc
            &&& c2.cc_cursor == c.cc_cursor
            &&& c2.bcc == c.bcc
            &&& c2.bcc_cursor == c.bcc_cursor
            &&& c2.subject == c.subject
            &&& c2.subject_cursor == c.subject_cursor
            &&& c2.in_reply_to == c.in_reply_to
            &&& c2.references == c.references
            &&& c2.quoted_text == c.quoted_text
        })
        &&& Self::frame_view_only(pre, post)
    }

    /// The step refused: unchanged, with the given status message.
    pub open spec fn refuse_rel(pre: Self, post: Self, c: Box<ComposeState>, msg: Seq<char>)
        -> bool {
        &&& (post.view matches View::Compose(c2) && {
            &&& c2.step == c.step
            &&& (c2.status_message matches Some(m) && m@ == msg)
            &&& c2.is_reply == c.is_reply
            &&& c2.body_lines == c.body_lines
            &&& c2.cursor_row == c.cursor_row
            &&& c2.cursor_col == c.cursor_col
            &&& c2.to == c.to
            &&& c2.to_cursor == c.to_cursor
            &&& c2.cc == c.cc
            &&& c2.cc_cursor == c.cc_cursor
            &&& c2.bcc == c.bcc
            &&& c2.bcc_cursor == c.bcc_cursor
            &&& c2.subject == c.subject
            &&& c2.subject_cursor == c.subject_cursor
            &&& c2.in_reply_to == c.in_reply_to
            &&& c2.references == c.references
            &&& c2.quoted_text == c.quoted_text
        })
        &&& Self::frame_view_only(pre, post)
    }

    #[verifier::rlimit(100)]
    fn send_email(&mut self)
        requires
            old(self).inv(),
        ensures
            final(self).inv(),
            Self::send_rel(*old(self), *final(self)),
    {
        let (email, is_reply) = match &self.view {
            View::Compose(state) => (compose_outgoing(state, &self.sender_from), state.is_reply),
            _ => {
                return;
            },
        };
        match self.smtp_client.send(&email) {
            Ok(bytes) => {
                // persist a sent copy, best effort, when a folder is set
                let sent_folder = clone_opt_string(&self.sent_folder);
                match sent_folder {
                    Some(folder) => {
                        let _ = self.imap_client.append(folder.as_str(), bytes.as_slice());
                    },
                    None => {},
                }
                self.status_message = Some(
                    if is_reply {
                        "Reply sent!".to_owned()
                    } else {
                        "Email sent!".to_owned()
                    },
                );
                self.view = View::Inbox;
            },
            Err(e) => {
                let mut msg = "Send failed: ".to_owned();
                let detail = e.text();
                msg.append(detail.as_str());
                match &mut self.view {
                    View::Compose(state) => {
                        state.status_message = Some(msg);
                    },
                    _ => {},
                }
            },
        }
    }

    fn advance_compose_step(&mut self)
        requires
            old(self).inv(),
        ensures
            final(self).inv(),
            Self::advance_rel(*old(self), *final(self)),
    {
        let step = match &self.view {
            View::Compose(state) => state.step,
            _ => {
                return;
            },
        };
        match step {
            ComposeStep::Body => {
                match &mut self.view {
                    View::Compose(state) => {
                        if state.is_reply {
                            state.step = ComposeStep::To;
                        } else {
                            state.step = ComposeStep::Subject;
                        }
                        state.status_message = None;
                    },
                    _ => {},
                }
            },
            ComposeStep::Subject => {
                let empty = match &self.view {
                    View::Compose(state) => {
                        let chars = str_to_chars(state.subject.as_str());
                        let trimmed = trim_vec(&chars);
                        trimmed.len() == 0
                    },
                    _ => {
                        return;
                    },
                };
                match &mut self.view {
                    View::Compose(state) => {
                        if empty {
                            state.status_message = Some("Subject cannot be empty".to_owned());
                        } else {
                            state.step = ComposeStep::To;
                            state.status_message = None;
                        }
                    },
                    _ => {},
                }
            },
            ComposeStep::To => {
                let empty = match &self.view {
                    View::Compose(state) => {
                        let chars = str_to_chars(state.to.as_str());
                        let trimmed = trim_vec(&chars);
                        trimmed.len() == 0
                    },
                    _ => {
                        return;
                    },
                };
                match &mut self.view {
                    View::Compose(state) => {
                        if empty {
                            state.status_message = Some("To field cannot be empty".to_owned());
                        } else {
                            state.step = ComposeStep::Cc;
                            state.status_message = None;
                        }
                    },
                    _ => {},
                }
            },
            ComposeStep::Cc => {
                match &mut self.view {
                    View::Compose(state) => {
                        state.step = ComposeStep::Bcc;
                        state.status_message = None;
                    },
                    _ => {},
                }
            },
            ComposeStep::Bcc => {
                self.send_email();
            },
        }
    }

    /// One key in the compose view: escape discards, the advance chord
    /// validates and moves on (or sends from the last step), anything else
    /// edits the active step's field.
    pub open spec fn compose_rel(pre: Self, post: Self, key: KeyCode, modifiers: KeyModifiers)
        -> bool {
        if key == KeyCode::Esc {
            Self::to_inbox_rel(pre, post)
        } else if key == KeyCode::Char('s') && modifiers == KeyModifiers::ALT {
            Self::advance_rel(pre, post)
        } else {
            match pre.view {
                View::Compose(c) => ({
                    &&& (post.view matches View::Compose(c2) && {
                        &&& c2.step == c.step
                        &&& c2.is_reply == c.is_reply
                        &&& c2.in_reply_to == c.in_reply_to
                        &&& c2.references == c.references
                        &&& c2.quoted_text == c.quoted_text
                        &&& c2.status_message == c.status_message
                        &&& match c.step {
                            ComposeStep::Body => {
                                &&& (c2.body_lines.deep_view(), c2.cursor_row as int,
                                c2.cursor_col as int) == body_edit_spec(
                                    c.body_lines.deep_view(),
                                    c.cursor_row as int,
                                    c.cursor_col as int,
                                    key,
                                )
                                &&& c2.to == c.to && c2.to_cursor == c.to_cursor
                                &&& c2.cc == c.cc && c2.cc_cursor == c.cc_cursor
                                &&& c2.bcc == c.bcc && c2.bcc_cursor == c.bcc_cursor
                                &&& c2.subject == c.subject && c2.subject_cursor
                                    == c.subject_cursor
                            },
                            ComposeStep::Subject => {
                                &&& (c2.subject@, c2.subject_cursor as int) == line_edit_spec(
                                    c.subject@,
                                    c.subject_cursor as int,
                                    key,
                                )
                                &&& c2.body_lines == c.body_lines
                                &&& c2.cursor_row == c.cursor_row && c2.cursor_col == c.cursor_col
                                &&& c2.to == c.to && c2.to_cursor == c.to_cursor
                                &&& c2.cc == c.cc && c2.cc_cursor == c.cc_cursor
                                &&& c2.bcc == c.bcc && c2.bcc_cursor == c.bcc_cursor
                            },
                            ComposeStep::To => {
                                &&& (c2.to@, c2.to_cursor as int) == line_edit_spec(
                                    c.to@,
                                    c.to_cursor as int,
                                    key,
                                )
                                &&& c2.body_lines == c.body_lines
                                &&& c2.cursor_row == c.cursor_row && c2.cursor_col == c.cursor_col
                                &&& c2.cc == c.cc && c2.cc_cursor == c.cc_cursor
                                &&& c2.bcc == c.bcc && c2.bcc_cursor == c.bcc_cursor
                                &&& c2.subject == c.subject && c2.subject_cursor
                                    == c.subject_cursor
                            },
                            ComposeStep::Cc => {
                                &&& (c2.cc@, c2.cc_cursor as int) == line_edit_spec(
                                    c.cc@,
                                    c.cc_cursor as int,
                                    key,
                                )
                                &&& c2.body_lines == c.body_lines
                                &&& c2.cursor_row == c.cursor_row && c2.cursor_col == c.cursor_col
                                &&& c2.to == c.to && c2.to_cursor == c.to_cursor
                                &&& c2.bcc == c.bcc && c2.bcc_cursor == c.bcc_cursor
                                &&& c2.subject == c.subject && c2.subject_cursor
                                    == c.subject_cursor
                            },
                            ComposeStep::Bcc => {
                                &&& (c2.bcc@, c2.bcc_cursor as int) == line_edit_spec(
                                    c.bcc@,
                                    c.bcc_cursor as int,
                                    key,
                                )
                                &&& c2.body_lines == c.body_lines
                                &&& c2.cursor_row == c.cursor_row && c2.cursor_col == c.cursor_col
                                &&& c2.to == c.to && c2.to_cursor == c.to_cursor
                                &&& c2.cc == c.cc && c2.cc_cursor == c.cc_cursor
                                &&& c2.subject == c.subject && c2.subject_cursor
                                    == c.subject_cursor
                            },
                        }
                    })
                    &&& Self::frame_view_only(pre, post)
                }),
                _ => Self::frame_all(pre, post),
            }
        }
    }

    fn handle_compose_key(&mut self, key: KeyCode, modifiers: KeyModifiers)
        requires
            old(self).inv(),
        ensures
            final(self).inv(),
            Self::compose_rel(*old(self), *final(self), key, modifiers),
    {
        if key == KeyCode::Esc {
            self.view = View::Inbox;
            return;
        }
        if key == KeyCode::Char('s') && modifiers == KeyModifiers::ALT {
            self.advance_compose_step();
            return;
        }
        match &mut self.view {
            View::Compose(state) => {
                match state.step {
                    ComposeStep::Body => {
                        handle_body_input(state, key);
                    },
                    ComposeStep::Subject => {
                        handle_line_input(&mut state.subject, &mut state.subject_cursor, key);
                    },
                    ComposeStep::To => {
                        handle_line_input(&mut state.to, &mut state.to_cursor, key);
                    },
                    ComposeStep::Cc => {
                        handle_line_input(&mut state.cc, &mut state.cc_cursor, key);
                    },
                    ComposeStep::Bcc => {
                        handle_line_input(&mut state.bcc, &mut state.bcc_cursor, key);
                    },
                }
            },
            _ => {},
        }
    }

    /// The sole mutation entry point: the armed chord consumes the key,
    /// else the active view's handler does.
    pub open spec fn handle_key_rel(pre: Self, post: Self, key: KeyCode, modifiers: KeyModifiers)
        -> bool {
        if pre.pending_prefix {
            let mid = App { pending_prefix: false, ..pre };
            &&& post.pending_prefix == false
            &&& if key == KeyCode::Char('d') || key == KeyCode::Char('a') {
                Self::remove_selected_rel(mid, post)
            } else if key == KeyCode::Char('r') {
                Self::mark_read_rel(mid, post)
            } else if key == KeyCode::Char('l') {
                Self::label_rel(mid, post)
            } else {
                Self::frame_all(mid, post)
            }
        } else {
            match pre.view {
                View::Inbox => Self::inbox_rel(pre, post, key),
                View::Detail(_) => Self::detail_rel(pre, post, key),
                View::Compose(_) => Self::compose_rel(pre, post, key, modifiers),
            }
        }
    }

    /// Dispatches one key press. An armed prefix chord intercepts the key
    /// whatever the view; otherwise the active view handles it.
    pub fn handle_key(&mut self, key: KeyCode, modifiers: KeyModifiers)
        requires
            old(self).inv(),
        ensures
            final(self).inv(),
            Self::handle_key_rel(*old(self), *final(self), key, modifiers),
    {
        if self.pending_prefix {
            self.pending_prefix = false;
            self.handle_prefix_chord(key);
            return;
        }
        match &self.view {
            View::Inbox => self.handle_inbox_key(key),
            View::Detail(_) => self.handle_detail_key(key, modifiers),
            View::Compose(_) => self.handle_compose_key(key, modifiers),
        }
    }

    /// Builds the session: the fetched list is reversed to newest-first,
    /// the thread index derived, and the first thread selected when one
    /// exists.
    pub fn new(
        emails: Vec<EmailSummary>,
        imap_client: I,
        smtp_client: S,
        sender_from: String,
        sent_folder: Option<String>,
    ) -> (r: Self)
        ensures
            r.inv(),
            r.emails@.len() == emails@.len(),
            forall|i: int|
                0 <= i < emails@.len() ==> r.emails@[i] == emails@[emails@.len() - 1 - i],
            r.threads.deep_view() == build_threads_spec(r.emails@),
            r.table_state.selected_index == (if r.threads@.len() > 0 {
                Some(0usize)
            } else {
                None::<usize>
            }),
            r.view is Inbox,
            r.pending_prefix == false,
            r.status_message is None,
            r.should_quit == false,
            r.sender_from == sender_from,
            r.sent_folder == sent_folder,
    {
        let ghost orig = emails@;
        let mut src = emails;
        let mut rev: Vec<EmailSummary> = Vec::new();
        while src.len() > 0
            invariant
                src@.len() + rev@.len() == orig.len(),
                src@ == orig.subrange(0, src@.len() as int),
                forall|i: int|
                    0 <= i < rev@.len() ==> rev@[i] == orig[orig.len() - 1 - i],
            decreases src@.len(),
        {
            let e = match src.pop() {
                Some(e) => e,
                None => {
                    // unreachable: the loop guard saw a non-empty vector
                    proof {
                        assert(false);
                    }
                    break;
                },
            };
            proof {
                assert(src@ =~= orig.subrange(0, src@.len() as int));
            }
            rev.push(e);
        }
        let threads = build_threads(rev.as_slice());
        proof {
            crate::thread::lemma_threads_deep_view(threads);
        }
        let mut table_state = TableState::new();
        if threads.len() > 0 {
            table_state.select(Some(0));
        }
        App {
            should_quit: false,
            emails: rev,
            table_state,
            view: View::Inbox,
            threads,
            pending_prefix: false,
            status_message: None,
            imap_client,
            smtp_client,
            sender_from,
            sent_folder,
        }
    }
}

} // verus!
