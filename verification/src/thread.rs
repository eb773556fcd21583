//! Conversation threading: subject normalization and the thread builder,
//! which groups a newest-first summary list into conversations using three
//! prioritized signals (reply link, reference chain, normalized subject)
//! with cycle-safe root resolution and deterministic ordering.
use vstd::prelude::*;

use crate::email::{string_eq, EmailSummary};
use crate::text::{
    chars_to_string, clone_chars, find_char, first_char, is_space_char, lemma_first_char_is_least,
    lemma_trim_start_len, lower_seq, starts_with, starts_with_vec, str_to_chars, sub_vec,
    to_lower_vec, trim_spec, trim_start_spec, trim_start_vec, trim_vec, match_at,
};

verus! {

// ---------------------------------------------------------------------------
// Subject normalization
// ---------------------------------------------------------------------------

/// Repeatedly strips a case-insensitive `re:` prefix with any whitespace
/// that follows it.
pub open spec fn strip_re_spec(s: Seq<char>) -> Seq<char>
    decreases s.len(),
    via strip_re_spec_dec
{
    if starts_with(lower_seq(s), "re:"@) {
        strip_re_spec(trim_start_spec(s.subrange(3, s.len() as int)))
    } else {
        s
    }
}

#[via_fn]
proof fn strip_re_spec_dec(s: Seq<char>) {
    if starts_with(lower_seq(s), "re:"@) {
        reveal_strlit("re:");
        lemma_trim_start_len(s.subrange(3, s.len() as int));
    }
}

/// The grouping key of a subject: trimmed, reply prefixes stripped,
/// lower-cased. An empty key never forms a subject-based group.
pub open spec fn normalize_spec(s: Seq<char>) -> Seq<char> {
    lower_seq(strip_re_spec(trim_spec(s)))
}

/// Strips the subject to its grouping key: trims whitespace, repeatedly
/// strips a case-insensitive `re:` prefix, and lower-cases the rest.
pub fn normalize_subject(subject: &str) -> (r: String)
    ensures
        r@ == normalize_spec(subject@),
{
    let v = str_to_chars(subject);
    let re_pat = str_to_chars("re:");
    proof {
        reveal_strlit("re:");
    }
    let mut t = trim_vec(&v);
    loop
        invariant
            re_pat@ == "re:"@,
            strip_re_spec(trim_spec(v@)) == strip_re_spec(t@),
        decreases t@.len(),
    {
        let lower = to_lower_vec(&t);
        if starts_with_vec(&lower, &re_pat) {
            proof {
                lemma_trim_start_len(t@.subrange(3, t@.len() as int));
            }
            let n = t.len();
            assert(3 <= n);
            t = trim_start_vec(&sub_vec(&t, 3, n));
        } else {
            assert(strip_re_spec(t@) == t@);
            let result = to_lower_vec(&t);
            return chars_to_string(&result);
        }
    }
}

// ---------------------------------------------------------------------------
// Reply address extraction
// ---------------------------------------------------------------------------

/// The text between the first `<` and the first `>` when both exist in that
/// order; the whole text otherwise.
pub open spec fn extract_email_address_spec(s: Seq<char>) -> Seq<char> {
    match (first_char(s, '<'), first_char(s, '>')) {
        (Some(a), Some(b)) => if a + 1 <= b {
            s.subrange(a + 1, b)
        } else {
            s
        },
        _ => s,
    }
}

/// Extracts the bare address from a `Name <address>` display form; a text
/// without such brackets comes back whole.
pub fn extract_email_address(from: &str) -> (r: String)
    ensures
        r@ == extract_email_address_spec(from@),
{
    let v = str_to_chars(from);
    proof {
        lemma_first_char_is_least(v@, '<');
        lemma_first_char_is_least(v@, '>');
    }
    match (find_char(&v, '<'), find_char(&v, '>')) {
        (Some(a), Some(b)) => {
            assert(a < v.len() && b < v.len());
            if a + 1 <= b {
                let inner = sub_vec(&v, a + 1, b);
                chars_to_string(&inner)
            } else {
                chars_to_string(&v)
            }
        },
        _ => chars_to_string(&v),
    }
}

} // verus!

verus! {

// ---------------------------------------------------------------------------
// Parent resolution
// ---------------------------------------------------------------------------
//
// The summary list is stored newest first, so a higher index is an older
// message. Lookups scan from the end: of several messages sharing a message
// id or a base subject, the oldest one is found.

/// Index of the last (oldest) summary carrying the given message id.
pub open spec fn id_lookup(emails: Seq<EmailSummary>, mid: Seq<char>) -> Option<int>
    decreases emails.len(),
{
    if emails.len() == 0 {
        None
    } else {
        let last = emails.len() - 1;
        if emails[last].message_id is Some && emails[last].message_id->0@ == mid {
            Some(last)
        } else {
            id_lookup(emails.drop_last(), mid)
        }
    }
}

/// First reference, scanned nearest-ancestor first, that names a known
/// message id.
pub open spec fn ref_lookup(emails: Seq<EmailSummary>, refs: Seq<String>) -> Option<int>
    decreases refs.len(),
{
    if refs.len() == 0 {
        None
    } else {
        match id_lookup(emails, refs.last()@) {
            Some(p) => Some(p),
            None => ref_lookup(emails, refs.drop_last()),
        }
    }
}

/// Index of the last (oldest) summary whose normalized subject equals the
/// given base.
pub open spec fn subject_lookup(emails: Seq<EmailSummary>, base: Seq<char>) -> Option<int>
    decreases emails.len(),
{
    if emails.len() == 0 {
        None
    } else {
        let last = emails.len() - 1;
        if normalize_spec(emails[last].subject@) == base {
            Some(last)
        } else {
            subject_lookup(emails.drop_last(), base)
        }
    }
}

/// The single parent of message `i`, resolved by three signals in strict
/// priority order: exact reply link, reference chain walked nearest first,
/// then non-empty normalized-subject match against the oldest message with
/// that base (never the message itself).
pub open spec fn parent_spec(emails: Seq<EmailSummary>, i: int) -> Option<int> {
    let e = emails[i];
    if e.in_reply_to is Some && id_lookup(emails, e.in_reply_to->0@) is Some {
        id_lookup(emails, e.in_reply_to->0@)
    } else if ref_lookup(emails, e.references@) is Some {
        ref_lookup(emails, e.references@)
    } else {
        let base = normalize_spec(e.subject@);
        if base.len() > 0 && subject_lookup(emails, base) is Some && subject_lookup(emails, base)
            != Some(i) {
            subject_lookup(emails, base)
        } else {
            None
        }
    }
}

/// Bounded walk up the parent chain. The fuel bound makes the walk safe on a
/// malformed (cyclic) reference graph: on well-formed input a fuel of the
/// list length always reaches the parentless root; on a cycle the walk
/// simply stops after that many steps, deterministically.
pub open spec fn walk(emails: Seq<EmailSummary>, cur: int, fuel: nat) -> int
    decreases fuel,
{
    if fuel == 0 {
        cur
    } else {
        match parent_spec(emails, cur) {
            None => cur,
            Some(p) => walk(emails, p, (fuel - 1) as nat),
        }
    }
}

/// The thread root of message `i`.
pub open spec fn root_spec(emails: Seq<EmailSummary>, i: int) -> int {
    walk(emails, i, emails.len() as nat)
}

/// `i` is the first (lowest-index) member of its thread.
pub open spec fn is_leader(emails: Seq<EmailSummary>, i: int) -> bool {
    forall|j: int| 0 <= j < i ==> root_spec(emails, j) != root_spec(emails, i)
}

/// The members below `from` that share the root `r`, highest (oldest) index
/// first.
pub open spec fn desc_members(emails: Seq<EmailSummary>, r: int, from: int) -> Seq<usize>
    decreases from,
{
    if from <= 0 {
        Seq::empty()
    } else {
        (if root_spec(emails, from - 1) == r {
            seq![(from - 1) as usize]
        } else {
            Seq::empty()
        }) + desc_members(emails, r, from - 1)
    }
}

/// The threads led by messages below `upto`, in order of their leaders.
pub open spec fn threads_upto(emails: Seq<EmailSummary>, upto: int) -> Seq<Seq<usize>>
    decreases upto,
{
    if upto <= 0 {
        Seq::empty()
    } else {
        threads_upto(emails, upto - 1) + (if is_leader(emails, upto - 1) {
            seq![desc_members(emails, root_spec(emails, upto - 1), emails.len() as int)]
        } else {
            Seq::empty()
        })
    }
}

/// The full grouping: one thread per leader, members oldest first, threads
/// ordered by their earliest member.
pub open spec fn build_threads_spec(emails: Seq<EmailSummary>) -> Seq<Seq<usize>> {
    threads_upto(emails, emails.len() as int)
}

// ---------------------------------------------------------------------------
// Range facts about the resolution functions
// ---------------------------------------------------------------------------

pub proof fn lemma_id_lookup_range(emails: Seq<EmailSummary>, mid: Seq<char>)
    ensures
        id_lookup(emails, mid) is Some ==> 0 <= id_lookup(emails, mid)->0 < emails.len(),
    decreases emails.len(),
{
    if emails.len() > 0 {
        lemma_id_lookup_range(emails.drop_last(), mid);
    }
}

pub proof fn lemma_ref_lookup_range(emails: Seq<EmailSummary>, refs: Seq<String>)
    ensures
        ref_lookup(emails, refs) is Some ==> 0 <= ref_lookup(emails, refs)->0 < emails.len(),
    decreases refs.len(),
{
    if refs.len() > 0 {
        lemma_id_lookup_range(emails, refs.last()@);
        lemma_ref_lookup_range(emails, refs.drop_last());
    }
}

pub proof fn lemma_subject_lookup_range(emails: Seq<EmailSummary>, base: Seq<char>)
    ensures
        subject_lookup(emails, base) is Some ==> 0 <= subject_lookup(emails, base)->0
            < emails.len(),
    decreases emails.len(),
{
    if emails.len() > 0 {
        lemma_subject_lookup_range(emails.drop_last(), base);
    }
}

pub proof fn lemma_parent_range(emails: Seq<EmailSummary>, i: int)
    ensures
        parent_spec(emails, i) is Some ==> 0 <= parent_spec(emails, i)->0 < emails.len(),
{
    let e = emails[i];
    if e.in_reply_to is Some {
        lemma_id_lookup_range(emails, e.in_reply_to->0@);
    }
    lemma_ref_lookup_range(emails, e.references@);
    lemma_subject_lookup_range(emails, normalize_spec(e.subject@));
}

pub proof fn lemma_walk_range(emails: Seq<EmailSummary>, cur: int, fuel: nat)
    requires
        0 <= cur < emails.len(),
    ensures
        0 <= walk(emails, cur, fuel) < emails.len(),
    decreases fuel,
{
    if fuel > 0 {
        match parent_spec(emails, cur) {
            None => {},
            Some(p) => {
                lemma_parent_range(emails, cur);
                lemma_walk_range(emails, p, (fuel - 1) as nat);
            },
        }
    }
}

pub proof fn lemma_root_range(emails: Seq<EmailSummary>, i: int)
    requires
        0 <= i < emails.len(),
    ensures
        0 <= root_spec(emails, i) < emails.len(),
{
    lemma_walk_range(emails, i, emails.len() as nat);
}

} // verus!

verus! {

// ---------------------------------------------------------------------------
// Executable parent resolution
// ---------------------------------------------------------------------------

fn id_lookup_exec(emails: &[EmailSummary], mid: &String) -> (r: Option<usize>)
    ensures
        match r {
            Some(p) => id_lookup(emails@, mid@) == Some(p as int),
            None => id_lookup(emails@, mid@) is None,
        },
{
    let mut k: usize = emails.len();
    assert(emails@.subrange(0, emails@.len() as int) =~= emails@);
    while k > 0
        invariant
            k <= emails@.len(),
            id_lookup(emails@, mid@) == id_lookup(emails@.subrange(0, k as int), mid@),
        decreases k,
    {
        proof {
            let pre = emails@.subrange(0, k as int);
            assert(pre.drop_last() =~= emails@.subrange(0, k - 1));
            assert(pre.last() == emails@[k - 1]);
        }
        let e = vstd::slice::slice_index_get(emails, k - 1);
        match &e.message_id {
            Some(m) => {
                if string_eq(m, mid) {
                    return Some(k - 1);
                }
            },
            None => {},
        }
        k = k - 1;
    }
    assert(id_lookup(emails@.subrange(0, 0), mid@) is None);
    None
}

fn ref_lookup_exec(emails: &[EmailSummary], refs: &Vec<String>) -> (r: Option<usize>)
    ensures
        match r {
            Some(p) => ref_lookup(emails@, refs@) == Some(p as int),
            None => ref_lookup(emails@, refs@) is None,
        },
{
    let mut k: usize = refs.len();
    assert(refs@.subrange(0, refs@.len() as int) =~= refs@);
    while k > 0
        invariant
            k <= refs@.len(),
            ref_lookup(emails@, refs@) == ref_lookup(emails@, refs@.subrange(0, k as int)),
        decreases k,
    {
        proof {
            let pre = refs@.subrange(0, k as int);
            assert(pre.drop_last() =~= refs@.subrange(0, k - 1));
            assert(pre.last() == refs@[k - 1]);
        }
        match id_lookup_exec(emails, &refs[k - 1]) {
            Some(p) => {
                return Some(p);
            },
            None => {},
        }
        k = k - 1;
    }
    assert(ref_lookup(emails@, refs@.subrange(0, 0)) is None);
    None
}

fn subject_lookup_exec(emails: &[EmailSummary], base: &String) -> (r: Option<usize>)
    ensures
        match r {
            Some(p) => subject_lookup(emails@, base@) == Some(p as int),
            None => subject_lookup(emails@, base@) is None,
        },
{
    let mut k: usize = emails.len();
    assert(emails@.subrange(0, emails@.len() as int) =~= emails@);
    while k > 0
        invariant
            k <= emails@.len(),
            subject_lookup(emails@, base@) == subject_lookup(
                emails@.subrange(0, k as int),
                base@,
            ),
        decreases k,
    {
        proof {
            let pre = emails@.subrange(0, k as int);
            assert(pre.drop_last() =~= emails@.subrange(0, k - 1));
            assert(pre.last() == emails@[k - 1]);
        }
        let e = vstd::slice::slice_index_get(emails, k - 1);
        let norm = normalize_subject(e.subject.as_str());
        if string_eq(&norm, base) {
            return Some(k - 1);
        }
        k = k - 1;
    }
    assert(subject_lookup(emails@.subrange(0, 0), base@) is None);
    None
}

fn parent_exec(emails: &[EmailSummary], i: usize) -> (r: Option<usize>)
    requires
        i < emails@.len(),
    ensures
        match r {
            Some(p) => parent_spec(emails@, i as int) == Some(p as int),
            None => parent_spec(emails@, i as int) is None,
        },
{
    let e = vstd::slice::slice_index_get(emails, i);
    match &e.in_reply_to {
        Some(reply_to) => {
            match id_lookup_exec(emails, reply_to) {
                Some(p) => {
                    return Some(p);
                },
                None => {},
            }
        },
        None => {},
    }
    match ref_lookup_exec(emails, &e.references) {
        Some(p) => {
            return Some(p);
        },
        None => {},
    }
    let base = normalize_subject(e.subject.as_str());
    if base.unicode_len() > 0 {
        match subject_lookup_exec(emails, &base) {
            Some(p) => {
                if p != i {
                    return Some(p);
                }
                return None;
            },
            None => {},
        }
    }
    None
}

// ---------------------------------------------------------------------------
// The thread builder
// ---------------------------------------------------------------------------

/// Groups a newest-first summary list into threads: lists of indices into
/// `emails`, each oldest message first, threads ordered by their earliest
/// member. Identical input always yields identical output. A malformed
/// reference graph with a parent cycle cannot hang the walk: it is bounded
/// by the list length.
pub fn build_threads(emails: &[EmailSummary]) -> (r: Vec<Vec<usize>>)
    ensures
        r.deep_view() == build_threads_spec(emails@),
        forall|k: int| 0 <= k < r@.len() ==> (#[trigger] r@[k])@.len() > 0,
        forall|k: int, m: int|
            0 <= k < r@.len() && 0 <= m < r@[k]@.len() ==> (#[trigger] r@[k]@[m] as int)
                < emails@.len(),
{
    let n = emails.len();
    // resolve every message's parent
    let mut parent: Vec<Option<usize>> = Vec::new();
    let mut i: usize = 0;
    while i < n
        invariant
            i <= n,
            n == emails@.len(),
            parent@.len() == i,
            forall|j: int|
                0 <= j < i ==> (match #[trigger] parent@[j] {
                    Some(p) => parent_spec(emails@, j) == Some(p as int),
                    None => parent_spec(emails@, j) is None,
                }),
        decreases n - i,
    {
        parent.push(parent_exec(emails, i));
        i = i + 1;
    }
    // resolve every message's root by a bounded walk
    let mut roots: Vec<usize> = Vec::new();
    let mut i2: usize = 0;
    while i2 < n
        invariant
            i2 <= n,
            n == emails@.len(),
            parent@.len() == n,
            forall|j: int|
                0 <= j < n ==> (match #[trigger] parent@[j] {
                    Some(p) => parent_spec(emails@, j) == Some(p as int),
                    None => parent_spec(emails@, j) is None,
                }),
            roots@.len() == i2,
            forall|j: int| 0 <= j < i2 ==> #[trigger] roots@[j] as int == root_spec(emails@, j),
        decreases n - i2,
    {
        let mut cur: usize = i2;
        let mut fuel: usize = n;
        proof {
            lemma_walk_range(emails@, i2 as int, n as nat);
        }
        while fuel > 0
            invariant
                cur < n,
                n == emails@.len(),
                fuel <= n,
                parent@.len() == n,
                forall|j: int|
                    0 <= j < n ==> (match #[trigger] parent@[j] {
                        Some(p) => parent_spec(emails@, j) == Some(p as int),
                        None => parent_spec(emails@, j) is None,
                    }),
                root_spec(emails@, i2 as int) == walk(emails@, cur as int, fuel as nat),
            decreases fuel,
        {
            match parent[cur] {
                Some(p) => {
                    proof {
                        lemma_parent_range(emails@, cur as int);
                    }
                    cur = p;
                },
                None => {
                    break;
                },
            }
            fuel = fuel - 1;
        }
        assert(walk(emails@, cur as int, fuel as nat) == cur as int);
        roots.push(cur);
        i2 = i2 + 1;
    }
    // one thread per leader, members collected oldest (highest index) first
    let mut threads: Vec<Vec<usize>> = Vec::new();
    assert(threads.deep_view() =~= threads_upto(emails@, 0));
    let mut i3: usize = 0;
    while i3 < n
        invariant
            i3 <= n,
            n == emails@.len(),
            roots@.len() == n,
            forall|j: int| 0 <= j < n ==> #[trigger] roots@[j] as int == root_spec(emails@, j),
            threads.deep_view() == threads_upto(emails@, i3 as int),
        decreases n - i3,
    {
        let ghost pre_threads = threads.deep_view();
        // is i3 the first member of its thread?
        let mut leader = true;
        let mut j: usize = 0;
        while j < i3
            invariant
                j <= i3,
                i3 < n,
                n == emails@.len(),
                roots@.len() == n,
                forall|j2: int|
                    0 <= j2 < n ==> #[trigger] roots@[j2] as int == root_spec(emails@, j2),
                leader <==> forall|j2: int|
                    0 <= j2 < j ==> root_spec(emails@, j2) != root_spec(emails@, i3 as int),
            decreases i3 - j,
        {
            if roots[j] == roots[i3] {
                leader = false;
                assert(root_spec(emails@, j as int) == root_spec(emails@, i3 as int));
            }
            j = j + 1;
        }
        if leader {
            assert(is_leader(emails@, i3 as int));
            let rt = roots[i3];
            let ghost rti = root_spec(emails@, i3 as int);
            let mut members: Vec<usize> = Vec::new();
            let mut k: usize = n;
            assert(members@ =~= desc_members(emails@, rti, n as int).subrange(
                0,
                members@.len() as int,
            ));
            while k > 0
                invariant
                    k <= n,
                    n == emails@.len(),
                    roots@.len() == n,
                    forall|j2: int|
                        0 <= j2 < n ==> #[trigger] roots@[j2] as int == root_spec(emails@, j2),
                    rt as int == rti,
                    members@ + desc_members(emails@, rti, k as int) == desc_members(
                        emails@,
                        rti,
                        n as int,
                    ),
                decreases k,
            {
                if roots[k - 1] == rt {
                    members.push(k - 1);
                    proof {
                        assert(members@ + desc_members(emails@, rti, k - 1) =~= (
                        members@.drop_last() + desc_members(emails@, rti, k as int)));
                    }
                } else {
                    assert(desc_members(emails@, rti, k as int) == desc_members(
                        emails@,
                        rti,
                        k - 1,
                    ));
                }
                k = k - 1;
            }
            assert(desc_members(emails@, rti, 0) =~= Seq::<usize>::empty());
            assert(members@ =~= desc_members(emails@, rti, n as int));
            threads.push(members);
            proof {
                assert forall|m: int| 0 <= m < threads@.len() implies threads.deep_view()[m]
                    == threads_upto(emails@, i3 + 1)[m] by {
                    if m < pre_threads.len() {
                        assert(threads.deep_view()[m] == pre_threads[m]);
                    } else {
                        assert(threads@[m] == members);
                        assert(threads.deep_view()[m] =~= members@);
                    }
                }
                assert(threads.deep_view() =~= threads_upto(emails@, i3 + 1));
            }
        } else {
            assert(!is_leader(emails@, i3 as int));
            assert(threads_upto(emails@, i3 + 1) =~= threads_upto(emails@, i3 as int));
        }
        i3 = i3 + 1;
    }
    proof {
        lemma_threads_upto_wf(emails@, n as int);
        lemma_threads_deep_view(threads);
        assert forall|k: int| 0 <= k < threads@.len() implies (#[trigger] threads@[k])@.len()
            > 0 by {
            assert(threads.deep_view()[k] == threads@[k]@);
        }
        assert forall|k: int, m: int|
            0 <= k < threads@.len() && 0 <= m < threads@[k]@.len() implies (
        #[trigger] threads@[k]@[m] as int) < emails@.len() by {
            assert(threads.deep_view()[k] == threads@[k]@);
        }
    }
    threads
}

} // verus!

verus! {

/// The deep view of a thread list, element by element.
pub proof fn lemma_threads_deep_view(v: Vec<Vec<usize>>)
    ensures
        v.deep_view() == Seq::new(v@.len(), |i: int| v@[i]@),
{
    assert forall|i: int| 0 <= i < v@.len() implies v@[i].deep_view() == v@[i]@ by {
        assert(v@[i].deep_view() =~= v@[i]@);
    }
    assert(v.deep_view() =~= Seq::new(v@.len(), |i: int| v@[i]@));
}

pub proof fn lemma_desc_members_bounds(emails: Seq<EmailSummary>, r: int, from: int)
    ensures
        forall|m: int|
            0 <= m < desc_members(emails, r, from).len() ==> (#[trigger] desc_members(
                emails,
                r,
                from,
            )[m] as int) < from,
    decreases from,
{
    if from > 0 {
        lemma_desc_members_bounds(emails, r, from - 1);
        let d = desc_members(emails, r, from);
        let dprev = desc_members(emails, r, from - 1);
        assert forall|m: int| 0 <= m < d.len() implies (#[trigger] d[m] as int) < from by {
            if root_spec(emails, from - 1) == r {
                assert(d == seq![(from - 1) as usize] + dprev);
                if m > 0 {
                    assert(d[m] == dprev[m - 1]);
                }
            } else {
                assert(d =~= dprev);
            }
        }
    }
}

pub proof fn lemma_desc_members_has(emails: Seq<EmailSummary>, r: int, from: int, i: int)
    requires
        0 <= i < from,
        root_spec(emails, i) == r,
    ensures
        desc_members(emails, r, from).len() > 0,
    decreases from,
{
    if i < from - 1 {
        lemma_desc_members_has(emails, r, from - 1, i);
    }
}

/// Every thread in the grouping is non-empty and all its members are
/// indices into the list.
pub proof fn lemma_threads_upto_wf(emails: Seq<EmailSummary>, upto: int)
    requires
        upto <= emails.len(),
    ensures
        forall|k: int|
            0 <= k < threads_upto(emails, upto).len() ==> (#[trigger] threads_upto(
                emails,
                upto,
            )[k]).len() > 0,
        forall|k: int, m: int|
            0 <= k < threads_upto(emails, upto).len() && 0 <= m < threads_upto(emails, upto)[k].len()
                ==> (#[trigger] threads_upto(emails, upto)[k][m] as int) < emails.len(),
    decreases upto,
{
    if upto > 0 {
        lemma_threads_upto_wf(emails, upto - 1);
        let prev = threads_upto(emails, upto - 1);
        let curr = threads_upto(emails, upto);
        if is_leader(emails, upto - 1) {
            lemma_root_range(emails, upto - 1);
            let rt = root_spec(emails, upto - 1);
            lemma_desc_members_bounds(emails, rt, emails.len() as int);
            lemma_desc_members_has(emails, rt, emails.len() as int, upto - 1);
            let members = desc_members(emails, rt, emails.len() as int);
            assert(curr == prev + seq![members]);
            assert forall|k: int| 0 <= k < curr.len() implies (#[trigger] curr[k]).len() > 0 by {
                if k < prev.len() {
                    assert(curr[k] == prev[k]);
                } else {
                    assert(curr[k] == members);
                }
            }
            assert forall|k: int, m: int|
                0 <= k < curr.len() && 0 <= m < curr[k].len() implies (#[trigger] curr[k][m] as int)
                < emails.len() by {
                if k < prev.len() {
                    assert(curr[k] == prev[k]);
                } else {
                    assert(curr[k] == members);
                }
            }
        } else {
            assert(curr =~= prev);
        }
    }
}

} // verus!

verus! {

// ---------------------------------------------------------------------------
// Laws of subject normalization
// ---------------------------------------------------------------------------

/// Lower-casing never moves a space.
proof fn lemma_lower_keeps_spaces(s: Seq<char>)
    ensures
        lower_seq(s).len() == s.len(),
        forall|i: int|
            0 <= i < s.len() ==> crate::text::is_space_char(lower_seq(s)[i])
                == crate::text::is_space_char(s[i]),
{
}

/// A text without leading or trailing spaces trims to itself.
proof fn lemma_trim_fixed(s: Seq<char>)
    requires
        s.len() > 0 ==> !crate::text::is_space_char(s[0]),
        s.len() > 0 ==> !crate::text::is_space_char(s[s.len() - 1]),
    ensures
        trim_spec(s) == s,
{
    assert(trim_start_spec(s) == s);
    assert(crate::text::trim_end_spec(s) == s);
}

/// The trimmed text has no leading and no trailing space.
proof fn lemma_trim_clean(s: Seq<char>)
    ensures
        trim_spec(s).len() > 0 ==> !crate::text::is_space_char(trim_spec(s)[0]),
        trim_spec(s).len() > 0 ==> !crate::text::is_space_char(
            trim_spec(s)[trim_spec(s).len() - 1],
        ),
{
    crate::text::lemma_trim_start_no_leading(s);
    crate::text::lemma_trim_end_no_trailing(trim_start_spec(s));
    crate::text::lemma_trim_end_keeps_head(trim_start_spec(s));
}

/// Stripping reply prefixes keeps a clean text clean.
proof fn lemma_strip_re_clean(s: Seq<char>)
    requires
        s.len() > 0 ==> !crate::text::is_space_char(s[0]),
        s.len() > 0 ==> !crate::text::is_space_char(s[s.len() - 1]),
    ensures
        strip_re_spec(s).len() > 0 ==> !crate::text::is_space_char(strip_re_spec(s)[0]),
        strip_re_spec(s).len() > 0 ==> !crate::text::is_space_char(
            strip_re_spec(s)[strip_re_spec(s).len() - 1],
        ),
    decreases s.len(),
{
    if starts_with(lower_seq(s), "re:"@) {
        reveal_strlit("re:");
        crate::text::lemma_trim_start_len(s.subrange(3, s.len() as int));
        let rest = s.subrange(3, s.len() as int);
        let t = trim_start_spec(rest);
        crate::text::lemma_trim_start_no_leading(rest);
        crate::text::lemma_trim_start_keeps_last(rest);
        lemma_strip_re_clean(t);
    }
}

/// What stripping leaves never starts with another reply prefix.
proof fn lemma_strip_re_exhausts(s: Seq<char>)
    ensures
        !starts_with(lower_seq(strip_re_spec(s)), "re:"@),
    decreases s.len(),
{
    if starts_with(lower_seq(s), "re:"@) {
        reveal_strlit("re:");
        crate::text::lemma_trim_start_len(s.subrange(3, s.len() as int));
        lemma_strip_re_exhausts(trim_start_spec(s.subrange(3, s.len() as int)));
    }
}

/// Normalization is idempotent: normalizing a normalized subject changes
/// nothing.
pub proof fn lemma_normalize_idempotent(s: Seq<char>)
    ensures
        normalize_spec(normalize_spec(s)) == normalize_spec(s),
{
    let t = trim_spec(s);
    let u = strip_re_spec(t);
    let n = lower_seq(u);
    lemma_trim_clean(s);
    lemma_strip_re_clean(t);
    lemma_lower_keeps_spaces(u);
    // n trims to itself
    lemma_trim_fixed(n);
    // n holds no reply prefix
    lemma_strip_re_exhausts(t);
    crate::text::lemma_lower_seq_idempotent(u);
    assert(lower_seq(n) == n);
    assert(!starts_with(lower_seq(n), "re:"@));
    assert(strip_re_spec(n) == n);
    assert(normalize_spec(n) == lower_seq(strip_re_spec(trim_spec(n))));
    assert(normalize_spec(n) == n);
}

/// Trimming commutes with lower-casing.
proof fn lemma_trim_start_lower(s: Seq<char>)
    ensures
        trim_start_spec(lower_seq(s)) == lower_seq(trim_start_spec(s)),
    decreases s.len(),
{
    lemma_lower_keeps_spaces(s);
    if s.len() > 0 && crate::text::is_space_char(s[0]) {
        lemma_trim_start_lower(s.drop_first());
        assert(lower_seq(s).drop_first() =~= lower_seq(s.drop_first()));
    }
}

proof fn lemma_trim_end_lower(s: Seq<char>)
    ensures
        crate::text::trim_end_spec(lower_seq(s)) == lower_seq(crate::text::trim_end_spec(s)),
    decreases s.len(),
{
    lemma_lower_keeps_spaces(s);
    if s.len() > 0 && crate::text::is_space_char(s[s.len() - 1]) {
        lemma_trim_end_lower(s.drop_last());
        assert(lower_seq(s).drop_last() =~= lower_seq(s.drop_last()));
    }
}

/// Stripping reply prefixes from the lower-cased text leaves the same
/// subject key.
proof fn lemma_strip_re_lower(y: Seq<char>)
    ensures
        lower_seq(strip_re_spec(lower_seq(y))) == lower_seq(strip_re_spec(y)),
    decreases y.len(),
{
    reveal_strlit("re:");
    crate::text::lemma_lower_seq_idempotent(y);
    if starts_with(lower_seq(y), "re:"@) {
        crate::text::lemma_trim_start_len(y.subrange(3, y.len() as int));
        let rest = y.subrange(3, y.len() as int);
        assert(lower_seq(y).subrange(3, lower_seq(y).len() as int) =~= lower_seq(rest));
        lemma_trim_start_lower(rest);
        crate::text::lemma_trim_start_len(rest);
        let t = trim_start_spec(rest);
        lemma_strip_re_lower(t);
        assert(strip_re_spec(lower_seq(y)) == strip_re_spec(trim_start_spec(lower_seq(rest))));
        assert(trim_start_spec(lower_seq(rest)) == lower_seq(t));
    } else {
        assert(strip_re_spec(y) == y);
        assert(strip_re_spec(lower_seq(y)) == lower_seq(y));
    }
}

/// Normalization is case-insensitive: a subject and its lower-cased form
/// share one grouping key.
pub proof fn lemma_normalize_case_insensitive(s: Seq<char>)
    ensures
        normalize_spec(lower_seq(s)) == normalize_spec(s),
{
    lemma_trim_start_lower(s);
    lemma_trim_end_lower(trim_start_spec(s));
    assert(trim_spec(lower_seq(s)) == lower_seq(trim_spec(s)));
    lemma_strip_re_lower(trim_spec(s));
}

} // verus!

verus! {

// ---------------------------------------------------------------------------
// Laws of thread grouping
// ---------------------------------------------------------------------------

/// Any two-message list in which the newer message resolves the older one
/// as its parent, and the older resolves none, forms exactly one thread of
/// size two, oldest first.
pub proof fn lemma_pair_single_thread(emails: Seq<EmailSummary>)
    requires
        emails.len() == 2,
        parent_spec(emails, 0) == Some(1int),
        parent_spec(emails, 1) is None,
    ensures
        build_threads_spec(emails) == seq![seq![1usize, 0usize]],
{
    assert(walk(emails, 1, 1nat) == 1);
    assert(walk(emails, 1, 2nat) == walk(emails, 1, 1nat));
    assert(walk(emails, 0, 2nat) == walk(emails, 1, 1nat));
    assert(root_spec(emails, 0) == 1);
    assert(root_spec(emails, 1) == 1);
    assert(is_leader(emails, 0));
    assert(!is_leader(emails, 1)) by {
        assert(root_spec(emails, 0) == root_spec(emails, 1));
    }
    let members = desc_members(emails, 1, 2);
    assert(desc_members(emails, 1, 0) =~= Seq::<usize>::empty());
    assert(desc_members(emails, 1, 1) =~= seq![0usize] + desc_members(emails, 1, 0));
    assert(desc_members(emails, 1, 1) =~= seq![0usize]);
    assert(members =~= seq![1usize] + desc_members(emails, 1, 1));
    assert(members =~= seq![1usize, 0usize]);
    assert(threads_upto(emails, 0) =~= Seq::<Seq<usize>>::empty());
    assert(threads_upto(emails, 1) =~= threads_upto(emails, 0) + seq![members]);
    assert(threads_upto(emails, 2) =~= threads_upto(emails, 1));
    assert(build_threads_spec(emails) =~= seq![seq![1usize, 0usize]]);
}

/// A pair linked by an exact reply link always lands in one thread of size
/// two, oldest first: the list is newest first, so the reply stands at
/// index zero and the replied-to message at index one.
pub proof fn lemma_reply_link_groups_pair(emails: Seq<EmailSummary>)
    requires
        emails.len() == 2,
        emails[0].in_reply_to is Some,
        emails[1].message_id is Some,
        emails[0].in_reply_to->0@ == emails[1].message_id->0@,
        parent_spec(emails, 1) is None,
    ensures
        build_threads_spec(emails) == seq![seq![1usize, 0usize]],
{
    let mid = emails[0].in_reply_to->0@;
    assert(id_lookup(emails, mid) == Some(1int));
    assert(parent_spec(emails, 0) == Some(1int));
    lemma_pair_single_thread(emails);
}

/// A pair without id links whose subjects share a non-empty base always
/// lands in one thread of size two, oldest first.
pub proof fn lemma_subject_match_groups_pair(emails: Seq<EmailSummary>)
    requires
        emails.len() == 2,
        emails[0].in_reply_to is None,
        emails[1].in_reply_to is None,
        emails[0].references@.len() == 0,
        emails[1].references@.len() == 0,
        normalize_spec(emails[0].subject@) == normalize_spec(emails[1].subject@),
        normalize_spec(emails[0].subject@).len() > 0,
    ensures
        build_threads_spec(emails) == seq![seq![1usize, 0usize]],
{
    let base = normalize_spec(emails[0].subject@);
    assert(subject_lookup(emails, base) == Some(1int));
    assert(ref_lookup(emails, emails[0].references@) is None);
    assert(ref_lookup(emails, emails[1].references@) is None);
    assert(parent_spec(emails, 0) == Some(1int));
    assert(parent_spec(emails, 1) is None);
    lemma_pair_single_thread(emails);
}

// ---------------------------------------------------------------------------
// Deterministic ordering of the grouping
// ---------------------------------------------------------------------------

/// Every member of a thread shares its root.
proof fn lemma_desc_members_roots(emails: Seq<EmailSummary>, r: int, from: int)
    requires
        from <= usize::MAX,
    ensures
        forall|m: int|
            0 <= m < desc_members(emails, r, from).len() ==> root_spec(
                emails,
                #[trigger] desc_members(emails, r, from)[m] as int,
            ) == r,
    decreases from,
{
    if from > 0 {
        lemma_desc_members_roots(emails, r, from - 1);
        let d = desc_members(emails, r, from);
        let dprev = desc_members(emails, r, from - 1);
        assert forall|m: int| 0 <= m < d.len() implies root_spec(
            emails,
            #[trigger] d[m] as int,
        ) == r by {
            if root_spec(emails, from - 1) == r {
                assert(d == seq![(from - 1) as usize] + dprev);
                if m > 0 {
                    assert(d[m] == dprev[m - 1]);
                }
            } else {
                assert(d =~= dprev);
            }
        }
    }
}

/// With no member below `from`, the thread below `from` is empty.
proof fn lemma_desc_members_empty(emails: Seq<EmailSummary>, r: int, from: int)
    requires
        forall|j: int| 0 <= j < from ==> root_spec(emails, j) != r,
    ensures
        desc_members(emails, r, from).len() == 0,
    decreases from,
{
    if from > 0 {
        lemma_desc_members_empty(emails, r, from - 1);
    }
}

/// The last member of a leader's thread is the leader itself.
proof fn lemma_desc_members_last(emails: Seq<EmailSummary>, r: int, from: int, i: int)
    requires
        from <= usize::MAX,
        0 <= i < from,
        root_spec(emails, i) == r,
        forall|j: int| 0 <= j < i ==> root_spec(emails, j) != r,
    ensures
        desc_members(emails, r, from).len() > 0,
        desc_members(emails, r, from).last() == i as usize,
    decreases from,
{
    let d = desc_members(emails, r, from);
    let dprev = desc_members(emails, r, from - 1);
    if i == from - 1 {
        lemma_desc_members_empty(emails, r, from - 1);
        assert(d == seq![(from - 1) as usize] + dprev);
        assert(d.last() == i as usize);
    } else {
        lemma_desc_members_last(emails, r, from - 1, i);
        if root_spec(emails, from - 1) == r {
            assert(d == seq![(from - 1) as usize] + dprev);
            assert(d.last() == dprev.last());
        } else {
            assert(d =~= dprev);
        }
    }
}

/// The threads of the grouping, each a non-empty run whose last element is
/// its earliest member, stand in strictly increasing order of that member:
/// the grouping is sorted by earliest member index, so its order cannot
/// depend on anything but the resolved roots.
pub proof fn lemma_threads_ordered_by_first_member(emails: Seq<EmailSummary>)
    requires
        emails.len() <= usize::MAX,
    ensures
        forall|k: int|
            0 <= k < build_threads_spec(emails).len() ==> (#[trigger] build_threads_spec(
                emails,
            )[k]).len() > 0,
        forall|k: int, m: int|
            0 <= k < build_threads_spec(emails).len() && 0 <= m < build_threads_spec(
                emails,
            )[k].len() ==> (#[trigger] build_threads_spec(emails)[k][m]) >= build_threads_spec(
                emails,
            )[k].last(),
        forall|k1: int, k2: int|
            0 <= k1 < k2 < build_threads_spec(emails).len() ==> (#[trigger] build_threads_spec(
                emails,
            )[k1]).last() < (#[trigger] build_threads_spec(emails)[k2]).last(),
{
    lemma_threads_upto_ordered(emails, emails.len() as int);
}

proof fn lemma_threads_upto_ordered(emails: Seq<EmailSummary>, upto: int)
    requires
        emails.len() <= usize::MAX,
        upto <= emails.len(),
    ensures
        forall|k: int|
            0 <= k < threads_upto(emails, upto).len() ==> (#[trigger] threads_upto(
                emails,
                upto,
            )[k]).len() > 0,
        forall|k: int|
            0 <= k < threads_upto(emails, upto).len() ==> (#[trigger] threads_upto(
                emails,
                upto,
            )[k]).last() < upto,
        forall|k: int, m: int|
            0 <= k < threads_upto(emails, upto).len() && 0 <= m < threads_upto(
                emails,
                upto,
            )[k].len() ==> (#[trigger] threads_upto(emails, upto)[k][m]) >= threads_upto(
                emails,
                upto,
            )[k].last(),
        forall|k1: int, k2: int|
            0 <= k1 < k2 < threads_upto(emails, upto).len() ==> (#[trigger] threads_upto(
                emails,
                upto,
            )[k1]).last() < (#[trigger] threads_upto(emails, upto)[k2]).last(),
    decreases upto,
{
    if upto > 0 {
        lemma_threads_upto_ordered(emails, upto - 1);
        let prev = threads_upto(emails, upto - 1);
        let curr = threads_upto(emails, upto);
        let i = upto - 1;
        if is_leader(emails, i) {
            lemma_root_range(emails, i);
            let rt = root_spec(emails, i);
            let members = desc_members(emails, rt, emails.len() as int);
            lemma_desc_members_last(emails, rt, emails.len() as int, i);
            lemma_desc_members_roots(emails, rt, emails.len() as int);
            assert(curr == prev + seq![members]);
            assert(members.last() == i as usize);
            // no member sits below the leader
            assert forall|m: int| 0 <= m < members.len() implies (#[trigger] members[m])
                >= members.last() by {
                assert(root_spec(emails, members[m] as int) == rt);
                if (members[m] as int) < i {
                    assert(false);
                }
            }
            assert forall|k: int| 0 <= k < curr.len() implies (#[trigger] curr[k]).len() > 0 by {
                if k < prev.len() {
                    assert(curr[k] == prev[k]);
                } else {
                    assert(curr[k] == members);
                }
            }
            assert forall|k: int| 0 <= k < curr.len() implies (#[trigger] curr[k]).last()
                < upto by {
                if k < prev.len() {
                    assert(curr[k] == prev[k]);
                } else {
                    assert(curr[k] == members);
                }
            }
            assert forall|k: int, m: int|
                0 <= k < curr.len() && 0 <= m < curr[k].len() implies (#[trigger] curr[k][m])
                >= curr[k].last() by {
                if k < prev.len() {
                    assert(curr[k] == prev[k]);
                } else {
                    assert(curr[k] == members);
                }
            }
            assert forall|k1: int, k2: int|
                0 <= k1 < k2 < curr.len() implies (#[trigger] curr[k1]).last() < (
            #[trigger] curr[k2]).last() by {
                assert(curr[k1] == prev[k1]);
                if k2 < prev.len() {
                    assert(curr[k2] == prev[k2]);
                } else {
                    assert(curr[k2] == members);
                    assert(prev[k1].last() < upto - 1 + 1);
                }
            }
        } else {
            assert(curr =~= prev);
        }
    }
}

} // verus!
