//! MIME body and snippet extraction: multipart boundary detection,
//! content-type part selection (plain text preferred over HTML), HTML
//! stripping with entity decoding, and word-boundary truncation.
//!
//! Tag stripping is a simple in/out-of-tag scan, not a full parser: a `>`
//! embedded in an attribute value ends the tag early. Only a fixed, minimal
//! entity set is decoded.
use vstd::prelude::*;

use crate::text::{
    collapse_ws_spec, collapse_ws_vec, contains_seq, contains_vec, find_sub, first_match,
    lemma_first_match_is_least, lower_seq, remove_blocks_spec, remove_blocks_vec,
    replace_all_spec, replace_all_vec, split_lines_spec, split_lines_vec, split_seq_spec,
    split_seq_vec, starts_with, starts_with_vec, str_to_chars, chars_to_string, sub_vec,
    tag_scan_spec, tag_scan_vec, to_lower_vec, trim_char_spec, trim_char_vec, trim_end_spec,
    trim_end_vec, trim_spec, trim_start_spec, trim_start_vec, trim_vec, match_at, clone_chars,
    lossy_utf8, lossy_decode,
};

verus! {

// ---------------------------------------------------------------------------
// HTML stripping
// ---------------------------------------------------------------------------

/// The entity decoding applied after tag removal, in replacement order.
pub open spec fn decode_entities_spec(s: Seq<char>) -> Seq<char> {
    let s1 = replace_all_spec(s, "&nbsp;"@, " "@);
    let s2 = replace_all_spec(s1, "&amp;"@, "&"@);
    let s3 = replace_all_spec(s2, "&lt;"@, "<"@);
    let s4 = replace_all_spec(s3, "&gt;"@, ">"@);
    let s5 = replace_all_spec(s4, "&quot;"@, "\""@);
    let s6 = replace_all_spec(s5, "&#39;"@, "'"@);
    replace_all_spec(s6, "&apos;"@, "'"@)
}

/// Tag stripping: style and script blocks removed whole, remaining markup
/// removed by the tag scan, then entities decoded.
pub open spec fn strip_html_spec(s: Seq<char>) -> Seq<char> {
    let s1 = remove_blocks_spec(s, "<style"@, "</style>"@);
    let s2 = remove_blocks_spec(s1, "<script"@, "</script>"@);
    decode_entities_spec(tag_scan_spec(s2))
}

// ---------------------------------------------------------------------------
// Multipart boundary detection
// ---------------------------------------------------------------------------

/// The boundary named on a header-like line: the text after `boundary=`,
/// stripped of surrounding quotes, semicolons and whitespace.
pub open spec fn boundary_of_line(l: Seq<char>) -> Seq<char> {
    let i = first_match(l, "boundary="@)->Some_0;
    let rest = l.subrange(i + 9, l.len() as int);
    trim_spec(trim_char_spec(trim_char_spec(rest, '"'), ';'))
}

/// The first line that names a boundary, scanned top to bottom.
pub open spec fn boundary_from_lines(ls: Seq<Seq<char>>) -> Option<Seq<char>>
    decreases ls.len(),
{
    if ls.len() == 0 {
        None
    } else if contains_seq(ls[0], "boundary="@) {
        Some(boundary_of_line(ls[0]))
    } else {
        boundary_from_lines(ls.drop_first())
    }
}

/// The boundary of a multipart text: taken from a `boundary=` header line if
/// one exists, else from a first line that itself starts with `--`.
pub open spec fn boundary_spec(s: Seq<char>) -> Option<Seq<char>> {
    match boundary_from_lines(split_lines_spec(s)) {
        Some(b) => Some(b),
        None => {
            let ls = split_lines_spec(s);
            if ls.len() == 0 {
                None
            } else {
                let fl = trim_end_spec(ls[0]);
                if fl.len() > 2 && starts_with(fl, "--"@) {
                    Some(fl.subrange(2, fl.len() as int))
                } else {
                    None
                }
            }
        },
    }
}

// ---------------------------------------------------------------------------
// Part bodies and part selection
// ---------------------------------------------------------------------------

/// The text after the first blank-line separator of a part, if there is one.
pub open spec fn part_body_spec(p: Seq<char>) -> Option<Seq<char>> {
    match first_match(p, "\r\n\r\n"@) {
        Some(i) => Some(p.subrange(i + 4, p.len() as int)),
        None => match first_match(p, "\n\n"@) {
            Some(j) => Some(p.subrange(j + 2, p.len() as int)),
            None => None,
        },
    }
}

/// A part declaring plain text content, with a body to take.
pub open spec fn is_plain_part(p: Seq<char>) -> bool {
    (contains_seq(lower_seq(p), "content-type: text/plain"@) || contains_seq(
        lower_seq(p),
        "content-type:text/plain"@,
    )) && part_body_spec(p) is Some
}

/// A part declaring HTML content (and not plain text), with a body to take.
pub open spec fn is_html_part(p: Seq<char>) -> bool {
    !is_plain_part(p) && (contains_seq(lower_seq(p), "content-type: text/html"@) || contains_seq(
        lower_seq(p),
        "content-type:text/html"@,
    )) && part_body_spec(p) is Some
}

/// Body of the first part satisfying `plain`-or-`html` selection, plain form.
pub open spec fn first_plain_body(parts: Seq<Seq<char>>) -> Option<Seq<char>>
    decreases parts.len(),
{
    if parts.len() == 0 {
        None
    } else if is_plain_part(parts[0]) {
        part_body_spec(parts[0])
    } else {
        first_plain_body(parts.drop_first())
    }
}

pub open spec fn first_html_body(parts: Seq<Seq<char>>) -> Option<Seq<char>>
    decreases parts.len(),
{
    if parts.len() == 0 {
        None
    } else if is_html_part(parts[0]) {
        part_body_spec(parts[0])
    } else {
        first_html_body(parts.drop_first())
    }
}

/// The text a multipart message carries: the first plain part's body, else
/// the first HTML part's body with tags stripped; `None` when the text has no
/// boundary or no such part.
pub open spec fn mime_text_spec(s: Seq<char>) -> Option<Seq<char>> {
    match boundary_spec(s) {
        None => None,
        Some(b) => {
            let parts = split_seq_spec(s, "--"@ + b);
            match first_plain_body(parts) {
                Some(t) => Some(t),
                None => match first_html_body(parts) {
                    Some(h) => Some(strip_html_spec(h)),
                    None => None,
                },
            }
        },
    }
}

// ---------------------------------------------------------------------------
// Whole-message extraction
// ---------------------------------------------------------------------------

/// The text looks like a raw HTML document (no MIME wrapper).
pub open spec fn looks_like_html(s: Seq<char>) -> bool {
    let t = trim_start_spec(s);
    starts_with(t, "<!"@) || starts_with(t, "<html"@) || starts_with(t, "<HTML"@)
}

/// The remainder after a leading header block, when a `Content-Type:` header
/// is present; the whole text otherwise.
pub open spec fn after_headers_spec(s: Seq<char>) -> Seq<char> {
    if contains_seq(s, "Content-Type:"@) {
        match first_match(s, "\r\n\r\n"@) {
            Some(i) => s.subrange(i + 4, s.len() as int),
            None => match first_match(s, "\n\n"@) {
                Some(j) => s.subrange(j + 2, s.len() as int),
                None => s,
            },
        }
    } else {
        s
    }
}

/// Full body extraction on decoded text: multipart text when a boundary is
/// found; raw HTML stripped; otherwise the text after any header block,
/// defensively stripped when it still holds both `<` and `>`.
pub open spec fn body_text_spec(s: Seq<char>) -> Seq<char> {
    match mime_text_spec(s) {
        Some(t) => t,
        None => {
            if looks_like_html(s) {
                strip_html_spec(s)
            } else {
                let body = after_headers_spec(s);
                if body.contains('<') && body.contains('>') {
                    strip_html_spec(body)
                } else {
                    body
                }
            }
        },
    }
}

// ---------------------------------------------------------------------------
// Word-boundary truncation and snippets
// ---------------------------------------------------------------------------

/// Greatest index of a space character, if any.
pub open spec fn last_space(s: Seq<char>) -> Option<int> {
    if exists|i: int| 0 <= i < s.len() && s[i] == ' ' {
        Some(
            choose|i: int|
                0 <= i < s.len() && s[i] == ' ' && (forall|j: int|
                    i < j < s.len() ==> s[j] != ' '),
        )
    } else {
        None
    }
}

proof fn lemma_greatest_space(s: Seq<char>, w: int)
    requires
        0 <= w < s.len() && s[w] == ' ',
    ensures
        exists|i: int|
            0 <= i < s.len() && s[i] == ' ' && (forall|j: int| i < j < s.len() ==> s[j] != ' '),
    decreases s.len() - w,
{
    if forall|j: int| w < j < s.len() ==> s[j] != ' ' {
    } else {
        let w2 = choose|j: int| w < j < s.len() && s[j] == ' ';
        lemma_greatest_space(s, w2);
    }
}

/// `last_space` pinned down: it is the greatest space position.
pub proof fn lemma_last_space_is_greatest(s: Seq<char>)
    ensures
        match last_space(s) {
            Some(i) => 0 <= i < s.len() && s[i] == ' ' && forall|j: int|
                i < j < s.len() ==> s[j] != ' ',
            None => forall|j: int| 0 <= j < s.len() ==> s[j] != ' ',
        },
{
    if exists|i: int| 0 <= i < s.len() && s[i] == ' ' {
        let w = choose|i: int| 0 <= i < s.len() && s[i] == ' ';
        lemma_greatest_space(s, w);
    }
}

/// Truncation to at most `max` characters at the last space inside the limit,
/// a trailing ellipsis marking the cut; text within the limit is unchanged.
pub open spec fn truncate_word_spec(s: Seq<char>, max: int) -> Seq<char> {
    if s.len() <= max {
        s
    } else {
        let t = s.subrange(0, max);
        match last_space(t) {
            Some(ls) => s.subrange(0, ls) + "..."@,
            None => t + "..."@,
        }
    }
}

/// Snippet extraction on decoded text: the body (multipart-aware, headers
/// skipped), HTML stripped, whitespace collapsed, truncated to 100
/// characters at a word boundary.
pub open spec fn snippet_spec(s: Seq<char>) -> Seq<char> {
    let body = match mime_text_spec(s) {
        Some(t) => t,
        None => if looks_like_html(s) {
            s
        } else {
            after_headers_spec(s)
        },
    };
    truncate_word_spec(collapse_ws_spec(strip_html_spec(body)), 100)
}

// ---------------------------------------------------------------------------
// Reference-header parsing
// ---------------------------------------------------------------------------

/// State-machine scan of a References header: `<` opens a candidate id, `>`
/// closes it; the trimmed, non-empty ids are kept in order.
pub open spec fn parse_refs_rec(s: Seq<char>, i: int, start: Option<int>) -> Seq<Seq<char>>
    decreases s.len() - i,
{
    if i < 0 || i >= s.len() {
        Seq::empty()
    } else if s[i] == '<' {
        parse_refs_rec(s, i + 1, Some(i + 1))
    } else if s[i] == '>' {
        match start {
            Some(st) => {
                let m = trim_spec(s.subrange(if st <= i {
                    st
                } else {
                    i
                }, i));
                (if m.len() > 0 {
                    seq![m]
                } else {
                    Seq::empty()
                }) + parse_refs_rec(s, i + 1, None)
            },
            None => parse_refs_rec(s, i + 1, None),
        }
    } else {
        parse_refs_rec(s, i + 1, start)
    }
}

pub open spec fn parse_refs_spec(s: Seq<char>) -> Seq<Seq<char>> {
    parse_refs_rec(s, 0, None)
}

/// A text without `<` yields no references, whatever the scan state.
pub proof fn lemma_no_open_no_refs(s: Seq<char>, i: int)
    requires
        forall|j: int| 0 <= j < s.len() ==> s[j] != '<',
    ensures
        parse_refs_rec(s, i, None) == Seq::<Seq<char>>::empty(),
    decreases s.len() - i,
{
    if 0 <= i < s.len() {
        lemma_no_open_no_refs(s, i + 1);
    }
}

} // verus!

verus! {

// ---------------------------------------------------------------------------
// Executable helpers on character vectors
// ---------------------------------------------------------------------------

#[verifier::rlimit(50)]
fn decode_entities_vec(v: &Vec<char>) -> (r: Vec<char>)
    ensures
        r@ == decode_entities_spec(v@),
{
    proof {
        reveal_strlit("&nbsp;");
        reveal_strlit("&amp;");
        reveal_strlit("&lt;");
        reveal_strlit("&gt;");
        reveal_strlit("&quot;");
        reveal_strlit("&#39;");
        reveal_strlit("&apos;");
    }
    let s1 = replace_all_vec(v, &str_to_chars("&nbsp;"), &str_to_chars(" "));
    let s2 = replace_all_vec(&s1, &str_to_chars("&amp;"), &str_to_chars("&"));
    let s3 = replace_all_vec(&s2, &str_to_chars("&lt;"), &str_to_chars("<"));
    let s4 = replace_all_vec(&s3, &str_to_chars("&gt;"), &str_to_chars(">"));
    let s5 = replace_all_vec(&s4, &str_to_chars("&quot;"), &str_to_chars("\""));
    let s6 = replace_all_vec(&s5, &str_to_chars("&#39;"), &str_to_chars("'"));
    replace_all_vec(&s6, &str_to_chars("&apos;"), &str_to_chars("'"))
}

#[verifier::rlimit(50)]
fn strip_html_vec(v: &Vec<char>) -> (r: Vec<char>)
    ensures
        r@ == strip_html_spec(v@),
{
    proof {
        reveal_strlit("<style");
        reveal_strlit("</style>");
        reveal_strlit("<script");
        reveal_strlit("</script>");
    }
    let s1 = remove_blocks_vec(v, &str_to_chars("<style"), &str_to_chars("</style>"));
    let s2 = remove_blocks_vec(&s1, &str_to_chars("<script"), &str_to_chars("</script>"));
    decode_entities_vec(&tag_scan_vec(&s2))
}

fn part_body_vec(p: &Vec<char>) -> (r: Option<Vec<char>>)
    ensures
        match r {
            Some(b) => part_body_spec(p@) == Some(b@),
            None => part_body_spec(p@) is None,
        },
{
    let crlf2 = str_to_chars("\r\n\r\n");
    let lf2 = str_to_chars("\n\n");
    proof {
        lemma_first_match_is_least(p@, crlf2@);
        lemma_first_match_is_least(p@, lf2@);
    }
    match find_sub(p, &crlf2) {
        Some(i) => {
            assert(match_at(p@, crlf2@, i as int));
            let n = p.len();
            assert(i + 4 <= n) by {
                assert(crlf2@.len() == 4) by {
                    reveal_strlit("\r\n\r\n");
                }
            }
            Some(sub_vec(p, i + 4, n))
        },
        None => {
            match find_sub(p, &lf2) {
                Some(j) => {
                    assert(match_at(p@, lf2@, j as int));
                    let n = p.len();
                    assert(j + 2 <= n) by {
                        assert(lf2@.len() == 2) by {
                            reveal_strlit("\n\n");
                        }
                    }
                    Some(sub_vec(p, j + 2, n))
                },
                None => None,
            }
        },
    }
}

fn is_plain_part_vec(p: &Vec<char>) -> (r: bool)
    ensures
        r == is_plain_part(p@),
{
    let lower = to_lower_vec(p);
    let m1 = contains_vec(&lower, &str_to_chars("content-type: text/plain"));
    let m2 = contains_vec(&lower, &str_to_chars("content-type:text/plain"));
    if m1 || m2 {
        match part_body_vec(p) {
            Some(_) => true,
            None => false,
        }
    } else {
        false
    }
}

fn is_html_part_vec(p: &Vec<char>) -> (r: bool)
    ensures
        r == is_html_part(p@),
{
    if is_plain_part_vec(p) {
        return false;
    }
    let lower = to_lower_vec(p);
    let m1 = contains_vec(&lower, &str_to_chars("content-type: text/html"));
    let m2 = contains_vec(&lower, &str_to_chars("content-type:text/html"));
    if m1 || m2 {
        match part_body_vec(p) {
            Some(_) => true,
            None => false,
        }
    } else {
        false
    }
}

/// The multipart boundary of the text, if one can be found.
fn find_boundary(v: &Vec<char>) -> (r: Option<Vec<char>>)
    ensures
        match r {
            Some(b) => boundary_spec(v@) == Some(b@),
            None => boundary_spec(v@) is None,
        },
{
    let lines = split_lines_vec(v);
    proof {
        crate::text::lemma_lines_deep_view(lines);
    }
    let ghost ld = lines.deep_view();
    let pat = str_to_chars("boundary=");
    let mut k: usize = 0;
    assert(ld.subrange(0, ld.len() as int) =~= ld);
    while k < lines.len()
        invariant
            k <= lines@.len(),
            ld == lines.deep_view(),
            ld.len() == lines@.len(),
            forall|i: int| 0 <= i < lines@.len() ==> ld[i] == lines@[i]@,
            pat@ == "boundary="@,
            boundary_from_lines(ld) == boundary_from_lines(
                ld.subrange(k as int, ld.len() as int),
            ),
        decreases lines.len() - k,
    {
        let line = &lines[k];
        proof {
            let rest = ld.subrange(k as int, ld.len() as int);
            assert(rest[0] == line@);
            assert(rest.drop_first() =~= ld.subrange(k + 1, ld.len() as int));
        }
        if contains_vec(line, &pat) {
            // this line names the boundary
            proof {
                lemma_first_match_is_least(line@, "boundary="@);
            }
            let i = match find_sub(line, &pat) {
                Some(i) => i,
                None => {
                    // contains_vec said the pattern occurs
                    proof {
                        assert(false);
                    }
                    0
                },
            };
            assert(match_at(line@, "boundary="@, i as int));
            let n = line.len();
            assert(i + 9 <= n) by {
                assert("boundary="@.len() == 9) by {
                    reveal_strlit("boundary=");
                }
            }
            let rest = sub_vec(line, i + 9, n);
            let b = trim_vec(&trim_char_vec(&trim_char_vec(&rest, '"'), ';'));
            assert(b@ == boundary_of_line(line@));
            return Some(b);
        }
        k = k + 1;
    }
    assert(ld.subrange(lines@.len() as int, ld.len() as int) =~= Seq::<Seq<char>>::empty());
    assert(boundary_from_lines(ld) is None);
    // fall back to a first line that is itself a boundary delimiter
    if lines.len() == 0 {
        return None;
    }
    let fl = trim_end_vec(&lines[0]);
    assert(fl@ == trim_end_spec(ld[0]));
    let dashes = str_to_chars("--");
    if fl.len() > 2 && starts_with_vec(&fl, &dashes) {
        let b = sub_vec(&fl, 2, fl.len());
        return Some(b);
    }
    assert(fl@.len() <= 2 || !starts_with(fl@, "--"@));
    None
}

/// The extracted text of a multipart message, on character vectors.
#[verifier::rlimit(100)]
fn mime_text_vec(v: &Vec<char>) -> (r: Option<Vec<char>>)
    ensures
        match r {
            Some(t) => mime_text_spec(v@) == Some(t@),
            None => mime_text_spec(v@) is None,
        },
{
    let b = match find_boundary(v) {
        Some(b) => b,
        None => {
            return None;
        },
    };
    let mut pat = str_to_chars("--");
    let mut btail = clone_chars(&b);
    pat.append(&mut btail);
    assert(pat@ == "--"@ + b@);
    assert(pat@.len() > 0) by {
        reveal_strlit("--");
    }
    let parts = split_seq_vec(v, &pat);
    proof {
        crate::text::lemma_lines_deep_view(parts);
    }
    let ghost pd = parts.deep_view();
    // first pass: plain text parts
    let mut k: usize = 0;
    assert(pd.subrange(0, pd.len() as int) =~= pd);
    while k < parts.len()
        invariant
            k <= parts@.len(),
            pd == parts.deep_view(),
            pd.len() == parts@.len(),
            forall|i: int| 0 <= i < parts@.len() ==> pd[i] == parts@[i]@,
            first_plain_body(pd) == first_plain_body(pd.subrange(k as int, pd.len() as int)),
        decreases parts.len() - k,
    {
        let part = &parts[k];
        proof {
            let rest = pd.subrange(k as int, pd.len() as int);
            assert(rest[0] == part@);
            assert(rest.drop_first() =~= pd.subrange(k + 1, pd.len() as int));
        }
        if is_plain_part_vec(part) {
            match part_body_vec(part) {
                Some(body) => {
                    return Some(body);
                },
                None => {
                    // unreachable: a plain part always has a body
                    proof {
                        assert(false);
                    }
                },
            }
        }
        k = k + 1;
    }
    assert(pd.subrange(parts@.len() as int, pd.len() as int) =~= Seq::<Seq<char>>::empty());
    assert(first_plain_body(pd) is None);
    // second pass: html parts, stripped
    let mut k2: usize = 0;
    assert(pd.subrange(0, pd.len() as int) =~= pd);
    while k2 < parts.len()
        invariant
            k2 <= parts@.len(),
            pd == parts.deep_view(),
            pd.len() == parts@.len(),
            forall|i: int| 0 <= i < parts@.len() ==> pd[i] == parts@[i]@,
            first_plain_body(pd) is None,
            mime_text_spec(v@) == (match first_html_body(pd.subrange(k2 as int, pd.len() as int)) {
                Some(h) => Some(strip_html_spec(h)),
                None => None::<Seq<char>>,
            }),
        decreases parts.len() - k2,
    {
        let part = &parts[k2];
        proof {
            let rest = pd.subrange(k2 as int, pd.len() as int);
            assert(rest[0] == part@);
            assert(rest.drop_first() =~= pd.subrange(k2 + 1, pd.len() as int));
        }
        if is_html_part_vec(part) {
            match part_body_vec(part) {
                Some(body) => {
                    return Some(strip_html_vec(&body));
                },
                None => {
                    // unreachable: an HTML part always has a body
                    proof {
                        assert(false);
                    }
                },
            }
        }
        k2 = k2 + 1;
    }
    assert(pd.subrange(parts@.len() as int, pd.len() as int) =~= Seq::<Seq<char>>::empty());
    None
}

} // verus!

verus! {

// ---------------------------------------------------------------------------
// Public extraction API
// ---------------------------------------------------------------------------

/// Strips HTML markup: whole `<style>`/`<script>` blocks first (an
/// unterminated block truncates at its opening tag), then remaining tags by
/// an in/out-of-tag scan, then the fixed entity set.
pub fn strip_html_tags(input: &str) -> (r: String)
    ensures
        r@ == strip_html_spec(input@),
{
    let v = str_to_chars(input);
    let stripped = strip_html_vec(&v);
    chars_to_string(&stripped)
}

/// The text after a part's first blank-line separator, if it has one.
pub fn extract_part_body(part: &str) -> (r: Option<String>)
    ensures
        match r {
            Some(b) => part_body_spec(part@) == Some(b@),
            None => part_body_spec(part@) is None,
        },
{
    let v = str_to_chars(part);
    match part_body_vec(&v) {
        Some(b) => Some(chars_to_string(&b)),
        None => None,
    }
}

/// The decoded text of a multipart message: the first `text/plain` part's
/// body, else the first `text/html` part's body with tags stripped.
pub fn extract_mime_text(text: &str) -> (r: Option<String>)
    ensures
        match r {
            Some(t) => mime_text_spec(text@) == Some(t@),
            None => mime_text_spec(text@) is None,
        },
{
    let v = str_to_chars(text);
    match mime_text_vec(&v) {
        Some(t) => Some(chars_to_string(&t)),
        None => None,
    }
}

/// Truncation to at most `max` characters, cut at the last space within the
/// limit when one exists, with a trailing ellipsis marking any cut.
pub fn truncate_at_word_boundary(s: &str, max: usize) -> (r: String)
    ensures
        r@ == truncate_word_spec(s@, max as int),
{
    let v = str_to_chars(s);
    let t = truncate_word_vec(&v, max);
    chars_to_string(&t)
}

fn truncate_word_vec(v: &Vec<char>, max: usize) -> (r: Vec<char>)
    ensures
        r@ == truncate_word_spec(v@, max as int),
{
    if v.len() <= max {
        return clone_chars(v);
    }
    let t = sub_vec(v, 0, max);
    proof {
        lemma_last_space_is_greatest(t@);
    }
    // scan for the last space within the limit
    let mut ls: Option<usize> = None;
    let mut i: usize = 0;
    while i < t.len()
        invariant
            i <= t@.len(),
            match ls {
                Some(p) => p < i && t@[p as int] == ' ' && forall|j: int|
                    p < j < i ==> t@[j] != ' ',
                None => forall|j: int| 0 <= j < i ==> t@[j] != ' ',
            },
        decreases t.len() - i,
    {
        if t[i] == ' ' {
            ls = Some(i);
        }
        i = i + 1;
    }
    let dots = str_to_chars("...");
    match ls {
        Some(p) => {
            assert(last_space(t@) == Some(p as int));
            let mut head = sub_vec(v, 0, p);
            let mut tail = clone_chars(&dots);
            head.append(&mut tail);
            assert(head@ =~= v@.subrange(0, p as int) + "..."@);
            head
        },
        None => {
            assert(last_space(t@) is None);
            let mut head = clone_chars(&t);
            let mut tail = clone_chars(&dots);
            head.append(&mut tail);
            assert(head@ =~= t@ + "..."@);
            head
        },
    }
}

/// The truncated text never exceeds `max + 3` characters, and a cut text
/// ends with the ellipsis.
pub proof fn lemma_truncate_word_bound(s: Seq<char>, max: int)
    requires
        0 <= max,
    ensures
        truncate_word_spec(s, max).len() <= max + 3,
        s.len() > max ==> {
            let r = truncate_word_spec(s, max);
            r.len() >= 3 && r.subrange(r.len() - 3, r.len() as int) == "..."@
        },
{
    reveal_strlit("...");
    if s.len() > max {
        let t = s.subrange(0, max);
        lemma_last_space_is_greatest(t);
        match last_space(t) {
            Some(ls) => {
                let r = s.subrange(0, ls) + "..."@;
                assert(r.subrange(r.len() - 3, r.len() as int) =~= "..."@);
            },
            None => {
                let r = t + "..."@;
                assert(r.subrange(r.len() - 3, r.len() as int) =~= "..."@);
            },
        }
    }
}

} // verus!

verus! {

/// The remainder after a leading header block when a `Content-Type:` header
/// is present, else the whole text.
fn after_headers_vec(v: &Vec<char>) -> (r: Vec<char>)
    ensures
        r@ == after_headers_spec(v@),
{
    let ct = str_to_chars("Content-Type:");
    if !contains_vec(v, &ct) {
        return clone_chars(v);
    }
    let crlf2 = str_to_chars("\r\n\r\n");
    let lf2 = str_to_chars("\n\n");
    proof {
        lemma_first_match_is_least(v@, crlf2@);
        lemma_first_match_is_least(v@, lf2@);
    }
    match find_sub(v, &crlf2) {
        Some(i) => {
            assert(match_at(v@, crlf2@, i as int));
            let n = v.len();
            assert(i + 4 <= n) by {
                assert(crlf2@.len() == 4) by {
                    reveal_strlit("\r\n\r\n");
                }
            }
            sub_vec(v, i + 4, n)
        },
        None => {
            match find_sub(v, &lf2) {
                Some(j) => {
                    assert(match_at(v@, lf2@, j as int));
                    let n = v.len();
                    assert(j + 2 <= n) by {
                        assert(lf2@.len() == 2) by {
                            reveal_strlit("\n\n");
                        }
                    }
                    sub_vec(v, j + 2, n)
                },
                None => clone_chars(v),
            }
        },
    }
}

fn looks_like_html_vec(v: &Vec<char>) -> (r: bool)
    ensures
        r == looks_like_html(v@),
{
    let t = trim_start_vec(v);
    starts_with_vec(&t, &str_to_chars("<!")) || starts_with_vec(&t, &str_to_chars("<html"))
        || starts_with_vec(&t, &str_to_chars("<HTML"))
}

/// Full body text of a raw message blob, decoded as UTF-8 (lossily): the
/// multipart text when a boundary is found; raw HTML stripped; otherwise the
/// text after any header block, stripped defensively when it still holds
/// both `<` and `>`. A blob that is neither multipart nor HTML nor headed
/// comes back exactly as decoded.
pub fn extract_body_text(raw: &[u8]) -> (r: String)
    ensures
        r@ == body_text_spec(lossy_utf8(raw@)),
        (mime_text_spec(lossy_utf8(raw@)) is None && !looks_like_html(lossy_utf8(raw@))
            && !contains_seq(lossy_utf8(raw@), "Content-Type:"@) && !(lossy_utf8(
            raw@,
        ).contains('<') && lossy_utf8(raw@).contains('>'))) ==> r@ == lossy_utf8(raw@),
{
    let v = lossy_decode(raw);
    match mime_text_vec(&v) {
        Some(t) => chars_to_string(&t),
        None => {
            if looks_like_html_vec(&v) {
                let stripped = strip_html_vec(&v);
                chars_to_string(&stripped)
            } else {
                let body = after_headers_vec(&v);
                let has_lt = crate::text::contains_char(&body, '<');
                let has_gt = crate::text::contains_char(&body, '>');
                if has_lt && has_gt {
                    let stripped = strip_html_vec(&body);
                    chars_to_string(&stripped)
                } else {
                    chars_to_string(&body)
                }
            }
        },
    }
}

/// Short preview of a raw message blob: the body with HTML stripped,
/// whitespace collapsed to single spaces, truncated to 100 characters at a
/// word boundary with a trailing ellipsis. Never longer than 103 characters.
pub fn extract_snippet(raw: &[u8]) -> (r: String)
    ensures
        r@ == snippet_spec(lossy_utf8(raw@)),
        r@.len() <= 103,
        r@.len() > 100 ==> r@.subrange(r@.len() - 3, r@.len() as int) == "..."@,
{
    let v = lossy_decode(raw);
    let body = match mime_text_vec(&v) {
        Some(t) => t,
        None => {
            if looks_like_html_vec(&v) {
                clone_chars(&v)
            } else {
                after_headers_vec(&v)
            }
        },
    };
    let collapsed = collapse_ws_vec(&strip_html_vec(&body));
    let t = truncate_word_vec(&collapsed, 100);
    proof {
        lemma_truncate_word_bound(collapsed@, 100);
    }
    chars_to_string(&t)
}

/// Message ids listed in a References header: each `<...>` bracketed,
/// trimmed, non-empty id in order. A text without angle brackets yields an
/// empty list.
pub fn parse_references(raw: &[u8]) -> (r: Vec<String>)
    ensures
        r.deep_view() == parse_refs_spec(lossy_utf8(raw@)),
        (forall|j: int|
            0 <= j < lossy_utf8(raw@).len() ==> lossy_utf8(raw@)[j] != '<') ==> r@.len() == 0,
{
    let v = lossy_decode(raw);
    let ghost s = v@;
    let mut refs: Vec<String> = Vec::new();
    let mut start: Option<usize> = None;
    let mut i: usize = 0;
    proof {
        crate::text::lemma_strings_deep_view(refs);
    }
    while i < v.len()
        invariant
            i <= s.len(),
            s == v@,
            match start {
                Some(st) => st <= i,
                None => true,
            },
            parse_refs_spec(s) == refs.deep_view() + parse_refs_rec(s, i as int, match start {
                Some(st) => Some(st as int),
                None => None::<int>,
            }),
        decreases v.len() - i,
    {
        let c = v[i];
        if c == '<' {
            start = Some(i + 1);
        } else if c == '>' {
            match start {
                Some(st) => {
                    let id = trim_vec(&sub_vec(&v, st, i));
                    let ghost refsdeep = refs.deep_view();
                    if id.len() > 0 {
                        refs.push(chars_to_string(&id));
                        proof {
                            crate::text::lemma_strings_deep_view(refs);
                            assert(refs.deep_view() =~= refsdeep + seq![id@]);
                        }
                    }
                    start = None;
                },
                None => {},
            }
        }
        i = i + 1;
    }
    proof {
        assert(parse_refs_rec(s, i as int, match start {
            Some(st) => Some(st as int),
            None => None::<int>,
        }) =~= Seq::<Seq<char>>::empty());
        assert(refs.deep_view() =~= parse_refs_spec(s));
        if forall|j: int| 0 <= j < s.len() ==> s[j] != '<' {
            lemma_no_open_no_refs(s, 0);
            crate::text::lemma_strings_deep_view(refs);
            assert(refs.deep_view().len() == refs@.len());
        }
    }
    refs
}

} // verus!

verus! {

/// A text free of tag markup characters.
pub open spec fn no_markup(t: Seq<char>) -> bool {
    forall|i: int| 0 <= i < t.len() ==> (#[trigger] t[i]) != '<' && t[i] != '>'
}

/// The tag scan leaves no markup: its result holds neither `<` nor `>`.
/// (Entity decoding afterwards may reintroduce literal angle brackets from
/// `&lt;` and `&gt;`, which are text, not markup.)
pub proof fn lemma_tag_scan_no_markup(s: Seq<char>, in_tag: bool)
    ensures
        no_markup(crate::text::tag_scan_rec(s, in_tag)),
    decreases s.len(),
{
    if s.len() > 0 {
        let r = crate::text::tag_scan_rec(s, in_tag);
        if s[0] == '<' {
            lemma_tag_scan_no_markup(s.drop_first(), true);
        } else if s[0] == '>' {
            lemma_tag_scan_no_markup(s.drop_first(), false);
        } else if !in_tag {
            lemma_tag_scan_no_markup(s.drop_first(), in_tag);
            let tail = crate::text::tag_scan_rec(s.drop_first(), in_tag);
            assert(r == seq![s[0]] + tail);
            assert forall|i: int| 0 <= i < r.len() implies (#[trigger] r[i]) != '<' && r[i]
                != '>' by {
                if i > 0 {
                    assert(r[i] == tail[i - 1]);
                }
            }
        } else {
            lemma_tag_scan_no_markup(s.drop_first(), in_tag);
        }
    }
}

} // verus!

verus! {

/// With both kinds of parts present, the extracted body is the first plain
/// part's content; the HTML part contributes nothing.
pub proof fn lemma_multipart_prefers_plain(s: Seq<char>)
    requires
        boundary_spec(s) is Some,
        first_plain_body(split_seq_spec(s, "--"@ + boundary_spec(s)->0)) is Some,
    ensures
        body_text_spec(s) == first_plain_body(split_seq_spec(s, "--"@ + boundary_spec(s)->0))->0,
        snippet_spec(s) == truncate_word_spec(
            collapse_ws_spec(
                strip_html_spec(
                    first_plain_body(split_seq_spec(s, "--"@ + boundary_spec(s)->0))->0,
                ),
            ),
            100,
        ),
{
}

/// With only HTML parts, the extracted body is the first HTML part's
/// content with its markup stripped.
pub proof fn lemma_multipart_html_only_stripped(s: Seq<char>)
    requires
        boundary_spec(s) is Some,
        first_plain_body(split_seq_spec(s, "--"@ + boundary_spec(s)->0)) is None,
        first_html_body(split_seq_spec(s, "--"@ + boundary_spec(s)->0)) is Some,
    ensures
        body_text_spec(s) == strip_html_spec(
            first_html_body(split_seq_spec(s, "--"@ + boundary_spec(s)->0))->0,
        ),
{
}

} // verus!
