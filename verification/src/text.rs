//! Character-level text utilities shared by the MIME extractor and the
//! thread builder: case mapping, trimming, substring search, splitting and
//! whitespace collapsing, each specified over `Seq<char>`.
use vstd::prelude::*;

verus! {

/// The characters this crate treats as whitespace (the ASCII whitespace set).
pub open spec fn is_space_char(c: char) -> bool {
    c == ' ' || c == '\t' || c == '\n' || c == '\r' || c == '\x0b' || c == '\x0c'
}

/// ASCII lower-casing of one character; other characters are unchanged.
pub open spec fn lower_char(c: char) -> char {
    match c {
        'A' => 'a',
        'B' => 'b',
        'C' => 'c',
        'D' => 'd',
        'E' => 'e',
        'F' => 'f',
        'G' => 'g',
        'H' => 'h',
        'I' => 'i',
        'J' => 'j',
        'K' => 'k',
        'L' => 'l',
        'M' => 'm',
        'N' => 'n',
        'O' => 'o',
        'P' => 'p',
        'Q' => 'q',
        'R' => 'r',
        'S' => 's',
        'T' => 't',
        'U' => 'u',
        'V' => 'v',
        'W' => 'w',
        'X' => 'x',
        'Y' => 'y',
        'Z' => 'z',
        _ => c,
    }
}

pub open spec fn lower_seq(s: Seq<char>) -> Seq<char> {
    s.map_values(|c: char| lower_char(c))
}

/// Lower-casing is idempotent, character by character.
pub proof fn lemma_lower_char_idempotent(c: char)
    ensures
        lower_char(lower_char(c)) == lower_char(c),
{
}

pub proof fn lemma_lower_seq_idempotent(s: Seq<char>)
    ensures
        lower_seq(lower_seq(s)) == lower_seq(s),
{
    assert(lower_seq(lower_seq(s)) =~= lower_seq(s));
}

pub fn is_space(c: char) -> (r: bool)
    ensures
        r == is_space_char(c),
{
    c == ' ' || c == '\t' || c == '\n' || c == '\r' || c == '\x0b' || c == '\x0c'
}

pub fn to_lower_char(c: char) -> (r: char)
    ensures
        r == lower_char(c),
{
    match c {
        'A' => 'a',
        'B' => 'b',
        'C' => 'c',
        'D' => 'd',
        'E' => 'e',
        'F' => 'f',
        'G' => 'g',
        'H' => 'h',
        'I' => 'i',
        'J' => 'j',
        'K' => 'k',
        'L' => 'l',
        'M' => 'm',
        'N' => 'n',
        'O' => 'o',
        'P' => 'p',
        'Q' => 'q',
        'R' => 'r',
        'S' => 's',
        'T' => 't',
        'U' => 'u',
        'V' => 'v',
        'W' => 'w',
        'X' => 'x',
        'Y' => 'y',
        'Z' => 'z',
        _ => c,
    }
}

pub fn to_lower_vec(v: &Vec<char>) -> (r: Vec<char>)
    ensures
        r@ == lower_seq(v@),
{
    let mut r: Vec<char> = Vec::new();
    let mut i: usize = 0;
    while i < v.len()
        invariant
            i <= v.len(),
            r@ == lower_seq(v@.subrange(0, i as int)),
        decreases v.len() - i,
    {
        r.push(to_lower_char(v[i]));
        i = i + 1;
        assert(r@ =~= lower_seq(v@.subrange(0, i as int)));
    }
    assert(v@.subrange(0, v.len() as int) =~= v@);
    r
}

/// Copy of `v[from..to]`.
pub fn sub_vec(v: &Vec<char>, from: usize, to: usize) -> (r: Vec<char>)
    requires
        from <= to <= v@.len(),
    ensures
        r@ == v@.subrange(from as int, to as int),
{
    let mut r: Vec<char> = Vec::new();
    let mut i: usize = from;
    while i < to
        invariant
            from <= i <= to,
            r@ == v@.subrange(from as int, i as int),
        decreases to - i,
    {
        r.push(v[i]);
        i = i + 1;
        assert(r@ =~= v@.subrange(from as int, i as int));
    }
    r
}

// ---------------------------------------------------------------------------
// Substring search
// ---------------------------------------------------------------------------

/// The needle `p` occurs in `s` at position `i`.
pub open spec fn match_at(s: Seq<char>, p: Seq<char>, i: int) -> bool {
    0 <= i && i + p.len() <= s.len() && s.subrange(i, i + p.len() as int) == p
}

pub open spec fn contains_seq(s: Seq<char>, p: Seq<char>) -> bool {
    exists|i: int| match_at(s, p, i)
}

/// Position of the first occurrence of `p` in `s`, if any.
pub open spec fn first_match(s: Seq<char>, p: Seq<char>) -> Option<int> {
    if contains_seq(s, p) {
        Some(choose|i: int| match_at(s, p, i) && forall|j: int| 0 <= j < i ==> !match_at(s, p, j))
    } else {
        None
    }
}

proof fn lemma_first_match_exists(s: Seq<char>, p: Seq<char>)
    requires
        contains_seq(s, p),
    ensures
        exists|i: int|
            match_at(s, p, i) && (forall|j: int| 0 <= j < i ==> !match_at(s, p, j)),
{
    let w = choose|i: int| match_at(s, p, i);
    lemma_least_match(s, p, w);
}

proof fn lemma_least_match(s: Seq<char>, p: Seq<char>, w: int)
    requires
        match_at(s, p, w),
    ensures
        exists|i: int|
            match_at(s, p, i) && (forall|j: int| 0 <= j < i ==> !match_at(s, p, j)),
    decreases w,
{
    if forall|j: int| 0 <= j < w ==> !match_at(s, p, j) {
        assert(match_at(s, p, w) && (forall|j: int| 0 <= j < w ==> !match_at(s, p, j)));
    } else {
        let w2 = choose|j: int| 0 <= j < w && match_at(s, p, j);
        lemma_least_match(s, p, w2);
    }
}

/// `first_match` pinned down: it is the least match position.
pub proof fn lemma_first_match_is_least(s: Seq<char>, p: Seq<char>)
    ensures
        match first_match(s, p) {
            Some(i) => match_at(s, p, i) && forall|j: int| 0 <= j < i ==> !match_at(s, p, j),
            None => !contains_seq(s, p),
        },
{
    if contains_seq(s, p) {
        lemma_first_match_exists(s, p);
    }
}

/// True when `p` occurs at position `i` of `s`; executable check.
fn check_match_at(s: &Vec<char>, p: &Vec<char>, i: usize) -> (r: bool)
    requires
        i + p@.len() <= s@.len(),
    ensures
        r == match_at(s@, p@, i as int),
{
    let n = s.len();
    assert(n == s@.len());
    let mut k: usize = 0;
    while k < p.len()
        invariant
            k <= p@.len(),
            i + p@.len() <= s@.len(),
            forall|m: int| 0 <= m < k ==> s@[i + m] == p@[m],
        decreases p.len() - k,
    {
        assert(i + k < s@.len());
        if s[i + k] != p[k] {
            assert(s@.subrange(i as int, i + p@.len() as int)[k as int] != p@[k as int]);
            return false;
        }
        k = k + 1;
    }
    assert(s@.subrange(i as int, i + p@.len() as int) =~= p@);
    true
}

/// First occurrence of `p` in `s`, scanning left to right.
pub fn find_sub(s: &Vec<char>, p: &Vec<char>) -> (r: Option<usize>)
    ensures
        match r {
            Some(i) => Some(i as int) == first_match(s@, p@),
            None => first_match(s@, p@) is None,
        },
{
    proof {
        lemma_first_match_is_least(s@, p@);
    }
    if p.len() > s.len() {
        assert(forall|i: int| !match_at(s@, p@, i));
        return None;
    }
    if p.len() == 0 {
        assert(s@.subrange(0, 0) =~= p@);
        assert(match_at(s@, p@, 0));
        return Some(0);
    }
    let last = s.len() - p.len();
    let mut i: usize = 0;
    while i <= last
        invariant
            0 < p@.len() <= s@.len(),
            last == s@.len() - p@.len(),
            i <= last + 1,
            forall|j: int| 0 <= j < i ==> !match_at(s@, p@, j),
        decreases last + 1 - i,
    {
        if check_match_at(s, p, i) {
            return Some(i);
        }
        i = i + 1;
    }
    assert(forall|j: int| !match_at(s@, p@, j));
    None
}

pub fn contains_vec(s: &Vec<char>, p: &Vec<char>) -> (r: bool)
    ensures
        r == contains_seq(s@, p@),
{
    proof {
        lemma_first_match_is_least(s@, p@);
    }
    match find_sub(s, p) {
        Some(_) => true,
        None => false,
    }
}

pub open spec fn starts_with(s: Seq<char>, p: Seq<char>) -> bool {
    match_at(s, p, 0)
}

pub fn starts_with_vec(s: &Vec<char>, p: &Vec<char>) -> (r: bool)
    ensures
        r == starts_with(s@, p@),
{
    if p.len() > s.len() {
        return false;
    }
    check_match_at(s, p, 0)
}

pub fn contains_char(s: &Vec<char>, c: char) -> (r: bool)
    ensures
        r == s@.contains(c),
{
    let mut i: usize = 0;
    while i < s.len()
        invariant
            i <= s@.len(),
            forall|j: int| 0 <= j < i ==> s@[j] != c,
        decreases s.len() - i,
    {
        if s[i] == c {
            return true;
        }
        i = i + 1;
    }
    false
}

} // verus!

verus! {

// ---------------------------------------------------------------------------
// First occurrence of a single character
// ---------------------------------------------------------------------------

/// Position of the first occurrence of the character `c` in `s`, if any.
pub open spec fn first_char(s: Seq<char>, c: char) -> Option<int> {
    if exists|i: int| 0 <= i < s.len() && s[i] == c {
        Some(
            choose|i: int|
                0 <= i < s.len() && s[i] == c && (forall|j: int| 0 <= j < i ==> s[j] != c),
        )
    } else {
        None
    }
}

proof fn lemma_least_char(s: Seq<char>, c: char, w: int)
    requires
        0 <= w < s.len() && s[w] == c,
    ensures
        exists|i: int|
            0 <= i < s.len() && s[i] == c && (forall|j: int| 0 <= j < i ==> s[j] != c),
    decreases w,
{
    if forall|j: int| 0 <= j < w ==> s[j] != c {
    } else {
        let w2 = choose|j: int| 0 <= j < w && s[j] == c;
        lemma_least_char(s, c, w2);
    }
}

/// `first_char` pinned down: it is the least position holding `c`.
pub proof fn lemma_first_char_is_least(s: Seq<char>, c: char)
    ensures
        match first_char(s, c) {
            Some(i) => 0 <= i < s.len() && s[i] == c && forall|j: int| 0 <= j < i ==> s[j] != c,
            None => forall|j: int| 0 <= j < s.len() ==> s[j] != c,
        },
{
    if exists|i: int| 0 <= i < s.len() && s[i] == c {
        let w = choose|i: int| 0 <= i < s.len() && s[i] == c;
        lemma_least_char(s, c, w);
    }
}

pub fn find_char(s: &Vec<char>, c: char) -> (r: Option<usize>)
    ensures
        match r {
            Some(i) => Some(i as int) == first_char(s@, c),
            None => first_char(s@, c) is None,
        },
{
    proof {
        lemma_first_char_is_least(s@, c);
    }
    let mut i: usize = 0;
    while i < s.len()
        invariant
            i <= s@.len(),
            forall|j: int| 0 <= j < i ==> s@[j] != c,
        decreases s.len() - i,
    {
        if s[i] == c {
            return Some(i);
        }
        i = i + 1;
    }
    None
}

// ---------------------------------------------------------------------------
// Trimming
// ---------------------------------------------------------------------------

pub open spec fn trim_start_spec(s: Seq<char>) -> Seq<char>
    decreases s.len(),
{
    if s.len() > 0 && is_space_char(s[0]) {
        trim_start_spec(s.drop_first())
    } else {
        s
    }
}

pub open spec fn trim_end_spec(s: Seq<char>) -> Seq<char>
    decreases s.len(),
{
    if s.len() > 0 && is_space_char(s[s.len() - 1]) {
        trim_end_spec(s.drop_last())
    } else {
        s
    }
}

pub open spec fn trim_spec(s: Seq<char>) -> Seq<char> {
    trim_end_spec(trim_start_spec(s))
}

pub fn trim_start_vec(v: &Vec<char>) -> (r: Vec<char>)
    ensures
        r@ == trim_start_spec(v@),
{
    assert(v@.subrange(0, v@.len() as int) =~= v@);
    let mut i: usize = 0;
    while i < v.len() && is_space(v[i])
        invariant
            i <= v@.len(),
            trim_start_spec(v@) == trim_start_spec(v@.subrange(i as int, v@.len() as int)),
        decreases v.len() - i,
    {
        proof {
            let rest = v@.subrange(i as int, v@.len() as int);
            assert(rest.drop_first() =~= v@.subrange(i + 1, v@.len() as int));
        }
        i = i + 1;
    }
    proof {
        let rest = v@.subrange(i as int, v@.len() as int);
        assert(trim_start_spec(rest) == rest);
    }
    sub_vec(v, i, v.len())
}

pub fn trim_end_vec(v: &Vec<char>) -> (r: Vec<char>)
    ensures
        r@ == trim_end_spec(v@),
{
    assert(v@.subrange(0, v@.len() as int) =~= v@);
    let mut e: usize = v.len();
    while e > 0 && is_space(v[e - 1])
        invariant
            e <= v@.len(),
            trim_end_spec(v@) == trim_end_spec(v@.subrange(0, e as int)),
        decreases e,
    {
        proof {
            let rest = v@.subrange(0, e as int);
            assert(rest.drop_last() =~= v@.subrange(0, e - 1));
        }
        e = e - 1;
    }
    proof {
        let rest = v@.subrange(0, e as int);
        assert(trim_end_spec(rest) == rest);
    }
    sub_vec(v, 0, e)
}

pub fn trim_vec(v: &Vec<char>) -> (r: Vec<char>)
    ensures
        r@ == trim_spec(v@),
{
    let t = trim_start_vec(v);
    trim_end_vec(&t)
}

/// All leading occurrences of the exact character `c` removed.
pub open spec fn trim_char_start_spec(s: Seq<char>, c: char) -> Seq<char>
    decreases s.len(),
{
    if s.len() > 0 && s[0] == c {
        trim_char_start_spec(s.drop_first(), c)
    } else {
        s
    }
}

pub open spec fn trim_char_end_spec(s: Seq<char>, c: char) -> Seq<char>
    decreases s.len(),
{
    if s.len() > 0 && s[s.len() - 1] == c {
        trim_char_end_spec(s.drop_last(), c)
    } else {
        s
    }
}

/// All leading and trailing occurrences of `c` removed.
pub open spec fn trim_char_spec(s: Seq<char>, c: char) -> Seq<char> {
    trim_char_end_spec(trim_char_start_spec(s, c), c)
}

pub fn trim_char_vec(v: &Vec<char>, c: char) -> (r: Vec<char>)
    ensures
        r@ == trim_char_spec(v@, c),
{
    assert(v@.subrange(0, v@.len() as int) =~= v@);
    let mut i: usize = 0;
    while i < v.len() && v[i] == c
        invariant
            i <= v@.len(),
            trim_char_start_spec(v@, c) == trim_char_start_spec(
                v@.subrange(i as int, v@.len() as int),
                c,
            ),
        decreases v.len() - i,
    {
        proof {
            let rest = v@.subrange(i as int, v@.len() as int);
            assert(rest.drop_first() =~= v@.subrange(i + 1, v@.len() as int));
        }
        i = i + 1;
    }
    proof {
        let rest = v@.subrange(i as int, v@.len() as int);
        assert(trim_char_start_spec(rest, c) == rest);
    }
    let start_trimmed = sub_vec(v, i, v.len());
    assert(start_trimmed@.subrange(0, start_trimmed@.len() as int) =~= start_trimmed@);
    let mut e: usize = start_trimmed.len();
    while e > 0 && start_trimmed[e - 1] == c
        invariant
            e <= start_trimmed@.len(),
            trim_char_end_spec(start_trimmed@, c) == trim_char_end_spec(
                start_trimmed@.subrange(0, e as int),
                c,
            ),
        decreases e,
    {
        proof {
            let rest = start_trimmed@.subrange(0, e as int);
            assert(rest.drop_last() =~= start_trimmed@.subrange(0, e - 1));
        }
        e = e - 1;
    }
    proof {
        let rest = start_trimmed@.subrange(0, e as int);
        assert(trim_char_end_spec(rest, c) == rest);
    }
    sub_vec(&start_trimmed, 0, e)
}

} // verus!

verus! {

/// Element-wise copy of a character vector.
pub fn clone_chars(v: &Vec<char>) -> (r: Vec<char>)
    ensures
        r@ == v@,
{
    sub_vec(v, 0, v.len())
}

/// The deep view of a character vector is its view.
pub proof fn lemma_chars_deep_view(v: Vec<char>)
    ensures
        v.deep_view() == v@,
{
    assert(v.deep_view() =~= v@);
}

/// The deep view of a vector of lines, element by element.
pub proof fn lemma_lines_deep_view(v: Vec<Vec<char>>)
    ensures
        v.deep_view() == Seq::new(v@.len(), |i: int| v@[i]@),
{
    assert forall|i: int| 0 <= i < v@.len() implies v@[i].deep_view() == v@[i]@ by {
        lemma_chars_deep_view(v@[i]);
    }
    assert(v.deep_view() =~= Seq::new(v@.len(), |i: int| v@[i]@));
}

// ---------------------------------------------------------------------------
// Splitting into lines (a line ends at `\n`; a `\r` before the `\n` is
// dropped; the final line needs no terminator)
// ---------------------------------------------------------------------------

/// One line segment with a trailing carriage return removed.
pub open spec fn line_seg(s: Seq<char>) -> Seq<char> {
    if s.len() > 0 && s[s.len() - 1] == '\r' {
        s.drop_last()
    } else {
        s
    }
}

pub open spec fn split_lines_spec(s: Seq<char>) -> Seq<Seq<char>>
    decreases s.len(),
    via split_lines_spec_dec
{
    if s.len() == 0 {
        Seq::empty()
    } else {
        match first_char(s, '\n') {
            Some(i) => seq![line_seg(s.subrange(0, i))] + split_lines_spec(
                s.subrange(i + 1, s.len() as int),
            ),
            None => seq![s],
        }
    }
}

#[via_fn]
proof fn split_lines_spec_dec(s: Seq<char>) {
    lemma_first_char_is_least(s, '\n');
}

pub fn split_lines_vec(v: &Vec<char>) -> (r: Vec<Vec<char>>)
    ensures
        r.deep_view() == split_lines_spec(v@),
    decreases v@.len(),
{
    proof {
        lemma_first_char_is_least(v@, '\n');
    }
    let mut r: Vec<Vec<char>> = Vec::new();
    if v.len() == 0 {
        assert(r.deep_view() =~= split_lines_spec(v@));
        return r;
    }
    match find_char(v, '\n') {
        Some(i) => {
            let mut seg = sub_vec(v, 0, i);
            if seg.len() > 0 && seg[seg.len() - 1] == '\r' {
                let _ = seg.pop();
                assert(seg@ =~= line_seg(v@.subrange(0, i as int)));
            } else {
                assert(seg@ == line_seg(v@.subrange(0, i as int)));
            }
            let rest = sub_vec(v, i + 1, v.len());
            let mut tail = split_lines_vec(&rest);
            let ghost tailseq = tail@;
            let ghost taildeep = tail.deep_view();
            r.push(seg);
            r.append(&mut tail);
            proof {
                assert(r@ =~= seq![seg] + tailseq);
                lemma_lines_deep_view(r);
            }
            proof {
                let spec_r = split_lines_spec(v@);
                assert forall|k: int| 0 <= k < r@.len() implies r.deep_view()[k] == spec_r[k] by {
                    lemma_chars_deep_view(r@[k]);
                    if k > 0 {
                        assert(r@[k] == tailseq[k - 1]);
                        assert(taildeep[k - 1] == tailseq[k - 1].deep_view());
                        lemma_chars_deep_view(tailseq[k - 1]);
                        assert(spec_r[k] == taildeep[k - 1]);
                    }
                }
                assert(r.deep_view() =~= spec_r);
            }
            r
        },
        None => {
            let whole = clone_chars(v);
            r.push(whole);
            proof {
                assert forall|k: int| 0 <= k < r@.len() implies r.deep_view()[k]
                    == split_lines_spec(v@)[k] by {
                    lemma_chars_deep_view(r@[k]);
                }
                assert(r.deep_view() =~= split_lines_spec(v@));
            }
            r
        },
    }
}

} // verus!

verus! {

// ---------------------------------------------------------------------------
// Whitespace collapsing: maximal non-space runs joined by single spaces
// ---------------------------------------------------------------------------

/// `emitted` records whether any character was already produced; `pending`
/// records whether a separating space is owed before the next character.
pub open spec fn collapse_rec(s: Seq<char>, emitted: bool, pending: bool) -> Seq<char>
    decreases s.len(),
{
    if s.len() == 0 {
        Seq::empty()
    } else if is_space_char(s[0]) {
        collapse_rec(s.drop_first(), emitted, emitted)
    } else {
        (if pending {
            seq![' ', s[0]]
        } else {
            seq![s[0]]
        }) + collapse_rec(s.drop_first(), true, false)
    }
}

pub open spec fn collapse_ws_spec(s: Seq<char>) -> Seq<char> {
    collapse_rec(s, false, false)
}

pub fn collapse_ws_vec(v: &Vec<char>) -> (r: Vec<char>)
    ensures
        r@ == collapse_ws_spec(v@),
{
    let mut r: Vec<char> = Vec::new();
    let mut emitted: bool = false;
    let mut pending: bool = false;
    let mut i: usize = 0;
    assert(v@.subrange(0, v@.len() as int) =~= v@);
    while i < v.len()
        invariant
            i <= v@.len(),
            collapse_ws_spec(v@) == r@ + collapse_rec(
                v@.subrange(i as int, v@.len() as int),
                emitted,
                pending,
            ),
        decreases v.len() - i,
    {
        proof {
            let rest = v@.subrange(i as int, v@.len() as int);
            assert(rest.drop_first() =~= v@.subrange(i + 1, v@.len() as int));
        }
        let c = v[i];
        if is_space(c) {
            pending = emitted;
        } else {
            if pending {
                r.push(' ');
            }
            r.push(c);
            emitted = true;
            pending = false;
        }
        i = i + 1;
    }
    assert(r@ =~= collapse_ws_spec(v@));
    r
}

// ---------------------------------------------------------------------------
// Replacing every occurrence of a pattern, leftmost first
// ---------------------------------------------------------------------------

pub open spec fn replace_all_spec(s: Seq<char>, pat: Seq<char>, rep: Seq<char>) -> Seq<char>
    decreases s.len(),
    via replace_all_spec_dec
{
    if pat.len() == 0 {
        s
    } else {
        match first_match(s, pat) {
            Some(i) => s.subrange(0, i) + rep + replace_all_spec(
                s.subrange(i + pat.len() as int, s.len() as int),
                pat,
                rep,
            ),
            None => s,
        }
    }
}

#[via_fn]
proof fn replace_all_spec_dec(s: Seq<char>, pat: Seq<char>, rep: Seq<char>) {
    lemma_first_match_is_least(s, pat);
}

#[verifier::rlimit(50)]
pub fn replace_all_vec(v: &Vec<char>, pat: &Vec<char>, rep: &Vec<char>) -> (r: Vec<char>)
    requires
        pat@.len() > 0,
    ensures
        r@ == replace_all_spec(v@, pat@, rep@),
{
    let mut r: Vec<char> = Vec::new();
    let mut rest = clone_chars(v);
    proof {
        assert(r@ + replace_all_spec(rest@, pat@, rep@) =~= replace_all_spec(v@, pat@, rep@));
    }
    loop
        invariant
            pat@.len() > 0,
            replace_all_spec(v@, pat@, rep@) == r@ + replace_all_spec(rest@, pat@, rep@),
        decreases rest@.len(),
    {
        proof {
            lemma_first_match_is_least(rest@, pat@);
        }
        match find_sub(&rest, pat) {
            Some(i) => {
                assert(match_at(rest@, pat@, i as int));
                let ghost restseq = rest@;
                let mut head = sub_vec(&rest, 0, i);
                r.append(&mut head);
                let mut mid = clone_chars(rep);
                r.append(&mut mid);
                let n = rest.len();
                assert(i + pat@.len() <= n);
                let new_rest = sub_vec(&rest, i + pat.len(), n);
                rest = new_rest;
                proof {
                    assert(replace_all_spec(restseq, pat@, rep@) == restseq.subrange(0, i as int)
                        + rep@ + replace_all_spec(rest@, pat@, rep@));
                }
            },
            None => {
                let mut tail = clone_chars(&rest);
                r.append(&mut tail);
                return r;
            },
        }
    }
}

// ---------------------------------------------------------------------------
// Splitting on a separator pattern, leftmost first
// ---------------------------------------------------------------------------

pub open spec fn split_seq_spec(s: Seq<char>, pat: Seq<char>) -> Seq<Seq<char>>
    decreases s.len(),
    via split_seq_spec_dec
{
    if pat.len() == 0 {
        seq![s]
    } else {
        match first_match(s, pat) {
            Some(i) => seq![s.subrange(0, i)] + split_seq_spec(
                s.subrange(i + pat.len() as int, s.len() as int),
                pat,
            ),
            None => seq![s],
        }
    }
}

#[via_fn]
proof fn split_seq_spec_dec(s: Seq<char>, pat: Seq<char>) {
    lemma_first_match_is_least(s, pat);
}

pub fn split_seq_vec(v: &Vec<char>, pat: &Vec<char>) -> (r: Vec<Vec<char>>)
    requires
        pat@.len() > 0,
    ensures
        r.deep_view() == split_seq_spec(v@, pat@),
    decreases v@.len(),
{
    proof {
        lemma_first_match_is_least(v@, pat@);
    }
    let mut r: Vec<Vec<char>> = Vec::new();
    match find_sub(v, pat) {
        Some(i) => {
            assert(match_at(v@, pat@, i as int));
            let head = sub_vec(v, 0, i);
            let n = v.len();
            assert(i + pat@.len() <= n);
            let restv = sub_vec(v, i + pat.len(), n);
            let mut tail = split_seq_vec(&restv, pat);
            let ghost tailseq = tail@;
            let ghost taildeep = tail.deep_view();
            r.push(head);
            r.append(&mut tail);
            proof {
                assert(r@ =~= seq![head] + tailseq);
                let spec_r = split_seq_spec(v@, pat@);
                assert forall|k: int| 0 <= k < r@.len() implies r.deep_view()[k] == spec_r[k] by {
                    lemma_chars_deep_view(r@[k]);
                    if k > 0 {
                        assert(r@[k] == tailseq[k - 1]);
                        assert(taildeep[k - 1] == tailseq[k - 1].deep_view());
                        lemma_chars_deep_view(tailseq[k - 1]);
                        assert(spec_r[k] == taildeep[k - 1]);
                    }
                }
                assert(r.deep_view() =~= spec_r);
            }
            r
        },
        None => {
            let whole = clone_chars(v);
            r.push(whole);
            proof {
                assert forall|k: int| 0 <= k < r@.len() implies r.deep_view()[k]
                    == split_seq_spec(v@, pat@)[k] by {
                    lemma_chars_deep_view(r@[k]);
                }
                assert(r.deep_view() =~= split_seq_spec(v@, pat@));
            }
            r
        },
    }
}

} // verus!

verus! {

// ---------------------------------------------------------------------------
// HTML helpers: removing whole tag blocks and stripping tag markup
// ---------------------------------------------------------------------------

/// Repeatedly removes the region from the first (case-insensitive) occurrence
/// of `open` through the end of the following `close`; an unterminated block
/// truncates the text at the opening tag.
pub open spec fn remove_blocks_spec(s: Seq<char>, open_tag: Seq<char>, close_tag: Seq<char>)
    -> Seq<char>
    decreases s.len(),
    via remove_blocks_spec_dec
{
    if open_tag.len() == 0 || close_tag.len() == 0 {
        s
    } else {
        match first_match(lower_seq(s), open_tag) {
            None => s,
            Some(start) => {
                match first_match(
                    lower_seq(s).subrange(start, s.len() as int),
                    close_tag,
                ) {
                    Some(k) => remove_blocks_spec(
                        s.subrange(0, start) + s.subrange(
                            start + k + close_tag.len(),
                            s.len() as int,
                        ),
                        open_tag,
                        close_tag,
                    ),
                    None => s.subrange(0, start),
                }
            },
        }
    }
}

#[via_fn]
proof fn remove_blocks_spec_dec(s: Seq<char>, open_tag: Seq<char>, close_tag: Seq<char>) {
    lemma_first_match_is_least(lower_seq(s), open_tag);
    if open_tag.len() > 0 && close_tag.len() > 0 {
        match first_match(lower_seq(s), open_tag) {
            None => {},
            Some(start) => {
                lemma_first_match_is_least(
                    lower_seq(s).subrange(start, s.len() as int),
                    close_tag,
                );
            },
        }
    }
}

pub fn remove_blocks_vec(v: &Vec<char>, open_tag: &Vec<char>, close_tag: &Vec<char>) -> (r: Vec<
    char,
>)
    requires
        open_tag@.len() > 0,
        close_tag@.len() > 0,
    ensures
        r@ == remove_blocks_spec(v@, open_tag@, close_tag@),
{
    let mut text = clone_chars(v);
    loop
        invariant
            open_tag@.len() > 0,
            close_tag@.len() > 0,
            remove_blocks_spec(v@, open_tag@, close_tag@) == remove_blocks_spec(
                text@,
                open_tag@,
                close_tag@,
            ),
        decreases text@.len(),
    {
        let lower = to_lower_vec(&text);
        proof {
            lemma_first_match_is_least(lower@, open_tag@);
        }
        match find_sub(&lower, open_tag) {
            None => {
                return text;
            },
            Some(start) => {
                let n = lower.len();
                let tail_lower = sub_vec(&lower, start, n);
                proof {
                    lemma_first_match_is_least(tail_lower@, close_tag@);
                }
                match find_sub(&tail_lower, close_tag) {
                    Some(k) => {
                        assert(match_at(tail_lower@, close_tag@, k as int));
                        let ghost textseq = text@;
                        let mut head = sub_vec(&text, 0, start);
                        assert(start + k + close_tag@.len() <= n);
                        let mut tail = sub_vec(&text, start + k + close_tag.len(), n);
                        head.append(&mut tail);
                        text = head;
                        proof {
                            assert(remove_blocks_spec(textseq, open_tag@, close_tag@)
                                == remove_blocks_spec(text@, open_tag@, close_tag@));
                        }
                    },
                    None => {
                        let head = sub_vec(&text, 0, start);
                        return head;
                    },
                }
            },
        }
    }
}

/// Removing everything between `<` and `>` inclusive, by a single scan.
pub open spec fn tag_scan_rec(s: Seq<char>, in_tag: bool) -> Seq<char>
    decreases s.len(),
{
    if s.len() == 0 {
        Seq::empty()
    } else if s[0] == '<' {
        tag_scan_rec(s.drop_first(), true)
    } else if s[0] == '>' {
        tag_scan_rec(s.drop_first(), false)
    } else if !in_tag {
        seq![s[0]] + tag_scan_rec(s.drop_first(), in_tag)
    } else {
        tag_scan_rec(s.drop_first(), in_tag)
    }
}

pub open spec fn tag_scan_spec(s: Seq<char>) -> Seq<char> {
    tag_scan_rec(s, false)
}

pub fn tag_scan_vec(v: &Vec<char>) -> (r: Vec<char>)
    ensures
        r@ == tag_scan_spec(v@),
{
    let mut r: Vec<char> = Vec::new();
    let mut in_tag: bool = false;
    let mut i: usize = 0;
    assert(v@.subrange(0, v@.len() as int) =~= v@);
    while i < v.len()
        invariant
            i <= v@.len(),
            tag_scan_spec(v@) == r@ + tag_scan_rec(
                v@.subrange(i as int, v@.len() as int),
                in_tag,
            ),
        decreases v.len() - i,
    {
        proof {
            let rest = v@.subrange(i as int, v@.len() as int);
            assert(rest.drop_first() =~= v@.subrange(i + 1, v@.len() as int));
        }
        let c = v[i];
        if c == '<' {
            in_tag = true;
        } else if c == '>' {
            in_tag = false;
        } else if !in_tag {
            r.push(c);
        }
        i = i + 1;
    }
    assert(r@ =~= tag_scan_spec(v@));
    r
}

// ---------------------------------------------------------------------------
// Boundary crossings into std: building and reading strings
// ---------------------------------------------------------------------------

/// Relies on str::chars: yields exactly the characters of the string.
#[verifier::external_body]
pub fn str_to_chars(s: &str) -> (r: Vec<char>)
    ensures
        r@ == s@,
{
    s.chars().collect()
}

/// Relies on String's FromIterator over chars: the collected string holds
/// exactly the characters of the vector, in order.
#[verifier::external_body]
pub fn chars_to_string(v: &Vec<char>) -> (r: String)
    ensures
        r@ == v@,
{
    v.iter().collect()
}

/// The character sequence that lossy UTF-8 decoding assigns to a byte
/// sequence. Left abstract: the decoding rules fill pages, but the result is
/// a function of the bytes alone.
pub uninterp spec fn lossy_utf8(bytes: Seq<u8>) -> Seq<char>;

/// Relies on String::from_utf8_lossy: a pure function of the bytes; an empty
/// input decodes to the empty string.
#[verifier::external_body]
pub fn lossy_decode(raw: &[u8]) -> (r: Vec<char>)
    ensures
        r@ == lossy_utf8(raw@),
        raw@.len() == 0 ==> r@.len() == 0,
{
    String::from_utf8_lossy(raw).chars().collect()
}

} // verus!

verus! {

/// The deep view of a vector of strings, element by element.
pub proof fn lemma_strings_deep_view(v: Vec<String>)
    ensures
        v.deep_view() == Seq::new(v@.len(), |i: int| v@[i]@),
{
    assert(v.deep_view() =~= Seq::new(v@.len(), |i: int| v@[i]@));
}

} // verus!

verus! {

/// Trimming the start never lengthens a text.
pub proof fn lemma_trim_start_len(s: Seq<char>)
    ensures
        trim_start_spec(s).len() <= s.len(),
    decreases s.len(),
{
    if s.len() > 0 && is_space_char(s[0]) {
        lemma_trim_start_len(s.drop_first());
    }
}

/// A start-trimmed text never begins with a space.
pub proof fn lemma_trim_start_no_leading(s: Seq<char>)
    ensures
        trim_start_spec(s).len() > 0 ==> !is_space_char(trim_start_spec(s)[0]),
    decreases s.len(),
{
    if s.len() > 0 && is_space_char(s[0]) {
        lemma_trim_start_no_leading(s.drop_first());
    }
}

/// An end-trimmed text never ends with a space.
pub proof fn lemma_trim_end_no_trailing(s: Seq<char>)
    ensures
        trim_end_spec(s).len() > 0 ==> !is_space_char(
            trim_end_spec(s)[trim_end_spec(s).len() - 1],
        ),
    decreases s.len(),
{
    if s.len() > 0 && is_space_char(s[s.len() - 1]) {
        lemma_trim_end_no_trailing(s.drop_last());
    }
}

/// Trimming the end leaves any leading non-space first character in place.
pub proof fn lemma_trim_end_keeps_head(s: Seq<char>)
    ensures
        trim_end_spec(s).len() > 0 ==> trim_end_spec(s)[0] == s[0],
    decreases s.len(),
{
    if s.len() > 0 && is_space_char(s[s.len() - 1]) {
        lemma_trim_end_keeps_head(s.drop_last());
    }
}

/// Trimming the start leaves the last character in place.
pub proof fn lemma_trim_start_keeps_last(s: Seq<char>)
    ensures
        trim_start_spec(s).len() > 0 ==> trim_start_spec(s)[trim_start_spec(s).len() - 1]
            == s[s.len() - 1],
    decreases s.len(),
{
    if s.len() > 0 && is_space_char(s[0]) {
        lemma_trim_start_keeps_last(s.drop_first());
    }
}

} // verus!
