use vstd::prelude::*;
use crate::conflict_rows::DiffLineKind;
use crate::text::{
    char_is_whitespace, chars_to_string, find_chars, find_from, is_ws, str_to_chars, sub_chars,
};

verus! {

/// One line of a unified diff, annotated with its kind and line numbers.
#[derive(Clone, Debug, PartialEq, Eq)]
pub struct AnnotatedDiffLine {
    pub kind: DiffLineKind,
    pub text: String,
    pub old_line: Option<u32>,
    pub new_line: Option<u32>,
}

/// `s` begins with `p`.
pub open spec fn has_prefix(s: Seq<char>, p: Seq<char>) -> bool {
    p.len() <= s.len() && s.take(p.len() as int) == p
}

/// Whether `s` begins with `p`.
pub fn chars_start_with(s: &[char], p: &[char]) -> (r: bool)
    ensures
        r == has_prefix(s@, p@),
{
    if p.len() > s.len() {
        return false;
    }
    let mut i: usize = 0;
    while i < p.len()
        invariant
            i <= p@.len(),
            p@.len() <= s@.len(),
            forall|k: int| 0 <= k < i ==> s@[k] == p@[k],
        decreases p@.len() - i,
    {
        if s[i] != p[i] {
            assert(s@.take(p@.len() as int)[i as int] != p@[i as int]);
            return false;
        }
        i = i + 1;
    }
    assert(s@.take(p@.len() as int) =~= p@);
    true
}

/// The text that opens the header of each file in a multi-file diff.
pub open spec fn git_prefix() -> Seq<char> {
    seq!['d', 'i', 'f', 'f', ' ', '-', '-', 'g', 'i', 't', ' ']
}

fn git_prefix_exec() -> (v: Vec<char>)
    ensures
        v@ == git_prefix(),
{
    let v = vec!['d', 'i', 'f', 'f', ' ', '-', '-', 'g', 'i', 't', ' '];
    assert(v@ =~= git_prefix());
    v
}

/// A line whose text starts a file's section of the diff.
pub open spec fn is_git_text(t: Seq<char>) -> bool {
    has_prefix(t, git_prefix())
}

/// A header line that starts a file's section of the diff.
pub open spec fn is_file_header(l: AnnotatedDiffLine) -> bool {
    l.kind == DiffLineKind::Header && is_git_text(l.text@)
}

/// A line at which a hunk's body ends: the next hunk header or the next file.
pub open spec fn is_boundary(l: AnnotatedDiffLine) -> bool {
    l.kind == DiffLineKind::Hunk || is_git_text(l.text@)
}

fn text_is_git(t: &[char]) -> (r: bool)
    ensures
        r == is_git_text(t@),
{
    let p = git_prefix_exec();
    chars_start_with(t, &p)
}

pub(crate) fn line_is_file_header(l: &AnnotatedDiffLine) -> (r: bool)
    ensures
        r == is_file_header(*l),
{
    match l.kind {
        DiffLineKind::Header => {
            let t = str_to_chars(l.text.as_str());
            text_is_git(&t)
        },
        _ => false,
    }
}

fn line_is_boundary(l: &AnnotatedDiffLine) -> (r: bool)
    ensures
        r == is_boundary(*l),
{
    match l.kind {
        DiffLineKind::Hunk => true,
        _ => {
            let t = str_to_chars(l.text.as_str());
            text_is_git(&t)
        },
    }
}

/// `t` without its first character when that character is `c`.
pub open spec fn strip_lead(t: Seq<char>, c: char) -> Seq<char> {
    if t.len() > 0 && t[0] == c {
        t.drop_first()
    } else {
        t
    }
}

fn strip_lead_exec(t: &[char], c: char) -> (out: Vec<char>)
    ensures
        out@ == strip_lead(t@, c),
{
    if t.len() > 0 && t[0] == c {
        let out = sub_chars(t, 1, t.len());
        assert(out@ =~= t@.drop_first());
        out
    } else {
        sub_chars(t, 0, t.len())
    }
}

/// The content of a diff line: its text without the `+`, `-` or ` ` marker that its kind
/// puts in front; header and hunk lines are shown whole.
pub open spec fn content_text(l: AnnotatedDiffLine) -> Seq<char> {
    match l.kind {
        DiffLineKind::Add => strip_lead(l.text@, '+'),
        DiffLineKind::Remove => strip_lead(l.text@, '-'),
        DiffLineKind::Context => strip_lead(l.text@, ' '),
        _ => l.text@,
    }
}

fn content_chars(line: &AnnotatedDiffLine) -> (out: Vec<char>)
    ensures
        out@ == content_text(*line),
{
    let t = str_to_chars(line.text.as_str());
    match line.kind {
        DiffLineKind::Add => strip_lead_exec(&t, '+'),
        DiffLineKind::Remove => strip_lead_exec(&t, '-'),
        DiffLineKind::Context => strip_lead_exec(&t, ' '),
        _ => t,
    }
}

/// The content of a diff line, without its `+`, `-` or ` ` marker.
pub fn diff_content_text(line: &AnnotatedDiffLine) -> (out: String)
    ensures
        out@ == content_text(*line),
{
    let c = content_chars(line);
    chars_to_string(&c)
}

/// A header line that the unified view hides: `index `, `--- ` and `+++ ` lines.
pub open spec fn hidden_header(l: AnnotatedDiffLine) -> bool {
    l.kind == DiffLineKind::Header && (has_prefix(l.text@, seq!['i', 'n', 'd', 'e', 'x', ' '])
        || has_prefix(l.text@, seq!['-', '-', '-', ' ']) || has_prefix(
        l.text@,
        seq!['+', '+', '+', ' '],
    ))
}

/// Whether the unified diff view hides this header line.
pub fn should_hide_unified_diff_header_line(line: &AnnotatedDiffLine) -> (r: bool)
    ensures
        r == hidden_header(*line),
{
    match line.kind {
        DiffLineKind::Header => {
            let t = str_to_chars(line.text.as_str());
            let p1 = vec!['i', 'n', 'd', 'e', 'x', ' '];
            let p2 = vec!['-', '-', '-', ' '];
            let p3 = vec!['+', '+', '+', ' '];
            assert(p1@ =~= seq!['i', 'n', 'd', 'e', 'x', ' ']);
            assert(p2@ =~= seq!['-', '-', '-', ' ']);
            assert(p3@ =~= seq!['+', '+', '+', ' ']);
            chars_start_with(&t, &p1) || chars_start_with(&t, &p2) || chars_start_with(&t, &p3)
        },
        _ => false,
    }
}

} // verus!

verus! {

/// The number of whitespace characters that `s` starts with.
pub open spec fn ws_run(s: Seq<char>) -> nat
    decreases s.len(),
{
    if s.len() == 0 || !is_ws(s[0]) {
        0
    } else {
        1 + ws_run(s.drop_first())
    }
}

/// The number of non-whitespace characters that `s` starts with.
pub open spec fn word_run(s: Seq<char>) -> nat
    decreases s.len(),
{
    if s.len() == 0 || is_ws(s[0]) {
        0
    } else {
        1 + word_run(s.drop_first())
    }
}

/// `s` without its leading whitespace.
pub open spec fn trim_start(s: Seq<char>) -> Seq<char> {
    s.skip(ws_run(s) as int)
}

/// The first whitespace-separated word of `s` (empty when `s` holds none).
pub open spec fn first_word(s: Seq<char>) -> Seq<char> {
    trim_start(s).take(word_run(trim_start(s)) as int)
}

/// What follows the first whitespace-separated word of `s`.
pub open spec fn after_first_word(s: Seq<char>) -> Seq<char> {
    trim_start(s).skip(word_run(trim_start(s)) as int)
}

/// The number of whitespace characters that `s` ends with.
pub open spec fn ws_tail(s: Seq<char>) -> nat
    decreases s.len(),
{
    if s.len() == 0 || !is_ws(s.last()) {
        0
    } else {
        1 + ws_tail(s.drop_last())
    }
}

/// `s` without leading and trailing whitespace.
pub open spec fn trim(s: Seq<char>) -> Seq<char> {
    let t = trim_start(s);
    t.take(t.len() - ws_tail(t))
}

proof fn lemma_ws_run_bound(s: Seq<char>)
    ensures
        ws_run(s) <= s.len(),
        forall|k: int| 0 <= k < ws_run(s) ==> is_ws(#[trigger] s[k]),
        ws_run(s) < s.len() ==> !is_ws(s[ws_run(s) as int]),
    decreases s.len(),
{
    if s.len() > 0 && is_ws(s[0]) {
        lemma_ws_run_bound(s.drop_first());
        assert forall|k: int| 0 <= k < ws_run(s) implies is_ws(#[trigger] s[k]) by {
            if k > 0 {
                assert(s[k] == s.drop_first()[k - 1]);
            }
        }
    }
}

proof fn lemma_word_run_bound(s: Seq<char>)
    ensures
        word_run(s) <= s.len(),
        forall|k: int| 0 <= k < word_run(s) ==> !is_ws(#[trigger] s[k]),
        word_run(s) < s.len() ==> is_ws(s[word_run(s) as int]),
    decreases s.len(),
{
    if s.len() > 0 && !is_ws(s[0]) {
        lemma_word_run_bound(s.drop_first());
        assert forall|k: int| 0 <= k < word_run(s) implies !is_ws(#[trigger] s[k]) by {
            if k > 0 {
                assert(s[k] == s.drop_first()[k - 1]);
            }
        }
    }
}

proof fn lemma_ws_run_step(s: Seq<char>, i: int)
    requires
        0 <= i < s.len(),
    ensures
        is_ws(s[i]) ==> ws_run(s.skip(i)) == 1 + ws_run(s.skip(i + 1)),
        !is_ws(s[i]) ==> ws_run(s.skip(i)) == 0,
        !is_ws(s[i]) ==> word_run(s.skip(i)) == 1 + word_run(s.skip(i + 1)),
        is_ws(s[i]) ==> word_run(s.skip(i)) == 0,
{
    assert(s.skip(i).drop_first() =~= s.skip(i + 1));
    assert(s.skip(i)[0] == s[i]);
}

/// The index just past the whitespace run that starts at `i`.
fn skip_ws_from(s: &[char], i: usize) -> (j: usize)
    requires
        i <= s@.len(),
    ensures
        j == i + ws_run(s@.skip(i as int)),
        j <= s@.len(),
{
    let mut j = i;
    while j < s.len() && char_is_whitespace(s[j])
        invariant
            i <= j <= s@.len(),
            ws_run(s@.skip(i as int)) == (j - i) + ws_run(s@.skip(j as int)),
        decreases s@.len() - j,
    {
        proof {
            lemma_ws_run_step(s@, j as int);
        }
        j = j + 1;
    }
    proof {
        if j < s.len() {
            lemma_ws_run_step(s@, j as int);
        } else {
            assert(s@.skip(j as int).len() == 0);
        }
    }
    j
}

/// The index just past the word that starts at `i`.
fn skip_word_from(s: &[char], i: usize) -> (j: usize)
    requires
        i <= s@.len(),
    ensures
        j == i + word_run(s@.skip(i as int)),
        j <= s@.len(),
{
    let mut j = i;
    while j < s.len() && !char_is_whitespace(s[j])
        invariant
            i <= j <= s@.len(),
            word_run(s@.skip(i as int)) == (j - i) + word_run(s@.skip(j as int)),
        decreases s@.len() - j,
    {
        proof {
            lemma_ws_run_step(s@, j as int);
        }
        j = j + 1;
    }
    proof {
        if j < s.len() {
            lemma_ws_run_step(s@, j as int);
        } else {
            assert(s@.skip(j as int).len() == 0);
        }
    }
    j
}

/// The bounds `[a, b)` of the first word of `s[i..]`, as indices into `s`.
fn first_word_bounds(s: &[char], i: usize) -> (r: (usize, usize))
    requires
        i <= s@.len(),
    ensures
        i <= r.0 <= r.1 <= s@.len(),
        s@.subrange(r.0 as int, r.1 as int) == first_word(s@.skip(i as int)),
        s@.skip(r.1 as int) == after_first_word(s@.skip(i as int)),
{
    let a = skip_ws_from(s, i);
    let b = skip_word_from(s, a);
    proof {
        let t = s@.skip(i as int);
        assert(trim_start(t) =~= s@.skip(a as int));
        assert(first_word(t) =~= s@.subrange(a as int, b as int));
        assert(after_first_word(t) =~= s@.skip(b as int));
    }
    (a, b)
}

/// The path that a `diff --git a/.. b/..` header names: its second word (or its first when
/// it has one only), without a leading `b/`.
pub open spec fn header_path(t: Seq<char>) -> Option<Seq<char>> {
    if !is_git_text(t) {
        None
    } else {
        let r = t.skip(git_prefix().len() as int);
        let a = first_word(r);
        if a.len() == 0 {
            None
        } else {
            let b0 = first_word(after_first_word(r));
            let b = if b0.len() == 0 {
                a
            } else {
                b0
            };
            Some(
                if has_prefix(b, seq!['b', '/']) {
                    b.skip(2)
                } else {
                    b
                },
            )
        }
    }
}

fn header_path_chars(t: &[char]) -> (r: Option<Vec<char>>)
    ensures
        match r {
            Some(v) => header_path(t@) == Some(v@),
            None => header_path(t@) is None,
        },
{
    if !text_is_git(t) {
        return None;
    }
    let start: usize = 11;
    let (a0, a1) = first_word_bounds(t, start);
    if a0 == a1 {
        return None;
    }
    let (b0, b1) = first_word_bounds(t, a1);
    let (c0, c1) = if b0 == b1 {
        (a0, a1)
    } else {
        (b0, b1)
    };
    let w = sub_chars(t, c0, c1);
    let bp = vec!['b', '/'];
    assert(bp@ =~= seq!['b', '/']);
    proof {
        assert(t@.skip(a1 as int) == after_first_word(t@.skip(11)));
    }
    if chars_start_with(&w, &bp) {
        let out = sub_chars(&w, 2, w.len());
        assert(out@ =~= w@.skip(2));
        Some(out)
    } else {
        Some(w)
    }
}

/// The path named by a `diff --git` header line, if the text is one.
pub fn parse_diff_git_header_path(text: &str) -> (r: Option<String>)
    ensures
        match r {
            Some(s) => header_path(text@) == Some(s@),
            None => header_path(text@) is None,
        },
{
    let t = str_to_chars(text);
    match header_path_chars(&t) {
        Some(v) => Some(chars_to_string(&v)),
        None => None,
    }
}

} // verus!

verus! {

/// The parts of a hunk header `@@ -a,b +c,d @@ heading` shown by the diff view.
#[derive(Clone, Debug, PartialEq, Eq)]
pub struct ParsedHunkHeader {
    pub old: String,
    pub new: String,
    pub heading: Option<String>,
}

/// The view of a parsed hunk header: old range, new range, heading.
pub open spec fn hunk_header_view(h: ParsedHunkHeader) -> (Seq<char>, Seq<char>, Option<Seq<char>>) {
    (
        h.old@,
        h.new@,
        match h.heading {
            Some(s) => Some(s@),
            None => None,
        },
    )
}

/// What a hunk header line holds: after the opening `@@`, the text up to the next `@@`
/// gives the old and the new range as its first two words, and the trimmed rest, when not
/// empty, is the heading.
pub open spec fn hunk_header(t: Seq<char>) -> Option<(Seq<char>, Seq<char>, Option<Seq<char>>)> {
    let at = seq!['@', '@'];
    if !has_prefix(t, at) {
        None
    } else {
        let u = trim_start(t.skip(2));
        match find_from(u, at, 0) {
            None => None,
            Some(p) => {
                let ranges = u.take(p);
                let heading = trim(u.skip(p + 2));
                let old = first_word(ranges);
                let new = first_word(after_first_word(ranges));
                if old.len() == 0 || new.len() == 0 {
                    None
                } else {
                    Some(
                        (
                            old,
                            new,
                            if heading.len() == 0 {
                                None
                            } else {
                                Some(heading)
                            },
                        ),
                    )
                }
            },
        }
    }
}

proof fn lemma_ws_tail_step(s: Seq<char>, j: int)
    requires
        0 < j <= s.len(),
    ensures
        is_ws(s[j - 1]) ==> ws_tail(s.take(j)) == 1 + ws_tail(s.take(j - 1)),
        !is_ws(s[j - 1]) ==> ws_tail(s.take(j)) == 0,
{
    assert(s.take(j).drop_last() =~= s.take(j - 1));
    assert(s.take(j).last() == s[j - 1]);
}

/// The bounds `[a, b)` of `s[i..]` with surrounding whitespace removed.
fn trim_bounds(s: &[char], i: usize) -> (r: (usize, usize))
    requires
        i <= s@.len(),
    ensures
        i <= r.0 <= r.1 <= s@.len(),
        s@.subrange(r.0 as int, r.1 as int) == trim(s@.skip(i as int)),
{
    let a = skip_ws_from(s, i);
    let mut b = s.len();
    proof {
        assert(s@.skip(a as int).take((b - a) as int) =~= s@.skip(a as int));
    }
    while b > a && char_is_whitespace(s[b - 1])
        invariant
            i <= a <= b <= s@.len(),
            ws_tail(s@.skip(a as int)) == (s@.len() - b) + ws_tail(
                s@.skip(a as int).take((b - a) as int),
            ),
        decreases b - a,
    {
        proof {
            lemma_ws_tail_step(s@.skip(a as int), (b - a) as int);
        }
        b = b - 1;
    }
    proof {
        let t = s@.skip(a as int);
        if b > a {
            lemma_ws_tail_step(t, (b - a) as int);
        } else {
            assert(t.take(0).len() == 0);
        }
        assert(trim_start(s@.skip(i as int)) =~= t);
        assert(t.take(t.len() - ws_tail(t)) =~= s@.subrange(a as int, b as int));
    }
    (a, b)
}

/// The ranges and heading of a hunk header line, if the text is one.
pub fn parse_unified_hunk_header_for_display(text: &str) -> (r: Option<ParsedHunkHeader>)
    ensures
        match r {
            Some(h) => hunk_header(text@) == Some(hunk_header_view(h)),
            None => hunk_header(text@) is None,
        },
{
    let t = str_to_chars(text);
    let at = vec!['@', '@'];
    assert(at@ =~= seq!['@', '@']);
    if !chars_start_with(&t, &at) {
        return None;
    }
    let u0 = skip_ws_from(&t, 2);
    let u = sub_chars(&t, u0, t.len());
    proof {
        assert(u@ =~= trim_start(t@.skip(2)));
    }
    let p = match find_chars(&u, &at, 0) {
        Some(p) => p,
        None => {
            return None;
        },
    };
    let ranges = sub_chars(&u, 0, p);
    assert(ranges@ =~= u@.take(p as int));
    let (o0, o1) = first_word_bounds(&ranges, 0);
    let (n0, n1) = first_word_bounds(&ranges, o1);
    let (h0, h1) = trim_bounds(&u, p + 2);
    proof {
        assert(ranges@.skip(0) =~= ranges@);
    }
    if o0 == o1 || n0 == n1 {
        return None;
    }
    let old = chars_to_string(&sub_chars(&ranges, o0, o1));
    let new = chars_to_string(&sub_chars(&ranges, n0, n1));
    let heading = if h0 == h1 {
        None
    } else {
        Some(chars_to_string(&sub_chars(&u, h0, h1)))
    };
    Some(ParsedHunkHeader { old, new, heading })
}

} // verus!

verus! {

/// The index of the first file header at or after `i`, or the length of the diff.
pub open spec fn next_file_header(d: Seq<AnnotatedDiffLine>, i: int) -> int
    decreases d.len() - i,
{
    if i >= d.len() {
        d.len() as int
    } else if is_file_header(d[i]) {
        i
    } else {
        next_file_header(d, i + 1)
    }
}

/// The number of lines of kind `k` in `d[a..b]`.
pub open spec fn count_kind(d: Seq<AnnotatedDiffLine>, a: int, b: int, k: DiffLineKind) -> nat
    decreases b - a,
{
    if b <= a {
        0
    } else {
        count_kind(d, a, b - 1, k) + if d[b - 1].kind == k {
            1nat
        } else {
            0nat
        }
    }
}

/// For a file header at `ix`: the added and removed lines of that file's section.
pub open spec fn file_stat(d: Seq<AnnotatedDiffLine>, ix: int) -> Option<(usize, usize)> {
    if is_file_header(d[ix]) {
        let end = next_file_header(d, ix + 1);
        Some(
            (
                count_kind(d, ix + 1, end, DiffLineKind::Add) as usize,
                count_kind(d, ix + 1, end, DiffLineKind::Remove) as usize,
            ),
        )
    } else {
        None
    }
}

proof fn lemma_count_kind_le(d: Seq<AnnotatedDiffLine>, a: int, b: int, k: DiffLineKind)
    ensures
        count_kind(d, a, b, k) <= if b > a {
            b - a
        } else {
            0
        },
    decreases b - a,
{
    if b > a {
        lemma_count_kind_le(d, a, b - 1, k);
    }
}

proof fn lemma_next_file_header_skip(d: Seq<AnnotatedDiffLine>, a: int, b: int)
    requires
        0 <= a <= b,
        forall|j: int| a <= j < b && 0 <= j < d.len() ==> !is_file_header(#[trigger] d[j]),
    ensures
        next_file_header(d, a) == next_file_header(d, b),
    decreases b - a,
{
    if a < b && a < d.len() {
        lemma_next_file_header_skip(d, a + 1, b);
    } else if a < b {
        assert(next_file_header(d, a) == d.len());
        assert(next_file_header(d, b) == d.len());
    }
}

/// For each line: at a file header, how many lines that file adds and removes; elsewhere
/// `None`.
pub fn compute_diff_file_stats(diff: &[AnnotatedDiffLine]) -> (stats: Vec<Option<(usize, usize)>>)
    ensures
        stats@.len() == diff@.len(),
        forall|ix: int| 0 <= ix < diff@.len() ==> #[trigger] stats@[ix] == file_stat(diff@, ix),
{
    let n = diff.len();
    let mut stats: Vec<Option<(usize, usize)>> = Vec::new();
    let mut k: usize = 0;
    while k < n
        invariant
            k <= n,
            n == diff@.len(),
            stats@.len() == k,
            forall|j: int| 0 <= j < k ==> stats@[j] is None,
        decreases n - k,
    {
        stats.push(None);
        k = k + 1;
    }
    let mut current: Option<usize> = None;
    let mut adds: usize = 0;
    let mut removes: usize = 0;
    let mut ix: usize = 0;
    while ix < n
        invariant
            ix <= n,
            n == diff@.len(),
            stats@.len() == n,
            forall|j: int|
                0 <= j < ix && current != Some(j as usize) ==> #[trigger] stats@[j] == file_stat(
                    diff@,
                    j,
                ),
            forall|j: int| ix <= j < n ==> #[trigger] stats@[j] is None,
            match current {
                Some(h) => {
                    &&& h < ix
                    &&& is_file_header(diff@[h as int])
                    &&& forall|j: int| h < j < ix ==> !is_file_header(#[trigger] diff@[j])
                    &&& adds == count_kind(diff@, h + 1, ix as int, DiffLineKind::Add)
                    &&& removes == count_kind(diff@, h + 1, ix as int, DiffLineKind::Remove)
                },
                None => forall|j: int| 0 <= j < ix ==> !is_file_header(#[trigger] diff@[j]),
            },
        decreases n - ix,
    {
        let line = &diff[ix];
        if line_is_file_header(line) {
            if let Some(h) = current {
                proof {
                    lemma_next_file_header_skip(diff@, h + 1, ix as int);
                }
                stats.set(h, Some((adds, removes)));
            }
            current = Some(ix);
            adds = 0;
            removes = 0;
        } else {
            proof {
                if let Some(h) = current {
                    lemma_count_kind_le(diff@, h + 1, ix as int, DiffLineKind::Add);
                    lemma_count_kind_le(diff@, h + 1, ix as int, DiffLineKind::Remove);
                }
            }
            match line.kind {
                DiffLineKind::Add => {
                    if current.is_some() {
                        adds = adds + 1;
                    }
                },
                DiffLineKind::Remove => {
                    if current.is_some() {
                        removes = removes + 1;
                    }
                },
                _ => {},
            }
        }
        ix = ix + 1;
    }
    if let Some(h) = current {
        proof {
            lemma_next_file_header_skip(diff@, h + 1, n as int);
        }
        stats.set(h, Some((adds, removes)));
    }
    stats
}

/// The index of the last file header before `i`, if any.
pub open spec fn last_file_header_before(d: Seq<AnnotatedDiffLine>, i: int) -> Option<int>
    decreases i,
{
    if i <= 0 {
        None
    } else if is_file_header(d[i - 1]) {
        Some(i - 1)
    } else {
        last_file_header_before(d, i - 1)
    }
}

/// The path of the file that line `ix` belongs to: the one named by the last file header at
/// or before it.
pub open spec fn file_of_line(d: Seq<AnnotatedDiffLine>, ix: int) -> Option<Seq<char>> {
    match last_file_header_before(d, ix + 1) {
        Some(h) => header_path(d[h].text@),
        None => None,
    }
}

/// The text of an optional string.
pub open spec fn opt_chars(o: Option<String>) -> Option<Seq<char>> {
    match o {
        Some(s) => Some(s@),
        None => None,
    }
}

/// For each line, the path of the file whose section holds it.
pub fn compute_diff_file_for_src_ix(diff: &[AnnotatedDiffLine]) -> (out: Vec<Option<String>>)
    ensures
        out@.len() == diff@.len(),
        forall|ix: int|
            0 <= ix < diff@.len() ==> #[trigger] opt_chars(out@[ix]) == file_of_line(diff@, ix),
{
    let mut out: Vec<Option<String>> = Vec::new();
    let mut current: Option<String> = None;
    let mut ix: usize = 0;
    while ix < diff.len()
        invariant
            ix <= diff@.len(),
            out@.len() == ix,
            forall|j: int| 0 <= j < ix ==> #[trigger] opt_chars(out@[j]) == file_of_line(diff@, j),
            ix > 0 ==> opt_chars(current) == file_of_line(diff@, ix - 1),
            ix == 0 ==> current is None,
        decreases diff@.len() - ix,
    {
        let line = &diff[ix];
        if line_is_file_header(line) {
            current = parse_diff_git_header_path(line.text.as_str());
        }
        let c = match &current {
            Some(s) => Some(s.clone()),
            None => None,
        };
        out.push(c);
        ix = ix + 1;
    }
    out
}

/// Scanning up from `i`: the first hunk header met before a file header, if any.
pub open spec fn hunk_above(d: Seq<AnnotatedDiffLine>, i: int) -> Option<int>
    decreases i + 1,
{
    if i < 0 {
        None
    } else if is_file_header(d[i]) {
        None
    } else if d[i].kind == DiffLineKind::Hunk {
        Some(i)
    } else {
        hunk_above(d, i - 1)
    }
}

/// The hunk whose body holds line `src_ix` (an index past the end counts as the last line).
pub open spec fn enclosing_hunk(d: Seq<AnnotatedDiffLine>, src_ix: int) -> Option<int> {
    if d.len() == 0 {
        None
    } else {
        hunk_above(
            d,
            if src_ix < d.len() {
                src_ix
            } else {
                d.len() - 1
            },
        )
    }
}

/// The index of the hunk header whose hunk holds line `src_ix`, if it lies in a hunk.
pub fn enclosing_hunk_src_ix(diff: &[AnnotatedDiffLine], src_ix: usize) -> (r: Option<usize>)
    ensures
        r == match enclosing_hunk(diff@, src_ix as int) {
            Some(h) => Some(h as usize),
            None => None::<usize>,
        },
        r matches Some(h) ==> h <= src_ix && h < diff@.len() && diff@[h as int].kind
            == DiffLineKind::Hunk,
{
    if diff.len() == 0 {
        return None;
    }
    let start = if src_ix < diff.len() {
        src_ix
    } else {
        diff.len() - 1
    };
    let mut i: usize = start;
    loop
        invariant
            i <= start < diff@.len(),
            start <= src_ix,
            enclosing_hunk(diff@, src_ix as int) == hunk_above(diff@, i as int),
        decreases i,
    {
        let line = &diff[i];
        if line_is_file_header(line) {
            return None;
        }
        if line.kind == DiffLineKind::Hunk {
            return Some(i);
        }
        assert(hunk_above(diff@, i as int) == hunk_above(diff@, i - 1));
        if i == 0 {
            assert(hunk_above(diff@, -1) is None);
            return None;
        }
        i = i - 1;
    }
}

} // verus!

verus! {

/// The index of the last line at or before `i` whose text starts a file section, if any.
pub open spec fn last_git_line(d: Seq<AnnotatedDiffLine>, i: int) -> Option<int>
    decreases i + 1,
{
    if i < 0 {
        None
    } else if is_git_text(d[i].text@) {
        Some(i)
    } else {
        last_git_line(d, i - 1)
    }
}

/// The index of the first boundary line at or after `i`, or the length of the diff.
pub open spec fn next_boundary(d: Seq<AnnotatedDiffLine>, i: int) -> int
    decreases d.len() - i,
{
    if i >= d.len() {
        d.len() as int
    } else if is_boundary(d[i]) {
        i
    } else {
        next_boundary(d, i + 1)
    }
}

/// The lines `d[a..b]`, each followed by a newline.
pub open spec fn lines_text(d: Seq<AnnotatedDiffLine>, a: int, b: int) -> Seq<char>
    decreases b - a,
{
    if b <= a {
        Seq::empty()
    } else {
        lines_text(d, a, b - 1) + d[b - 1].text@.push('\n')
    }
}

/// Every character of `s` is whitespace.
pub open spec fn all_ws(s: Seq<char>) -> bool {
    forall|k: int| 0 <= k < s.len() ==> is_ws(#[trigger] s[k])
}

/// `s`, unless it is blank.
pub open spec fn unless_blank(s: Seq<char>) -> Option<Seq<char>> {
    if all_ws(s) {
        None
    } else {
        Some(s)
    }
}

/// The smaller of two integers.
pub open spec fn min_int(a: int, b: int) -> int {
    if a <= b {
        a
    } else {
        b
    }
}

/// The file header lines that precede hunk `h`: from the line that starts its file up to
/// that file's first hunk (or `h`).
pub open spec fn file_header_text(d: Seq<AnnotatedDiffLine>, fs: int, h: int) -> Seq<char> {
    lines_text(d, fs, min_int(next_boundary(d, fs + 1), h))
}

/// The patch that applies hunk `h` alone: its file's header lines, then the hunk. `None`
/// when `h` is no hunk header, no file line precedes it, or the patch is blank.
pub open spec fn hunk_patch(d: Seq<AnnotatedDiffLine>, h: int) -> Option<Seq<char>> {
    if !(0 <= h < d.len()) || d[h].kind != DiffLineKind::Hunk {
        None
    } else {
        match last_git_line(d, h) {
            None => None,
            Some(fs) => unless_blank(
                file_header_text(d, fs, h) + lines_text(d, h, next_boundary(d, h + 1)),
            ),
        }
    }
}

fn last_git_line_exec(diff: &[AnnotatedDiffLine], i: usize) -> (r: Option<usize>)
    requires
        i < diff@.len(),
    ensures
        match r {
            Some(j) => last_git_line(diff@, i as int) == Some(j as int) && j <= i,
            None => last_git_line(diff@, i as int) is None,
        },
{
    let mut k: usize = i;
    loop
        invariant
            k <= i < diff@.len(),
            last_git_line(diff@, i as int) == last_git_line(diff@, k as int),
        decreases k,
    {
        let t = str_to_chars(diff[k].text.as_str());
        if text_is_git(&t) {
            return Some(k);
        }
        assert(last_git_line(diff@, k as int) == last_git_line(diff@, k - 1));
        if k == 0 {
            assert(last_git_line(diff@, -1) is None);
            return None;
        }
        k = k - 1;
    }
}

fn next_boundary_exec(diff: &[AnnotatedDiffLine], i: usize) -> (r: usize)
    requires
        i <= diff@.len(),
    ensures
        r == next_boundary(diff@, i as int),
        i <= r <= diff@.len(),
{
    let mut k: usize = i;
    while k < diff.len() && !line_is_boundary(&diff[k])
        invariant
            i <= k <= diff@.len(),
            next_boundary(diff@, i as int) == next_boundary(diff@, k as int),
        decreases diff@.len() - k,
    {
        k = k + 1;
    }
    k
}

/// Appends the lines `diff[a..b]` to `out`, each followed by a newline.
fn push_lines(diff: &[AnnotatedDiffLine], a: usize, b: usize, out: &mut Vec<char>)
    requires
        a <= b <= diff@.len(),
    ensures
        final(out)@ == old(out)@ + lines_text(diff@, a as int, b as int),
{
    let ghost o0 = out@;
    let mut k: usize = a;
    while k < b
        invariant
            a <= k <= b <= diff@.len(),
            out@ == o0 + lines_text(diff@, a as int, k as int),
        decreases b - k,
    {
        let t = str_to_chars(diff[k].text.as_str());
        crate::text::extend_chars(out, &t);
        out.push('\n');
        assert(lines_text(diff@, a as int, k + 1) == lines_text(diff@, a as int, k as int)
            + diff@[k as int].text@.push('\n'));
        assert(out@ =~= o0 + lines_text(diff@, a as int, k + 1));
        k = k + 1;
    }
}

/// Whether every character of `s` is whitespace.
fn is_blank(s: &[char]) -> (r: bool)
    ensures
        r == all_ws(s@),
{
    let mut k: usize = 0;
    while k < s.len()
        invariant
            k <= s@.len(),
            forall|j: int| 0 <= j < k ==> is_ws(#[trigger] s@[j]),
        decreases s@.len() - k,
    {
        if !char_is_whitespace(s[k]) {
            return false;
        }
        k = k + 1;
    }
    true
}

fn opt_string(o: Option<Vec<char>>) -> (r: Option<String>)
    ensures
        opt_chars(r) == match o {
            Some(v) => Some(v@),
            None => None::<Seq<char>>,
        },
{
    match o {
        Some(v) => Some(chars_to_string(&v)),
        None => None,
    }
}

fn hunk_patch_chars(diff: &[AnnotatedDiffLine], h: usize) -> (r: Option<Vec<char>>)
    ensures
        match r {
            Some(v) => hunk_patch(diff@, h as int) == Some(v@),
            None => hunk_patch(diff@, h as int) is None,
        },
{
    if h >= diff.len() || diff[h].kind != DiffLineKind::Hunk {
        return None;
    }
    let fs = match last_git_line_exec(diff, h) {
        Some(fs) => fs,
        None => {
            return None;
        },
    };
    let first_hunk = next_boundary_exec(diff, fs + 1);
    let header_end = if first_hunk < h {
        first_hunk
    } else {
        h
    };
    let hunk_end = next_boundary_exec(diff, h + 1);
    let mut out: Vec<char> = Vec::new();
    push_lines(diff, fs, header_end, &mut out);
    push_lines(diff, h, hunk_end, &mut out);
    assert(out@ =~= file_header_text(diff@, fs as int, h as int) + lines_text(
        diff@,
        h as int,
        next_boundary(diff@, h + 1),
    ));
    assert(last_git_line(diff@, h as int) == Some(fs as int));
    assert(hunk_patch(diff@, h as int) == unless_blank(out@));
    if is_blank(&out) {
        None
    } else {
        Some(out)
    }
}

/// The patch that applies the one hunk whose header is line `hunk_src_ix`.
pub fn build_unified_patch_for_hunk(diff: &[AnnotatedDiffLine], hunk_src_ix: usize) -> (r: Option<
    String,
>)
    ensures
        opt_chars(r) == hunk_patch(diff@, hunk_src_ix as int),
{
    opt_string(hunk_patch_chars(diff, hunk_src_ix))
}

/// The patches of the hunks among `ixs` whose header lies before `n`, in the order of the
/// diff, each once.
pub open spec fn hunks_text(d: Seq<AnnotatedDiffLine>, ixs: Seq<usize>, n: int) -> Seq<char>
    decreases n,
{
    if n <= 0 {
        Seq::empty()
    } else {
        hunks_text(d, ixs, n - 1) + if ixs.contains((n - 1) as usize) {
            match hunk_patch(d, n - 1) {
                Some(p) => p,
                None => Seq::empty(),
            }
        } else {
            Seq::empty()
        }
    }
}

/// The patch that applies the listed hunks: their patches in the order of the diff, each
/// hunk once; `None` when the list is empty or nothing applicable remains.
pub open spec fn hunks_patch(d: Seq<AnnotatedDiffLine>, ixs: Seq<usize>) -> Option<Seq<char>> {
    if ixs.len() == 0 {
        None
    } else {
        unless_blank(hunks_text(d, ixs, d.len() as int))
    }
}

/// Whether each line index occurs among `ixs`.
fn index_mask(ixs: &[usize], n: usize) -> (mask: Vec<bool>)
    ensures
        mask@.len() == n,
        forall|j: int| 0 <= j < n ==> #[trigger] mask@[j] == ixs@.contains(j as usize),
{
    let mut mask: Vec<bool> = Vec::new();
    let mut j: usize = 0;
    while j < n
        invariant
            j <= n,
            mask@.len() == j,
            forall|q: int| 0 <= q < j ==> !#[trigger] mask@[q],
        decreases n - j,
    {
        mask.push(false);
        j = j + 1;
    }
    let mut k: usize = 0;
    while k < ixs.len()
        invariant
            k <= ixs@.len(),
            mask@.len() == n,
            forall|q: int|
                0 <= q < n ==> #[trigger] mask@[q] == exists|p: int|
                    0 <= p < k && ixs@[p] == q as usize,
        decreases ixs@.len() - k,
    {
        let x = ixs[k];
        if x < n {
            mask.set(x, true);
        }
        assert forall|q: int| 0 <= q < n implies #[trigger] mask@[q] == exists|p: int|
            0 <= p < k + 1 && ixs@[p] == q as usize by {
            if q == x as int {
                assert(ixs@[k as int] == q as usize);
            }
            if exists|p: int| 0 <= p < k + 1 && ixs@[p] == q as usize {
                let p = choose|p: int| 0 <= p < k + 1 && ixs@[p] == q as usize;
                if p < k {
                } else {
                    assert(q == x as int);
                }
            }
        }
        k = k + 1;
    }
    assert forall|q: int| 0 <= q < n implies #[trigger] mask@[q] == ixs@.contains(q as usize) by {
        if ixs@.contains(q as usize) {
            let p = choose|p: int| 0 <= p < ixs@.len() && ixs@[p] == q as usize;
            assert(0 <= p < ixs@.len() && ixs@[p] == q as usize);
        }
    }
    mask
}

/// The patch that applies the hunks whose headers are the lines `hunk_src_ixs`.
pub fn build_unified_patch_for_hunks(diff: &[AnnotatedDiffLine], hunk_src_ixs: &[usize]) -> (r:
    Option<String>)
    ensures
        opt_chars(r) == hunks_patch(diff@, hunk_src_ixs@),
{
    if hunk_src_ixs.len() == 0 {
        return None;
    }
    let n = diff.len();
    let mask = index_mask(hunk_src_ixs, n);
    let mut out: Vec<char> = Vec::new();
    let mut h: usize = 0;
    while h < n
        invariant
            h <= n,
            n == diff@.len(),
            mask@.len() == n,
            forall|j: int| 0 <= j < n ==> #[trigger] mask@[j] == hunk_src_ixs@.contains(j as usize),
            out@ == hunks_text(diff@, hunk_src_ixs@, h as int),
        decreases n - h,
    {
        assert(mask@[h as int] == hunk_src_ixs@.contains(h as usize));
        if mask[h] {
            match hunk_patch_chars(diff, h) {
                Some(p) => {
                    crate::text::extend_chars(&mut out, &p);
                },
                None => {},
            }
        }
        assert(out@ =~= hunks_text(diff@, hunk_src_ixs@, h + 1));
        h = h + 1;
    }
    if is_blank(&out) {
        None
    } else {
        Some(chars_to_string(&out))
    }
}

} // verus!

verus! {

/// A `\ No newline at end of file` marker line.
pub open spec fn is_eof_marker(t: Seq<char>) -> bool {
    t.len() > 0 && t[0] == '\\'
}

/// What one body line of a hunk contributes to a patch of selected lines, and whether the
/// line that follows it counts as kept. An unselected change becomes context when it is
/// still in the file the patch applies to (a removed line when staging, an added line when
/// discarding from the worktree) and is dropped otherwise; an end-of-file marker follows
/// the line before it.
pub open spec fn selection_step(
    l: AnnotatedDiffLine,
    selected: bool,
    prev_kept: bool,
    discard: bool,
) -> (Seq<char>, bool) {
    let t = l.text@;
    if is_eof_marker(t) {
        (
            if prev_kept {
                t.push('\n')
            } else {
                Seq::empty()
            },
            prev_kept,
        )
    } else {
        match l.kind {
            DiffLineKind::Add => if selected {
                (t.push('\n'), true)
            } else if discard {
                (seq![' '] + strip_lead(t, '+').push('\n'), true)
            } else {
                (Seq::empty(), false)
            },
            DiffLineKind::Remove => if selected {
                (t.push('\n'), true)
            } else if discard {
                (Seq::empty(), false)
            } else {
                (seq![' '] + strip_lead(t, '-').push('\n'), true)
            },
            _ => (t.push('\n'), true),
        }
    }
}

/// A selected added or removed line (end-of-file markers aside).
pub open spec fn selected_change(l: AnnotatedDiffLine, selected: bool) -> bool {
    !is_eof_marker(l.text@) && (l.kind == DiffLineKind::Add || l.kind == DiffLineKind::Remove)
        && selected
}

/// The body lines `d[a..k]` of a hunk as a patch of the lines that `mask` selects: the text,
/// whether the last line counts as kept, and whether a selected change occurs.
pub open spec fn selection_run(
    d: Seq<AnnotatedDiffLine>,
    mask: Seq<bool>,
    a: int,
    k: int,
    discard: bool,
) -> (Seq<char>, bool, bool)
    decreases k - a,
{
    if k <= a {
        (Seq::empty(), false, false)
    } else {
        let prev = selection_run(d, mask, a, k - 1, discard);
        let step = selection_step(d[k - 1], mask[k - 1], prev.1, discard);
        (prev.0 + step.0, step.1, prev.2 || selected_change(d[k - 1], mask[k - 1]))
    }
}

/// The patch that applies, of hunk `h`, only the changes that `mask` selects: the file's
/// header lines, the hunk header, and the body as `selection_run` gives it. `None` when `h`
/// is no hunk header, no file line precedes it, or no selected change lies in the hunk.
pub open spec fn selection_patch(
    d: Seq<AnnotatedDiffLine>,
    h: int,
    mask: Seq<bool>,
    discard: bool,
) -> Option<Seq<char>> {
    if !(0 <= h < d.len()) || d[h].kind != DiffLineKind::Hunk {
        None
    } else {
        match last_git_line(d, h) {
            None => None,
            Some(fs) => {
                let run = selection_run(d, mask, h + 1, next_boundary(d, h + 1), discard);
                if run.2 {
                    Some(file_header_text(d, fs, h) + d[h].text@.push('\n') + run.0)
                } else {
                    None
                }
            },
        }
    }
}

/// Appends what one hunk body line contributes to a patch of selected lines; returns whether
/// the line counts as kept.
fn push_selection_line(
    line: &AnnotatedDiffLine,
    sel: bool,
    prev_included: bool,
    discard: bool,
    out: &mut Vec<char>,
) -> (kept: bool)
    ensures
        final(out)@ == old(out)@ + selection_step(*line, sel, prev_included, discard).0,
        kept == selection_step(*line, sel, prev_included, discard).1,
{
    let ghost o0 = out@;
    let t = str_to_chars(line.text.as_str());
    if t.len() > 0 && t[0] == '\\' {
        if prev_included {
            crate::text::extend_chars(out, &t);
            out.push('\n');
        }
        assert(out@ =~= o0 + selection_step(*line, sel, prev_included, discard).0);
        return prev_included;
    }
    let kept = match line.kind {
        DiffLineKind::Add => {
            if sel {
                crate::text::extend_chars(out, &t);
                out.push('\n');
                true
            } else if discard {
                let c = strip_lead_exec(&t, '+');
                out.push(' ');
                crate::text::extend_chars(out, &c);
                out.push('\n');
                true
            } else {
                false
            }
        },
        DiffLineKind::Remove => {
            if sel {
                crate::text::extend_chars(out, &t);
                out.push('\n');
                true
            } else if discard {
                false
            } else {
                let c = strip_lead_exec(&t, '-');
                out.push(' ');
                crate::text::extend_chars(out, &c);
                out.push('\n');
                true
            }
        },
        _ => {
            crate::text::extend_chars(out, &t);
            out.push('\n');
            true
        },
    };
    assert(out@ =~= o0 + selection_step(*line, sel, prev_included, discard).0);
    kept
}

fn line_is_selected_change(line: &AnnotatedDiffLine, sel: bool) -> (r: bool)
    ensures
        r == selected_change(*line, sel),
{
    let t = str_to_chars(line.text.as_str());
    let marker = t.len() > 0 && t[0] == '\\';
    let change = match line.kind {
        DiffLineKind::Add => true,
        DiffLineKind::Remove => true,
        _ => false,
    };
    !marker && change && sel
}

fn selection_patch_chars(
    diff: &[AnnotatedDiffLine],
    h: usize,
    mask: &[bool],
    discard: bool,
) -> (r: Option<Vec<char>>)
    requires
        mask@.len() == diff@.len(),
    ensures
        match r {
            Some(v) => selection_patch(diff@, h as int, mask@, discard) == Some(v@),
            None => selection_patch(diff@, h as int, mask@, discard) is None,
        },
{
    if h >= diff.len() || diff[h].kind != DiffLineKind::Hunk {
        return None;
    }
    let fs = match last_git_line_exec(diff, h) {
        Some(fs) => fs,
        None => {
            return None;
        },
    };
    let first_hunk = next_boundary_exec(diff, fs + 1);
    let header_end = if first_hunk < h {
        first_hunk
    } else {
        h
    };
    let hunk_end = next_boundary_exec(diff, h + 1);
    let mut out: Vec<char> = Vec::new();
    push_lines(diff, fs, header_end, &mut out);
    let ht = str_to_chars(diff[h].text.as_str());
    crate::text::extend_chars(&mut out, &ht);
    out.push('\n');
    let ghost head = out@;
    assert(head =~= file_header_text(diff@, fs as int, h as int) + diff@[h as int].text@.push(
        '\n',
    ));
    let mut has_change = false;
    let mut prev_included = false;
    let mut ix: usize = h + 1;
    while ix < hunk_end
        invariant
            h + 1 <= ix <= hunk_end <= diff@.len(),
            mask@.len() == diff@.len(),
            out@ == head + selection_run(diff@, mask@, h + 1, ix as int, discard).0,
            prev_included == selection_run(diff@, mask@, h + 1, ix as int, discard).1,
            has_change == selection_run(diff@, mask@, h + 1, ix as int, discard).2,
        decreases hunk_end - ix,
    {
        let line = &diff[ix];
        let sel = mask[ix];
        let ghost o_before = out@;
        let ghost step = selection_step(diff@[ix as int], sel, prev_included, discard);
        let changed = line_is_selected_change(line, sel);
        prev_included = push_selection_line(line, sel, prev_included, discard, &mut out);
        has_change = has_change || changed;
        assert(out@ =~= o_before + step.0);
        ix = ix + 1;
    }
    assert(selection_patch(diff@, h as int, mask@, discard) == if has_change {
        Some(out@)
    } else {
        None
    }) by {
        assert(last_git_line(diff@, h as int) == Some(fs as int));
    }
    if has_change {
        Some(out)
    } else {
        None
    }
}

/// Whether each line index belongs to `set`.
pub open spec fn set_mask(set: Set<usize>, n: nat) -> Seq<bool> {
    Seq::new(n, |i: int| set.contains(i as usize))
}

fn hash_set_mask(selected: &std::collections::HashSet<usize>, n: usize) -> (mask: Vec<bool>)
    ensures
        mask@ == set_mask(selected@, n as nat),
{
    broadcast use vstd::std_specs::hash::group_hash_axioms;

    let mut mask: Vec<bool> = Vec::new();
    let mut j: usize = 0;
    while j < n
        invariant
            j <= n,
            mask@.len() == j,
            forall|q: int| 0 <= q < j ==> #[trigger] mask@[q] == selected@.contains(q as usize),
        decreases n - j,
    {
        let c = selected.contains(&j);
        mask.push(c);
        j = j + 1;
    }
    assert(mask@ =~= set_mask(selected@, n as nat));
    mask
}

/// The patch that stages, of hunk `h`, only the selected changed lines: `None` when nothing
/// is selected.
pub open spec fn hunk_selection_patch(
    d: Seq<AnnotatedDiffLine>,
    h: int,
    selected: Set<usize>,
    discard: bool,
) -> Option<Seq<char>> {
    if selected.is_empty() {
        None
    } else {
        selection_patch(d, h, set_mask(selected, d.len()), discard)
    }
}

/// The patch that stages the selected added and removed lines of one hunk; unselected
/// removals stay as context and unselected additions are left out.
pub fn build_unified_patch_for_hunk_selection(
    diff: &[AnnotatedDiffLine],
    hunk_src_ix: usize,
    selected_src_ixs: &std::collections::HashSet<usize>,
) -> (r: Option<String>)
    ensures
        opt_chars(r) == hunk_selection_patch(diff@, hunk_src_ix as int, selected_src_ixs@, false),
{
    if selected_src_ixs.is_empty() {
        return None;
    }
    let mask = hash_set_mask(selected_src_ixs, diff.len());
    opt_string(selection_patch_chars(diff, hunk_src_ix, &mask, false))
}

/// The patch that discards the selected added and removed lines of one hunk from the
/// worktree; unselected additions stay as context and unselected removals are left out.
pub fn build_unified_patch_for_hunk_selection_for_worktree_discard(
    diff: &[AnnotatedDiffLine],
    hunk_src_ix: usize,
    selected_src_ixs: &std::collections::HashSet<usize>,
) -> (r: Option<String>)
    ensures
        opt_chars(r) == hunk_selection_patch(diff@, hunk_src_ix as int, selected_src_ixs@, true),
{
    if selected_src_ixs.is_empty() {
        return None;
    }
    let mask = hash_set_mask(selected_src_ixs, diff.len());
    opt_string(selection_patch_chars(diff, hunk_src_ix, &mask, true))
}

} // verus!

verus! {

/// Line `j` is a selected added or removed line inside hunk `h`.
pub open spec fn grouped_under(d: Seq<AnnotatedDiffLine>, selected: Set<usize>, j: int, h: int) -> bool {
    &&& 0 <= j < d.len()
    &&& selected.contains(j as usize)
    &&& (d[j].kind == DiffLineKind::Add || d[j].kind == DiffLineKind::Remove)
    &&& enclosing_hunk(d, j) == Some(h)
}

/// The selected changed lines of hunk `h`, as a mask over the lines.
pub open spec fn group_mask(d: Seq<AnnotatedDiffLine>, selected: Set<usize>, h: int) -> Seq<bool> {
    Seq::new(d.len(), |j: int| grouped_under(d, selected, j, h))
}

/// The selection patches of the hunks before `n` that hold a selected change, in order.
pub open spec fn across_text(
    d: Seq<AnnotatedDiffLine>,
    selected: Set<usize>,
    n: int,
    discard: bool,
) -> Seq<char>
    decreases n,
{
    if n <= 0 {
        Seq::empty()
    } else {
        across_text(d, selected, n - 1, discard) + if exists|j: int|
            #[trigger] grouped_under(d, selected, j, n - 1) {
            match selection_patch(d, n - 1, group_mask(d, selected, n - 1), discard) {
                Some(p) => p,
                None => Seq::empty(),
            }
        } else {
            Seq::empty()
        }
    }
}

/// The patch of the selected added and removed lines over all hunks and files: each hunk
/// that holds a selected change contributes its selection patch, in the order of the diff.
/// `None` when nothing is selected or the result is blank.
pub open spec fn across_hunks_patch(
    d: Seq<AnnotatedDiffLine>,
    selected: Set<usize>,
    discard: bool,
) -> Option<Seq<char>> {
    if selected.is_empty() {
        None
    } else {
        unless_blank(across_text(d, selected, d.len() as int, discard))
    }
}

/// The hunk that a selected changed line `j` is grouped under.
pub open spec fn group_of(d: Seq<AnnotatedDiffLine>, sel: Seq<bool>, j: int) -> Option<usize> {
    if sel[j] && (d[j].kind == DiffLineKind::Add || d[j].kind == DiffLineKind::Remove) {
        match enclosing_hunk(d, j) {
            Some(h) => Some(h as usize),
            None => None,
        }
    } else {
        None
    }
}

proof fn lemma_hunk_above_range(d: Seq<AnnotatedDiffLine>, i: int)
    ensures
        hunk_above(d, i) matches Some(h) ==> 0 <= h <= i,
    decreases i + 1,
{
    if i >= 0 {
        lemma_hunk_above_range(d, i - 1);
    }
}

/// For each line: the hunk it is grouped under when it is a selected change.
fn selection_groups(diff: &[AnnotatedDiffLine], sel: &[bool]) -> (cand: Vec<Option<usize>>)
    requires
        sel@.len() == diff@.len(),
    ensures
        cand@.len() == diff@.len(),
        forall|j: int| 0 <= j < diff@.len() ==> #[trigger] cand@[j] == group_of(diff@, sel@, j),
{
    let n = diff.len();
    let mut cand: Vec<Option<usize>> = Vec::new();
    let mut j: usize = 0;
    while j < n
        invariant
            j <= n,
            n == diff@.len(),
            sel@.len() == n,
            cand@.len() == j,
            forall|q: int| 0 <= q < j ==> #[trigger] cand@[q] == group_of(diff@, sel@, q),
        decreases n - j,
    {
        let change = match diff[j].kind {
            DiffLineKind::Add => true,
            DiffLineKind::Remove => true,
            _ => false,
        };
        let c = if sel[j] && change {
            enclosing_hunk_src_ix(diff, j)
        } else {
            None
        };
        cand.push(c);
        j = j + 1;
    }
    cand
}

fn across_hunks_chars(
    diff: &[AnnotatedDiffLine],
    selected: &std::collections::HashSet<usize>,
    discard: bool,
) -> (r: Option<Vec<char>>)
    ensures
        match r {
            Some(v) => across_hunks_patch(diff@, selected@, discard) == Some(v@),
            None => across_hunks_patch(diff@, selected@, discard) is None,
        },
{
    if selected.is_empty() {
        return None;
    }
    let n = diff.len();
    let sel = hash_set_mask(selected, n);
    let cand = selection_groups(diff, &sel);
    let mut out: Vec<char> = Vec::new();
    let mut h: usize = 0;
    while h < n
        invariant
            h <= n,
            n == diff@.len(),
            sel@ == set_mask(selected@, n as nat),
            cand@.len() == n,
            forall|j: int| 0 <= j < n ==> #[trigger] cand@[j] == group_of(diff@, sel@, j),
            out@ == across_text(diff@, selected@, h as int, discard),
        decreases n - h,
    {
        let mut mask: Vec<bool> = Vec::new();
        let mut any = false;
        let mut j: usize = 0;
        while j < n
            invariant
                j <= n,
                h < n,
                n == diff@.len(),
                sel@ == set_mask(selected@, n as nat),
                cand@.len() == n,
                forall|q: int| 0 <= q < n ==> #[trigger] cand@[q] == group_of(diff@, sel@, q),
                mask@.len() == j,
                forall|q: int| 0 <= q < j ==> #[trigger] mask@[q] == grouped_under(diff@, selected@, q, h as int),
                any == exists|q: int| 0 <= q < j && #[trigger] grouped_under(diff@, selected@, q, h as int),
            decreases n - j,
        {
            let g = cand[j] == Some(h);
            assert(g == grouped_under(diff@, selected@, j as int, h as int)) by {
                assert(sel@[j as int] == selected@.contains(j as usize));
                lemma_hunk_above_range(diff@, j as int);
            }
            mask.push(g);
            any = any || g;
            j = j + 1;
        }
        assert(mask@ =~= group_mask(diff@, selected@, h as int));
        assert(any == exists|q: int| #[trigger] grouped_under(diff@, selected@, q, h as int));
        if any {
            match selection_patch_chars(diff, h, &mask, discard) {
                Some(p) => {
                    crate::text::extend_chars(&mut out, &p);
                },
                None => {},
            }
        }
        assert(out@ =~= across_text(diff@, selected@, h + 1, discard));
        h = h + 1;
    }
    if is_blank(&out) {
        None
    } else {
        Some(out)
    }
}

/// The patch that stages the selected added and removed lines, over all hunks and files.
pub fn build_unified_patch_for_selected_lines_across_hunks(
    diff: &[AnnotatedDiffLine],
    selected_src_ixs: &std::collections::HashSet<usize>,
) -> (r: Option<String>)
    ensures
        opt_chars(r) == across_hunks_patch(diff@, selected_src_ixs@, false),
{
    opt_string(across_hunks_chars(diff, selected_src_ixs, false))
}

/// The patch that discards the selected added and removed lines from the worktree, over
/// all hunks and files.
pub fn build_unified_patch_for_selected_lines_across_hunks_for_worktree_discard(
    diff: &[AnnotatedDiffLine],
    selected_src_ixs: &std::collections::HashSet<usize>,
) -> (r: Option<String>)
    ensures
        opt_chars(r) == across_hunks_patch(diff@, selected_src_ixs@, true),
{
    opt_string(across_hunks_chars(diff, selected_src_ixs, true))
}

} // verus!

verus! {

/// A header line that marks the file as new: `new file mode ..` or `--- /dev/null`.
pub open spec fn marks_new_file(l: AnnotatedDiffLine) -> bool {
    l.kind == DiffLineKind::Header && (has_prefix(
        l.text@,
        seq!['n', 'e', 'w', ' ', 'f', 'i', 'l', 'e', ' ', 'm', 'o', 'd', 'e', ' '],
    ) || l.text@ == seq!['-', '-', '-', ' ', '/', 'd', 'e', 'v', '/', 'n', 'u', 'l', 'l'])
}

/// The number of file headers among the first `n` lines.
pub open spec fn file_header_count(d: Seq<AnnotatedDiffLine>, n: int) -> nat
    decreases n,
{
    if n <= 0 {
        0
    } else {
        file_header_count(d, n - 1) + if is_file_header(d[n - 1]) {
            1nat
        } else {
            0nat
        }
    }
}

/// The contents of the added lines among the first `n` lines, without their `+`.
pub open spec fn added_contents(d: Seq<AnnotatedDiffLine>, n: int) -> Seq<Seq<char>>
    decreases n,
{
    if n <= 0 {
        Seq::empty()
    } else if d[n - 1].kind == DiffLineKind::Add {
        added_contents(d, n - 1).push(strip_lead(d[n - 1].text@, '+'))
    } else {
        added_contents(d, n - 1)
    }
}

/// The lines of a new file, when the diff adds exactly one new file and removes nothing.
pub open spec fn new_file_lines(d: Seq<AnnotatedDiffLine>) -> Option<Seq<Seq<char>>> {
    if file_header_count(d, d.len() as int) == 1 && (exists|j: int|
        0 <= j < d.len() && #[trigger] marks_new_file(d[j])) && !(exists|j: int|
        0 <= j < d.len() && #[trigger] d[j].kind == DiffLineKind::Remove) {
        Some(added_contents(d, d.len() as int))
    } else {
        None
    }
}

/// The texts of a vector of strings.
pub open spec fn strings_view(v: Seq<String>) -> Seq<Seq<char>> {
    v.map_values(|s: String| s@)
}

fn line_marks_new_file(l: &AnnotatedDiffLine) -> (r: bool)
    ensures
        r == marks_new_file(*l),
{
    match l.kind {
        DiffLineKind::Header => {
            let t = str_to_chars(l.text.as_str());
            let p = vec!['n', 'e', 'w', ' ', 'f', 'i', 'l', 'e', ' ', 'm', 'o', 'd', 'e', ' '];
            let q = vec!['-', '-', '-', ' ', '/', 'd', 'e', 'v', '/', 'n', 'u', 'l', 'l'];
            assert(p@ =~= seq!['n', 'e', 'w', ' ', 'f', 'i', 'l', 'e', ' ', 'm', 'o', 'd', 'e', ' ']);
            assert(q@ =~= seq!['-', '-', '-', ' ', '/', 'd', 'e', 'v', '/', 'n', 'u', 'l', 'l']);
            chars_start_with(&t, &p) || crate::text::chars_eq(&t, &q)
        },
        _ => false,
    }
}

/// The lines of the file that a diff creates, for previewing it: `None` unless the diff
/// holds exactly one file, marks it as new, and removes no line.
pub fn new_file_preview_lines(diff: &[AnnotatedDiffLine]) -> (r: Option<Vec<String>>)
    ensures
        match r {
            Some(v) => new_file_lines(diff@) == Some(strings_view(v@)),
            None => new_file_lines(diff@) is None,
        },
{
    let n = diff.len();
    let mut headers: usize = 0;
    let mut is_new_file = false;
    let mut has_remove = false;
    let mut ix: usize = 0;
    while ix < n
        invariant
            ix <= n,
            n == diff@.len(),
            headers == file_header_count(diff@, ix as int),
            headers <= ix,
            is_new_file == exists|j: int| 0 <= j < ix && #[trigger] marks_new_file(diff@[j]),
            has_remove == exists|j: int| 0 <= j < ix && #[trigger] diff@[j].kind == DiffLineKind::Remove,
        decreases n - ix,
    {
        let line = &diff[ix];
        if line_is_file_header(line) {
            headers = headers + 1;
        }
        if line_marks_new_file(line) {
            is_new_file = true;
        }
        if line.kind == DiffLineKind::Remove {
            has_remove = true;
        }
        ix = ix + 1;
    }
    if headers != 1 || !is_new_file || has_remove {
        return None;
    }
    let mut lines: Vec<String> = Vec::new();
    let mut k: usize = 0;
    while k < n
        invariant
            k <= n,
            n == diff@.len(),
            strings_view(lines@) == added_contents(diff@, k as int),
        decreases n - k,
    {
        let line = &diff[k];
        if line.kind == DiffLineKind::Add {
            let t = str_to_chars(line.text.as_str());
            let c = strip_lead_exec(&t, '+');
            lines.push(chars_to_string(&c));
        }
        assert(strings_view(lines@) =~= added_contents(diff@, k + 1));
        k = k + 1;
    }
    Some(lines)
}

} // verus!

verus! {

proof fn lemma_hunks_text_same_set(d: Seq<AnnotatedDiffLine>, a: Seq<usize>, b: Seq<usize>, n: int)
    requires
        forall|x: usize| a.contains(x) <==> b.contains(x),
    ensures
        hunks_text(d, a, n) == hunks_text(d, b, n),
    decreases n,
{
    if n > 0 {
        lemma_hunks_text_same_set(d, a, b, n - 1);
    }
}

/// The patch for a list of hunks depends only on which hunks are listed: order and
/// repetition do not matter.
pub proof fn law_hunks_patch_ignores_order_and_repeats(
    d: Seq<AnnotatedDiffLine>,
    a: Seq<usize>,
    b: Seq<usize>,
)
    requires
        a.len() > 0,
        b.len() > 0,
        forall|x: usize| a.contains(x) <==> b.contains(x),
    ensures
        hunks_patch(d, a) == hunks_patch(d, b),
{
    lemma_hunks_text_same_set(d, a, b, d.len() as int);
}

proof fn lemma_across_text_empty(d: Seq<AnnotatedDiffLine>, selected: Set<usize>, n: int, discard: bool)
    requires
        forall|j: int|
            0 <= j < d.len() && selected.contains(j as usize) ==> d[j].kind != DiffLineKind::Add
                && d[j].kind != DiffLineKind::Remove,
    ensures
        across_text(d, selected, n, discard) == Seq::<char>::empty(),
    decreases n,
{
    if n > 0 {
        lemma_across_text_empty(d, selected, n - 1, discard);
        assert(!exists|j: int| #[trigger] grouped_under(d, selected, j, n - 1));
    }
}

/// A selection that holds no added or removed line gives no patch, for staging and for
/// discarding alike.
pub proof fn law_selection_without_changes_gives_no_patch(
    d: Seq<AnnotatedDiffLine>,
    selected: Set<usize>,
    discard: bool,
)
    requires
        forall|j: int|
            0 <= j < d.len() && selected.contains(j as usize) ==> d[j].kind != DiffLineKind::Add
                && d[j].kind != DiffLineKind::Remove,
    ensures
        across_hunks_patch(d, selected, discard) is None,
{
    lemma_across_text_empty(d, selected, d.len() as int, discard);
}

} // verus!
