use vstd::prelude::*;

verus! {

/// Appends one character to a `String` (std's `String::push`).
#[verifier::external_body]
pub(crate) fn push_char(s: &mut String, c: char)
    ensures
        final(s)@ == old(s)@.push(c),
{
    s.push(c);
}

/// Appends a string slice to a `String`.
pub fn push_str(s: &mut String, t: &str)
    ensures
        final(s)@ == old(s)@ + t@,
{
    s.append(t);
}

/// The characters of `s`, in order.
pub fn str_to_chars(s: &str) -> (out: Vec<char>)
    ensures
        out@ == s@,
{
    let mut out: Vec<char> = Vec::new();
    for c in it: s.chars()
        invariant
            out@ == it.seq().take(it.index() as int),
    {
        out.push(c);
    }
    out
}

/// Appends every character of `v` to `s`.
pub fn push_chars(s: &mut String, v: &[char])
    ensures
        final(s)@ == old(s)@ + v@,
{
    let ghost s0 = s@;
    let mut i: usize = 0;
    while i < v.len()
        invariant
            i <= v@.len(),
            s@ == s0 + v@.take(i as int),
        decreases v@.len() - i,
    {
        push_char(s, v[i]);
        assert(v@.take(i as int + 1) =~= v@.take(i as int).push(v@[i as int]));
        i = i + 1;
    }
    assert(v@.take(v@.len() as int) =~= v@);
}

/// A `String` holding the characters of `v`.
pub fn chars_to_string(v: &[char]) -> (s: String)
    ensures
        s@ == v@,
{
    let mut s = String::new();
    push_chars(&mut s, v);
    s
}

/// Appends every character of `src` to `dst`.
pub fn extend_chars(dst: &mut Vec<char>, src: &[char])
    ensures
        final(dst)@ == old(dst)@ + src@,
{
    let ghost d0 = dst@;
    let mut i: usize = 0;
    while i < src.len()
        invariant
            i <= src@.len(),
            dst@ == d0 + src@.take(i as int),
        decreases src@.len() - i,
    {
        dst.push(src[i]);
        assert(src@.take(i as int + 1) =~= src@.take(i as int).push(src@[i as int]));
        i = i + 1;
    }
    assert(src@.take(src@.len() as int) =~= src@);
}

/// The concatenation of a sequence of character sequences.
pub open spec fn flatten(ls: Seq<Seq<char>>) -> Seq<char>
    decreases ls.len(),
{
    if ls.len() == 0 {
        Seq::empty()
    } else {
        flatten(ls.drop_last()) + ls.last()
    }
}

/// Splitting a text into lines, read left to right: the finished lines (each
/// ending in `'\n'`) and the unfinished tail.
pub open spec fn lines_acc(s: Seq<char>) -> (Seq<Seq<char>>, Seq<char>)
    decreases s.len(),
{
    if s.len() == 0 {
        (Seq::empty(), Seq::empty())
    } else {
        let (ls, cur) = lines_acc(s.drop_last());
        if s.last() == '\n' {
            (ls.push(cur.push('\n')), Seq::empty())
        } else {
            (ls, cur.push(s.last()))
        }
    }
}

/// The lines of a text, each keeping its terminating `'\n'`; a final line
/// without one is kept as it is, and an empty text has no lines.
pub open spec fn split_lines(s: Seq<char>) -> Seq<Seq<char>> {
    let (ls, cur) = lines_acc(s);
    if cur.len() > 0 {
        ls.push(cur)
    } else {
        ls
    }
}

pub proof fn lemma_flatten_push(ls: Seq<Seq<char>>, l: Seq<char>)
    ensures
        flatten(ls.push(l)) == flatten(ls) + l,
{
    assert(ls.push(l).drop_last() =~= ls);
}

pub proof fn lemma_lines_acc(s: Seq<char>)
    ensures
        flatten(lines_acc(s).0) + lines_acc(s).1 == s,
        !lines_acc(s).1.contains('\n'),
        forall|k: int|
            0 <= k < lines_acc(s).0.len() ==> #[trigger] lines_acc(s).0[k].len() > 0
                && lines_acc(s).0[k].last() == '\n',
    decreases s.len(),
{
    if s.len() > 0 {
        let p = s.drop_last();
        lemma_lines_acc(p);
        let (ls, cur) = lines_acc(p);
        if s.last() == '\n' {
            lemma_flatten_push(ls, cur.push('\n'));
            assert(flatten(ls) + cur.push('\n') =~= (flatten(ls) + cur).push('\n'));
            assert(s =~= p.push(s.last()));
            assert(!Seq::<char>::empty().contains('\n'));
        } else {
            assert(flatten(ls) + cur.push(s.last()) =~= (flatten(ls) + cur).push(s.last()));
            assert(s =~= p.push(s.last()));
            assert forall|c: char| cur.push(s.last()).contains(c) implies c != '\n' by {
                let k = choose|k: int| 0 <= k < cur.push(s.last()).len() && cur.push(s.last())[k] == c;
                if k < cur.len() {
                    assert(cur.contains(cur[k]));
                }
            }
        }
    }
}

/// The lines of a text put back together give the text.
pub proof fn lemma_flatten_split_lines(s: Seq<char>)
    ensures
        flatten(split_lines(s)) == s,
        forall|k: int| 0 <= k < split_lines(s).len() ==> #[trigger] split_lines(s)[k].len() > 0,
{
    lemma_lines_acc(s);
    let (ls, cur) = lines_acc(s);
    if cur.len() > 0 {
        lemma_flatten_push(ls, cur);
    } else {
        assert(flatten(ls) + cur =~= flatten(ls));
    }
}

/// The character sequences held by a vector of lines.
pub open spec fn lines_view(v: Seq<Vec<char>>) -> Seq<Seq<char>> {
    v.map_values(|l: Vec<char>| l@)
}

/// The lines of `s`, each keeping its terminating `'\n'`.
pub fn split_lines_exec(s: &[char]) -> (out: Vec<Vec<char>>)
    ensures
        lines_view(out@) == split_lines(s@),
{
    let mut ls: Vec<Vec<char>> = Vec::new();
    let mut cur: Vec<char> = Vec::new();
    let mut i: usize = 0;
    while i < s.len()
        invariant
            i <= s@.len(),
            (lines_view(ls@), cur@) == lines_acc(s@.take(i as int)),
        decreases s@.len() - i,
    {
        let c = s[i];
        assert(s@.take(i as int + 1).drop_last() =~= s@.take(i as int));
        if c == '\n' {
            cur.push(c);
            let mut line: Vec<char> = Vec::new();
            std::mem::swap(&mut line, &mut cur);
            let ghost old_ls = lines_view(ls@);
            ls.push(line);
            assert(lines_view(ls@) =~= old_ls.push(line@));
        } else {
            cur.push(c);
        }
        i = i + 1;
    }
    assert(s@.take(s@.len() as int) =~= s@);
    if cur.len() > 0 {
        let ghost old_ls = lines_view(ls@);
        let ghost cv = cur@;
        ls.push(cur);
        assert(lines_view(ls@) =~= old_ls.push(cv));
    }
    ls
}

} // verus!

verus! {

/// Unicode `White_Space`, the property `char::is_whitespace` tests.
pub open spec fn is_ws(c: char) -> bool {
    let u = c as u32;
    (0x09 <= u <= 0x0d) || u == 0x20 || u == 0x85 || u == 0xa0 || u == 0x1680 || (0x2000 <= u
        <= 0x200a) || u == 0x2028 || u == 0x2029 || u == 0x202f || u == 0x205f || u == 0x3000
}

/// Whether `c` is whitespace (`char::is_whitespace`).
pub fn char_is_whitespace(c: char) -> (b: bool)
    ensures
        b == is_ws(c),
{
    let u = c as u32;
    (0x09 <= u && u <= 0x0d) || u == 0x20 || u == 0x85 || u == 0xa0 || u == 0x1680 || (0x2000 <= u
        && u <= 0x200a) || u == 0x2028 || u == 0x2029 || u == 0x202f || u == 0x205f || u == 0x3000
}

/// `s` with every whitespace character removed.
pub open spec fn strip_ws(s: Seq<char>) -> Seq<char>
    decreases s.len(),
{
    if s.len() == 0 {
        Seq::empty()
    } else if is_ws(s.last()) {
        strip_ws(s.drop_last())
    } else {
        strip_ws(s.drop_last()).push(s.last())
    }
}

/// The non-whitespace characters of `s`, in order.
pub fn strip_whitespace(s: &[char]) -> (out: Vec<char>)
    ensures
        out@ == strip_ws(s@),
{
    let mut out: Vec<char> = Vec::new();
    let mut i: usize = 0;
    while i < s.len()
        invariant
            i <= s@.len(),
            out@ == strip_ws(s@.take(i as int)),
        decreases s@.len() - i,
    {
        assert(s@.take(i as int + 1).drop_last() =~= s@.take(i as int));
        if !char_is_whitespace(s[i]) {
            out.push(s[i]);
        }
        i = i + 1;
    }
    assert(s@.take(s@.len() as int) =~= s@);
    out
}

/// Whether two character sequences are equal.
pub fn chars_eq(a: &[char], b: &[char]) -> (r: bool)
    ensures
        r == (a@ == b@),
{
    if a.len() != b.len() {
        return false;
    }
    let mut i: usize = 0;
    while i < a.len()
        invariant
            i <= a@.len(),
            a@.len() == b@.len(),
            forall|k: int| 0 <= k < i ==> a@[k] == b@[k],
        decreases a@.len() - i,
    {
        if a[i] != b[i] {
            return false;
        }
        i = i + 1;
    }
    assert(a@ =~= b@);
    true
}

} // verus!

verus! {

/// `n` occurs in `h` at position `p`.
pub open spec fn occurs_at(h: Seq<char>, n: Seq<char>, p: int) -> bool {
    0 <= p && p + n.len() <= h.len() && h.subrange(p, p + n.len()) == n
}

/// `p` is the first position at or after `from` where `n` occurs in `h`.
pub open spec fn is_first_occurrence(h: Seq<char>, n: Seq<char>, from: int, p: int) -> bool {
    from <= p && occurs_at(h, n, p) && forall|q: int| from <= q < p ==> !occurs_at(h, n, q)
}

/// The first position at or after `from` where `n` occurs in `h`, if any.
pub open spec fn find_from(h: Seq<char>, n: Seq<char>, from: int) -> Option<int> {
    if exists|p: int| is_first_occurrence(h, n, from, p) {
        Some(choose|p: int| is_first_occurrence(h, n, from, p))
    } else {
        None
    }
}

pub proof fn lemma_find_from_unique(h: Seq<char>, n: Seq<char>, from: int, p: int)
    requires
        is_first_occurrence(h, n, from, p),
    ensures
        find_from(h, n, from) == Some(p),
{
    let c = choose|c: int| is_first_occurrence(h, n, from, c);
    if c < p {
        assert(!occurs_at(h, n, c));
    } else if c > p {
        assert(!occurs_at(h, n, p));
    }
}

fn occurs_at_exec(h: &[char], n: &[char], p: usize) -> (r: bool)
    requires
        p + n@.len() <= h@.len(),
    ensures
        r == occurs_at(h@, n@, p as int),
{
    let hlen = h.len();
    let mut k: usize = 0;
    while k < n.len()
        invariant
            k <= n@.len(),
            p + n@.len() <= h@.len(),
            hlen == h@.len(),
            forall|j: int| 0 <= j < k ==> h@[p + j] == n@[j],
        decreases n@.len() - k,
    {
        if h[p + k] != n[k] {
            assert(h@.subrange(p as int, p + n@.len())[k as int] != n@[k as int]);
            return false;
        }
        k = k + 1;
    }
    assert(h@.subrange(p as int, p + n@.len()) =~= n@);
    true
}

/// The first position at or after `from` where `n` occurs in `h`.
pub fn find_chars(h: &[char], n: &[char], from: usize) -> (r: Option<usize>)
    requires
        from <= h@.len(),
    ensures
        r == match find_from(h@, n@, from as int) {
            Some(p) => Some(p as usize),
            None => None::<usize>,
        },
        r matches Some(p) ==> is_first_occurrence(h@, n@, from as int, p as int),
{
    if n.len() > h.len() {
        assert forall|p: int| !is_first_occurrence(h@, n@, from as int, p) by {}
        return None;
    }
    let last = h.len() - n.len();
    if from > last {
        assert forall|q: int| !is_first_occurrence(h@, n@, from as int, q) by {}
        return None;
    }
    let mut p: usize = from;
    loop
        invariant
            from <= p <= last,
            last == h@.len() - n@.len(),
            forall|q: int| from <= q < p ==> !occurs_at(h@, n@, q),
        ensures
            forall|q: int| from <= q <= last ==> !occurs_at(h@, n@, q),
        decreases last - p,
    {
        if occurs_at_exec(h, n, p) {
            proof {
                lemma_find_from_unique(h@, n@, from as int, p as int);
            }
            return Some(p);
        }
        if p == last {
            break;
        }
        p = p + 1;
    }
    assert forall|q: int| !is_first_occurrence(h@, n@, from as int, q) by {}
    None
}

/// The characters `h[a..b]`.
pub fn sub_chars(h: &[char], a: usize, b: usize) -> (out: Vec<char>)
    requires
        a <= b <= h@.len(),
    ensures
        out@ == h@.subrange(a as int, b as int),
{
    let mut out: Vec<char> = Vec::new();
    let mut k: usize = a;
    while k < b
        invariant
            a <= k <= b,
            b <= h@.len(),
            out@ == h@.subrange(a as int, k as int),
        decreases b - k,
    {
        out.push(h[k]);
        assert(h@.subrange(a as int, k + 1) =~= h@.subrange(a as int, k as int).push(h@[k as int]));
        k = k + 1;
    }
    out
}

} // verus!

verus! {

/// The character for a decimal digit.
pub open spec fn digit_char(d: nat) -> char {
    ((48 + d) as u8) as char
}

/// The decimal digits of `n`, most significant first, without leading zeros.
pub open spec fn decimal(n: nat) -> Seq<char>
    decreases n,
{
    if n < 10 {
        seq![digit_char(n)]
    } else {
        decimal(n / 10).push(digit_char(n % 10))
    }
}

fn digit(d: u64) -> (c: char)
    requires
        d < 10,
    ensures
        c == digit_char(d as nat),
{
    let b: u8 = 48u8 + d as u8;
    b as char
}

/// Appends the decimal form of `n`.
pub fn push_decimal(s: &mut String, n: u64)
    ensures
        final(s)@ == old(s)@ + decimal(n as nat),
    decreases n,
{
    if n >= 10 {
        push_decimal(s, n / 10);
    }
    push_char(s, digit(n % 10));
    assert(n >= 10 ==> decimal(n as nat) == decimal((n / 10) as nat).push(digit_char((n % 10) as nat)));
}

} // verus!

verus! {

/// The texts of a list of strings.
pub open spec fn strings_v(v: Seq<String>) -> Seq<Seq<char>> {
    v.map_values(|s: String| s@)
}

/// A line of `split_lines` without its line ending, `"\n"` or `"\r\n"`.
pub open spec fn strip_eol(l: Seq<char>) -> Seq<char> {
    if l.len() > 0 && l.last() == '\n' {
        let m = l.drop_last();
        if m.len() > 0 && m.last() == '\r' {
            m.drop_last()
        } else {
            m
        }
    } else {
        l
    }
}

/// The lines of a text as `str::lines` gives them: split after each `'\n'`, each without
/// its line ending; a final line without one is kept as it is.
pub open spec fn text_lines(s: Seq<char>) -> Seq<Seq<char>> {
    split_lines(s).map_values(|l: Seq<char>| strip_eol(l))
}

fn strip_eol_exec(l: &Vec<char>) -> (out: Vec<char>)
    ensures
        out@ == strip_eol(l@),
{
    let n = l.len();
    let mut end = n;
    if n > 0 && l[n - 1] == '\n' {
        end = n - 1;
        if end > 0 && l[end - 1] == '\r' {
            end = end - 1;
        }
    }
    let mut out: Vec<char> = Vec::new();
    let mut i: usize = 0;
    while i < end
        invariant
            end <= l@.len(),
            i <= end,
            out@ == l@.take(i as int),
        decreases end - i,
    {
        out.push(l[i]);
        i = i + 1;
        assert(out@ =~= l@.take(i as int));
    }
    assert(out@ =~= strip_eol(l@));
    out
}

/// The lines of `text` (see `text_lines`).
pub fn text_lines_of(text: &str) -> (out: Vec<String>)
    ensures
        strings_v(out@) == text_lines(text@),
{
    let cs = str_to_chars(text);
    let ls = split_lines_exec(cs.as_slice());
    let mut out: Vec<String> = Vec::new();
    let mut i: usize = 0;
    while i < ls.len()
        invariant
            i <= ls@.len(),
            lines_view(ls@) == split_lines(text@),
            strings_v(out@) == lines_view(ls@).take(i as int).map_values(|l: Seq<char>| strip_eol(l)),
        decreases ls@.len() - i,
    {
        let stripped = strip_eol_exec(&ls[i]);
        let s = chars_to_string(stripped.as_slice());
        let ghost before = strings_v(out@);
        out.push(s);
        assert(lines_view(ls@)[i as int] == ls@[i as int]@);
        assert(strings_v(out@) =~= before.push(strip_eol(ls@[i as int]@)));
        assert(lines_view(ls@).take(i + 1).map_values(|l: Seq<char>| strip_eol(l)) =~= lines_view(
            ls@,
        ).take(i as int).map_values(|l: Seq<char>| strip_eol(l)).push(strip_eol(ls@[i as int]@)));
        i = i + 1;
    }
    assert(lines_view(ls@).take(ls@.len() as int) =~= lines_view(ls@));
    out
}

} // verus!
