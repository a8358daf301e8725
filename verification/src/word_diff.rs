use vstd::prelude::*;
use std::ops::Range;
use crate::text::{char_is_whitespace, is_ws, str_to_chars};
use crate::token_lcs::{edit_dist, kept_before, lcs_len, lemma_common_marks_bounded, lemma_lcs_steps};

verus! {

/// The values of byte ranges.
pub open spec fn ranges_v(rs: Seq<Range<usize>>) -> Seq<(usize, usize)> {
    rs.map_values(|r: Range<usize>| (r.start, r.end))
}

/// `a` sorts before or with `b`: by start, then by end.
pub open spec fn pair_le(a: (usize, usize), b: (usize, usize)) -> bool {
    a.0 < b.0 || (a.0 == b.0 && a.1 <= b.1)
}

/// The position where `x` goes in sorted `s`: before the first element that sorts after it.
pub open spec fn sorted_pos(s: Seq<(usize, usize)>, x: (usize, usize), i: int) -> int
    decreases s.len() - i,
{
    if i < 0 || i >= s.len() {
        s.len() as int
    } else if !pair_le(s[i], x) {
        i
    } else {
        sorted_pos(s, x, i + 1)
    }
}

/// The ranges sorted by start, then end.
pub open spec fn sort_pairs(s: Seq<(usize, usize)>) -> Seq<(usize, usize)>
    decreases s.len(),
{
    if s.len() == 0 {
        s
    } else {
        let rest = sort_pairs(s.drop_last());
        rest.insert(sorted_pos(rest, s.last(), 0), s.last())
    }
}

/// Sorted ranges with each one that starts within or right at the end of the one before
/// folded into it (what this gives is stated directly by `law_coalesced_ranges`).
pub open spec fn merge_sorted(s: Seq<(usize, usize)>) -> Seq<(usize, usize)>
    decreases s.len(),
{
    if s.len() == 0 {
        s
    } else {
        let out = merge_sorted(s.drop_last());
        let r = s.last();
        if out.len() > 0 && r.0 <= out.last().1 {
            out.drop_last().push(
                (
                    out.last().0,
                    if r.1 > out.last().1 {
                        r.1
                    } else {
                        out.last().1
                    },
                ),
            )
        } else {
            out.push(r)
        }
    }
}

proof fn lemma_sorted_pos_range(s: Seq<(usize, usize)>, x: (usize, usize), i: int)
    requires
        0 <= i,
    ensures
        0 <= sorted_pos(s, x, i) <= s.len(),
    decreases s.len() - i,
{
    if 0 <= i < s.len() && pair_le(s[i], x) {
        lemma_sorted_pos_range(s, x, i + 1);
    }
}

fn sort_ranges(rs: &Vec<Range<usize>>) -> (out: Vec<Range<usize>>)
    ensures
        ranges_v(out@) == sort_pairs(ranges_v(rs@)),
{
    let mut out: Vec<Range<usize>> = Vec::new();
    let mut i: usize = 0;
    assert(ranges_v(rs@).take(0) =~= Seq::<(usize, usize)>::empty());
    while i < rs.len()
        invariant
            i <= rs@.len(),
            ranges_v(out@) == sort_pairs(ranges_v(rs@).take(i as int)),
        decreases rs@.len() - i,
    {
        let r = rs[i].start..rs[i].end;
        let ghost cur = ranges_v(out@);
        let ghost x = (r.start, r.end);
        let mut p: usize = 0;
        while p < out.len()
            invariant
                p <= out@.len(),
                cur == ranges_v(out@),
                x == (r.start, r.end),
                sorted_pos(cur, x, 0) == sorted_pos(cur, x, p as int),
            ensures
                p <= out@.len(),
                sorted_pos(cur, x, 0) == p as int,
            decreases out@.len() - p,
        {
            let e_start = out[p].start;
            let e_end = out[p].end;
            assert(cur[p as int] == (e_start, e_end));
            if !(e_start < r.start || (e_start == r.start && e_end <= r.end)) {
                break;
            }
            p = p + 1;
        }
        proof {
            lemma_sorted_pos_range(cur, x, 0);
            assert(ranges_v(rs@).take(i + 1).drop_last() =~= ranges_v(rs@).take(i as int));
            assert(ranges_v(rs@).take(i + 1).last() == x);
        }
        assert(sorted_pos(cur, x, 0) == p as int);
        out.insert(p, r);
        assert(ranges_v(out@) =~= cur.insert(p as int, x));
        i = i + 1;
    }
    assert(ranges_v(rs@).take(i as int) =~= ranges_v(rs@));
    out
}

/// Every range starts at or before its end.
pub open spec fn well_formed(s: Seq<(usize, usize)>) -> bool {
    forall|i: int| 0 <= i < s.len() ==> (#[trigger] s[i]).0 <= s[i].1
}

/// Each range ends strictly before any later one starts: the ranges are sorted, apart
/// and not touching.
pub open spec fn separated(s: Seq<(usize, usize)>) -> bool {
    forall|i: int, j: int| 0 <= i < j < s.len() ==> (#[trigger] s[i]).1 < (#[trigger] s[j]).0
}

/// Some range holds position `x`.
pub open spec fn covers(s: Seq<(usize, usize)>, x: int) -> bool {
    exists|i: int| 0 <= i < s.len() && (#[trigger] s[i]).0 <= x < s[i].1
}

/// The ranges are sorted by start, then end.
pub open spec fn pairs_sorted(s: Seq<(usize, usize)>) -> bool {
    forall|i: int, j: int| 0 <= i < j < s.len() ==> pair_le(#[trigger] s[i], #[trigger] s[j])
}

proof fn lemma_sort_pairs(s: Seq<(usize, usize)>)
    ensures
        pairs_sorted(sort_pairs(s)),
        sort_pairs(s).len() == s.len(),
        forall|e: (usize, usize)| sort_pairs(s).contains(e) <==> s.contains(e),
    decreases s.len(),
{
    if s.len() > 0 {
        let rest = sort_pairs(s.drop_last());
        lemma_sort_pairs(s.drop_last());
        let x = s.last();
        let p = sorted_pos(rest, x, 0);
        lemma_sorted_pos_range(rest, x, 0);
        lemma_sorted_pos_split(rest, x, 0);
        let t = rest.insert(p, x);
        assert forall|i: int, j: int| 0 <= i < j < t.len() implies pair_le(#[trigger] t[i], #[trigger] t[j]) by {
            if j < p {
                assert(t[i] == rest[i] && t[j] == rest[j]);
            } else if j == p {
                assert(t[i] == rest[i]);
            } else if i < p {
                assert(t[i] == rest[i] && t[j] == rest[j - 1]);
                assert(pair_le(rest[i], x));
                assert(!pair_le(rest[p], x));
                if p < j - 1 {
                    assert(pair_le(rest[p], rest[j - 1]));
                }
            } else if i == p {
                assert(t[j] == rest[j - 1]);
                assert(!pair_le(rest[p], x));
                if p < j - 1 {
                    assert(pair_le(rest[p], rest[j - 1]));
                }
            } else {
                assert(t[i] == rest[i - 1] && t[j] == rest[j - 1]);
            }
        }
        assert forall|e: (usize, usize)| t.contains(e) <==> s.contains(e) by {
            if t.contains(e) {
                let k = choose|k: int| 0 <= k < t.len() && t[k] == e;
                if k < p {
                    assert(rest[k] == e);
                    assert(s.drop_last().contains(e));
                    let m = choose|m: int| 0 <= m < s.drop_last().len() && s.drop_last()[m] == e;
                    assert(s[m] == e);
                } else if k == p {
                    assert(s[s.len() - 1] == e);
                } else {
                    assert(rest[k - 1] == e);
                    assert(s.drop_last().contains(e));
                    let m = choose|m: int| 0 <= m < s.drop_last().len() && s.drop_last()[m] == e;
                    assert(s[m] == e);
                }
            }
            if s.contains(e) {
                let k = choose|k: int| 0 <= k < s.len() && s[k] == e;
                if k == s.len() - 1 {
                    assert(t[p] == e);
                } else {
                    assert(s.drop_last()[k] == e);
                    assert(s.drop_last().contains(e));
                    assert(rest.contains(e));
                    let m = choose|m: int| 0 <= m < rest.len() && rest[m] == e;
                    if m < p {
                        assert(t[m] == e);
                    } else {
                        assert(t[m + 1] == e);
                    }
                }
            }
        }
    }
}

proof fn lemma_sorted_pos_split(s: Seq<(usize, usize)>, x: (usize, usize), i: int)
    requires
        0 <= i <= s.len(),
    ensures
        forall|k: int| i <= k < sorted_pos(s, x, i) ==> pair_le(#[trigger] s[k], x),
        sorted_pos(s, x, i) < s.len() ==> !pair_le(s[sorted_pos(s, x, i)], x),
    decreases s.len() - i,
{
    if i < s.len() && pair_le(s[i], x) {
        lemma_sorted_pos_split(s, x, i + 1);
    }
}

proof fn lemma_merge_sorted(s: Seq<(usize, usize)>)
    requires
        pairs_sorted(s),
        well_formed(s),
    ensures
        well_formed(merge_sorted(s)),
        separated(merge_sorted(s)),
        forall|x: int| covers(merge_sorted(s), x) <==> covers(s, x),
        s.len() > 0 ==> merge_sorted(s).len() > 0 && merge_sorted(s).last().0 <= s.last().0,
    decreases s.len(),
{
    if s.len() > 0 {
        let p = s.drop_last();
        assert forall|i: int, j: int| 0 <= i < j < p.len() implies pair_le(#[trigger] p[i], #[trigger] p[j]) by {
            assert(p[i] == s[i] && p[j] == s[j]);
        }
        assert forall|i: int| 0 <= i < p.len() implies (#[trigger] p[i]).0 <= p[i].1 by {
            assert(p[i] == s[i]);
        }
        lemma_merge_sorted(p);
        let m = merge_sorted(p);
        let r = s.last();
        assert(r.0 <= r.1);
        let out = merge_sorted(s);
        if m.len() > 0 && r.0 <= m.last().1 {
            let l = m.last();
            assert(pair_le(s[s.len() - 2], r));
            assert(l.0 <= r.0);
            let nl = (l.0, if r.1 > l.1 { r.1 } else { l.1 });
            assert(out == m.drop_last().push(nl));
            assert forall|i: int, j: int| 0 <= i < j < out.len() implies (#[trigger] out[i]).1 < (#[trigger] out[j]).0 by {
                assert(out[i] == m[i]);
                if j < out.len() - 1 {
                    assert(out[j] == m[j]);
                } else {
                    assert(m[i].1 < m[m.len() - 1].0);
                }
            }
            assert forall|i: int| 0 <= i < out.len() implies (#[trigger] out[i]).0 <= out[i].1 by {
                if i < out.len() - 1 {
                    assert(out[i] == m[i]);
                }
            }
            assert forall|x: int| covers(out, x) <==> covers(s, x) by {
                if covers(out, x) {
                    let i = choose|i: int| 0 <= i < out.len() && (#[trigger] out[i]).0 <= x < out[i].1;
                    if i < out.len() - 1 {
                        assert(out[i] == m[i]);
                        assert(covers(m, x));
                    } else if x < l.1 {
                        assert(m[m.len() - 1].0 <= x < m[m.len() - 1].1);
                        assert(covers(m, x));
                    } else {
                        assert(s[s.len() - 1].0 <= x < s[s.len() - 1].1);
                    }
                    if covers(m, x) {
                        assert(covers(p, x));
                        let k = choose|k: int| 0 <= k < p.len() && (#[trigger] p[k]).0 <= x < p[k].1;
                        assert(s[k] == p[k]);
                    }
                }
                if covers(s, x) {
                    let k = choose|k: int| 0 <= k < s.len() && (#[trigger] s[k]).0 <= x < s[k].1;
                    if k == s.len() - 1 {
                        assert(out[out.len() - 1].0 <= x < out[out.len() - 1].1);
                    } else {
                        assert(p[k] == s[k]);
                        assert(covers(p, x));
                        assert(covers(m, x));
                        let i = choose|i: int| 0 <= i < m.len() && (#[trigger] m[i]).0 <= x < m[i].1;
                        if i < m.len() - 1 {
                            assert(out[i] == m[i]);
                        } else {
                            assert(out[out.len() - 1].0 <= x < out[out.len() - 1].1);
                        }
                    }
                }
            }
        } else {
            assert(out == m.push(r));
            if m.len() > 0 {
                assert(pair_le(s[s.len() - 2], r));
            }
            assert forall|i: int, j: int| 0 <= i < j < out.len() implies (#[trigger] out[i]).1 < (#[trigger] out[j]).0 by {
                assert(out[i] == m[i]);
                if j < out.len() - 1 {
                    assert(out[j] == m[j]);
                } else {
                    assert(m[m.len() - 1].0 <= m[m.len() - 1].1);
                    if i < m.len() - 1 {
                        assert(m[i].1 < m[m.len() - 1].0);
                    }
                }
            }
            assert forall|i: int| 0 <= i < out.len() implies (#[trigger] out[i]).0 <= out[i].1 by {
                if i < out.len() - 1 {
                    assert(out[i] == m[i]);
                }
            }
            assert forall|x: int| covers(out, x) <==> covers(s, x) by {
                if covers(out, x) {
                    let i = choose|i: int| 0 <= i < out.len() && (#[trigger] out[i]).0 <= x < out[i].1;
                    if i < out.len() - 1 {
                        assert(out[i] == m[i]);
                        assert(covers(m, x));
                        assert(covers(p, x));
                        let k = choose|k: int| 0 <= k < p.len() && (#[trigger] p[k]).0 <= x < p[k].1;
                        assert(s[k] == p[k]);
                    } else {
                        assert(s[s.len() - 1].0 <= x < s[s.len() - 1].1);
                    }
                }
                if covers(s, x) {
                    let k = choose|k: int| 0 <= k < s.len() && (#[trigger] s[k]).0 <= x < s[k].1;
                    if k == s.len() - 1 {
                        assert(out[out.len() - 1].0 <= x < out[out.len() - 1].1);
                    } else {
                        assert(p[k] == s[k]);
                        assert(covers(p, x));
                        assert(covers(m, x));
                        let i = choose|i: int| 0 <= i < m.len() && (#[trigger] m[i]).0 <= x < m[i].1;
                        assert(out[i] == m[i]);
                    }
                }
            }
        }
    }
}

/// Coalescing well-formed ranges gives ranges that are sorted, apart and not touching,
/// and that hold exactly the positions the given ranges hold.
pub proof fn law_coalesced_ranges(s: Seq<(usize, usize)>)
    requires
        well_formed(s),
    ensures
        separated(coalesced(s)),
        forall|x: int| covers(coalesced(s), x) <==> covers(s, x),
{
    if s.len() > 1 {
        lemma_sort_pairs(s);
        let t = sort_pairs(s);
        assert forall|i: int| 0 <= i < t.len() implies (#[trigger] t[i]).0 <= t[i].1 by {
            assert(t.contains(t[i]));
            assert(s.contains(t[i]));
        }
        lemma_merge_sorted(t);
        assert forall|x: int| covers(t, x) <==> covers(s, x) by {
            if covers(t, x) {
                let i = choose|i: int| 0 <= i < t.len() && (#[trigger] t[i]).0 <= x < t[i].1;
                assert(t.contains(t[i]));
                assert(s.contains(t[i]));
                let k = choose|k: int| 0 <= k < s.len() && s[k] == t[i];
                assert(s[k].0 <= x < s[k].1);
            }
            if covers(s, x) {
                let k = choose|k: int| 0 <= k < s.len() && (#[trigger] s[k]).0 <= x < s[k].1;
                assert(s.contains(s[k]));
                assert(t.contains(s[k]));
                let i = choose|i: int| 0 <= i < t.len() && t[i] == s[k];
                assert(t[i].0 <= x < t[i].1);
            }
        }
    } else if s.len() == 1 {
        assert forall|i: int, j: int| 0 <= i < j < s.len() implies (#[trigger] s[i]).1 < (#[trigger] s[j]).0 by {}
    }
}

fn merge_sorted_exec(sorted: &Vec<Range<usize>>) -> (out: Vec<Range<usize>>)
    ensures
        ranges_v(out@) == merge_sorted(ranges_v(sorted@)),
{
    let mut out: Vec<Range<usize>> = Vec::new();
    let mut i: usize = 0;
    assert(ranges_v(sorted@).take(0) =~= Seq::<(usize, usize)>::empty());
    while i < sorted.len()
        invariant
            i <= sorted@.len(),
            ranges_v(out@) == merge_sorted(ranges_v(sorted@).take(i as int)),
        decreases sorted@.len() - i,
    {
        let r = sorted[i].start..sorted[i].end;
        let ghost cur = ranges_v(out@);
        proof {
            assert(ranges_v(sorted@).take(i + 1).drop_last() =~= ranges_v(sorted@).take(i as int));
            assert(ranges_v(sorted@).take(i + 1).last() == (r.start, r.end));
        }
        let n = out.len();
        if n > 0 && r.start <= out[n - 1].end {
            let last_start = out[n - 1].start;
            let last_end = out[n - 1].end;
            let new_end = if r.end > last_end {
                r.end
            } else {
                last_end
            };
            out.set(n - 1, last_start..new_end);
            assert(ranges_v(out@) =~= cur.drop_last().push((cur.last().0, new_end)));
        } else {
            out.push(r);
            assert(ranges_v(out@) =~= cur.push((r.start, r.end)));
        }
        i = i + 1;
    }
    assert(ranges_v(sorted@).take(i as int) =~= ranges_v(sorted@));
    out
}

/// The ranges sorted and with overlapping or touching ones merged; zero or one range is
/// returned as it is.
pub open spec fn coalesced(s: Seq<(usize, usize)>) -> Seq<(usize, usize)> {
    if s.len() <= 1 {
        s
    } else {
        merge_sorted(sort_pairs(s))
    }
}

/// Sorts the ranges and merges those that overlap or touch: from ranges that each start
/// at or before their end, ranges that are sorted, apart and not touching, holding exactly
/// the positions the given ones hold.
pub fn coalesce_ranges(ranges: Vec<Range<usize>>) -> (out: Vec<Range<usize>>)
    ensures
        ranges_v(out@) == coalesced(ranges_v(ranges@)),
        well_formed(ranges_v(ranges@)) ==> separated(ranges_v(out@)),
        well_formed(ranges_v(ranges@)) ==> forall|x: int|
            covers(ranges_v(out@), x) <==> covers(ranges_v(ranges@), x),
{
    proof {
        if well_formed(ranges_v(ranges@)) {
            law_coalesced_ranges(ranges_v(ranges@));
        }
    }
    if ranges.len() <= 1 {
        return ranges;
    }
    let sorted = sort_ranges(&ranges);
    merge_sorted_exec(&sorted)
}

/// The union of two range lists, sorted and merged; when either is empty, the other as it
/// is.
pub open spec fn merged_ranges(a: Seq<(usize, usize)>, b: Seq<(usize, usize)>) -> Seq<(usize, usize)> {
    if a.len() == 0 {
        b
    } else if b.len() == 0 {
        a
    } else {
        merge_sorted(sort_pairs(a + b))
    }
}

pub(crate) fn copy_ranges(a: &[Range<usize>], out: &mut Vec<Range<usize>>)
    ensures
        ranges_v(final(out)@) == ranges_v(old(out)@) + ranges_v(a@),
{
    let ghost o0 = ranges_v(out@);
    let mut i: usize = 0;
    while i < a.len()
        invariant
            i <= a@.len(),
            ranges_v(out@) == o0 + ranges_v(a@).take(i as int),
        decreases a@.len() - i,
    {
        let r = a[i].start..a[i].end;
        assert(ranges_v(a@)[i as int] == (r.start, r.end));
        let ghost before = ranges_v(out@);
        out.push(r);
        assert(ranges_v(out@) =~= before.push((r.start, r.end)));
        assert(ranges_v(out@) =~= o0 + ranges_v(a@).take(i + 1));
        i = i + 1;
    }
    assert(ranges_v(a@).take(i as int) =~= ranges_v(a@));
}

/// The union of two lists of highlighted byte ranges.
pub fn merge_ranges(a: &[Range<usize>], b: &[Range<usize>]) -> (out: Vec<Range<usize>>)
    ensures
        ranges_v(out@) == merged_ranges(ranges_v(a@), ranges_v(b@)),
{
    let mut combined: Vec<Range<usize>> = Vec::new();
    if a.len() == 0 {
        copy_ranges(b, &mut combined);
        assert(ranges_v(combined@) =~= ranges_v(b@));
        return combined;
    }
    if b.len() == 0 {
        copy_ranges(a, &mut combined);
        assert(ranges_v(combined@) =~= ranges_v(a@));
        return combined;
    }
    copy_ranges(a, &mut combined);
    copy_ranges(b, &mut combined);
    assert(ranges_v(combined@) =~= ranges_v(a@) + ranges_v(b@));
    let sorted = sort_ranges(&combined);
    merge_sorted_exec(&sorted)
}

} // verus!

verus! {

/// What `char::is_alphanumeric` returns for `c`: whether it has the Unicode Alphabetic or
/// Numeric property.
pub uninterp spec fn char_alphanumeric(c: char) -> bool;

/// `char::is_alphanumeric`: the result is `char_alphanumeric(c)`; on ASCII it holds exactly
/// for letters and digits. Which other characters are alphabetic or numeric is left to the
/// Unicode tables and not stated.
#[verifier::external_body]
fn is_alphanumeric(c: char) -> (r: bool)
    ensures
        r == char_alphanumeric(c),
        (c as u32) < 128 ==> (r <==> ((48 <= (c as u32) <= 57) || (65 <= (c as u32) <= 90) || (97
            <= (c as u32) <= 122))),
{
    c.is_alphanumeric()
}

/// Whether a token is whitespace.
#[derive(Clone, Copy, Debug, PartialEq, Eq, Structural)]
pub enum TokenKind {
    Whitespace,
    Other,
}

/// A token of a line: its byte range and kind.
#[derive(Debug)]
pub struct Token {
    pub range: Range<usize>,
    pub kind: TokenKind,
}

/// The class of a character for tokenizing: whitespace, word characters (alphanumeric or
/// `_`), and everything else.
pub open spec fn char_class(c: char) -> u8 {
    if is_ws(c) {
        0
    } else if char_alphanumeric(c) || c == '_' {
        1
    } else {
        2
    }
}

/// The number of bytes of `c` in UTF-8.
pub open spec fn utf8_width(c: char) -> nat {
    if (c as u32) < 0x80 {
        1
    } else if (c as u32) < 0x800 {
        2
    } else if (c as u32) < 0x10000 {
        3
    } else {
        4
    }
}

/// The byte offset of character `i` of `cs`.
pub open spec fn byte_offset(cs: Seq<char>, i: int) -> nat
    decreases i,
{
    if i <= 0 || i > cs.len() {
        0
    } else {
        byte_offset(cs, i - 1) + utf8_width(cs[i - 1])
    }
}

/// The end of the run of characters of class `k` that continues at `j`.
pub open spec fn class_run_end(cs: Seq<char>, j: int, k: u8) -> int
    decreases cs.len() - j,
{
    if 0 <= j < cs.len() && char_class(cs[j]) == k {
        class_run_end(cs, j + 1, k)
    } else {
        j
    }
}

proof fn lemma_class_run_end(cs: Seq<char>, j: int, k: u8)
    requires
        0 <= j <= cs.len(),
    ensures
        j <= class_run_end(cs, j, k) <= cs.len(),
    decreases cs.len() - j,
{
    if j < cs.len() && char_class(cs[j]) == k {
        lemma_class_run_end(cs, j + 1, k);
    }
}

/// The tokens of `cs` from character `i` on, as character ranges: maximal runs of one class.
pub open spec fn char_tokens(cs: Seq<char>, i: int) -> Seq<(int, int)>
    decreases cs.len() - i,
{
    if i < 0 || i >= cs.len() {
        Seq::empty()
    } else {
        let e = class_run_end(cs, i + 1, char_class(cs[i]));
        if e <= i || e > cs.len() {
            Seq::empty()
        } else {
            seq![(i, e)] + char_tokens(cs, e)
        }
    }
}

/// The value of a token: byte start, byte end, kind.
pub open spec fn token_v(t: Token) -> (usize, usize, TokenKind) {
    (t.range.start, t.range.end, t.kind)
}

/// The tokens of a text: maximal runs of whitespace, of word characters, and of other
/// characters, with their byte ranges.
pub open spec fn tokens_of(cs: Seq<char>) -> Seq<(usize, usize, TokenKind)> {
    char_tokens(cs, 0).map_values(
        |r: (int, int)|
            (
                byte_offset(cs, r.0) as usize,
                byte_offset(cs, r.1) as usize,
                if char_class(cs[r.0]) == 0 {
                    TokenKind::Whitespace
                } else {
                    TokenKind::Other
                },
            ),
    )
}

/// The text is small enough that its byte offsets fit in `usize`.
pub open spec fn fits(cs: Seq<char>) -> bool {
    byte_offset(cs, cs.len() as int) <= usize::MAX
}

proof fn lemma_byte_offset_mono(cs: Seq<char>, a: int, b: int)
    requires
        0 <= a <= b <= cs.len(),
    ensures
        byte_offset(cs, a) <= byte_offset(cs, b),
    decreases b - a,
{
    if a < b {
        lemma_byte_offset_mono(cs, a, b - 1);
    }
}

fn char_class_exec(c: char) -> (k: u8)
    ensures
        k == char_class(c),
{
    if char_is_whitespace(c) {
        0
    } else if is_alphanumeric(c) || c == '_' {
        1
    } else {
        2
    }
}

fn utf8_width_exec(c: char) -> (w: usize)
    ensures
        w == utf8_width(c),
{
    let u = c as u32;
    if u < 0x80 {
        1
    } else if u < 0x800 {
        2
    } else if u < 0x10000 {
        3
    } else {
        4
    }
}

/// The tokens of `cs` as character ranges, with their byte ranges.
fn char_token_runs(cs: &Vec<char>) -> (r: (Vec<(usize, usize)>, Vec<Token>))
    requires
        fits(cs@),
    ensures
        r.0@.map_values(|p: (usize, usize)| (p.0 as int, p.1 as int)) == char_tokens(cs@, 0),
        r.1@.map_values(|t: Token| token_v(t)) == tokens_of(cs@),
        r.0@.len() == r.1@.len(),
{
    let ghost all = char_tokens(cs@, 0);
    let mut runs: Vec<(usize, usize)> = Vec::new();
    let mut toks: Vec<Token> = Vec::new();
    let mut i: usize = 0;
    let mut byte: usize = 0;
    while i < cs.len()
        invariant
            i <= cs@.len(),
            fits(cs@),
            byte == byte_offset(cs@, i as int),
            all == char_tokens(cs@, 0),
            all == runs@.map_values(|p: (usize, usize)| (p.0 as int, p.1 as int)) + char_tokens(
                cs@,
                i as int,
            ),
            runs@.len() == toks@.len(),
            toks@.map_values(|t: Token| token_v(t)) == tokens_of(cs@).take(runs@.len() as int),
            runs@.len() <= all.len(),
        decreases cs@.len() - i,
    {
        let start = i;
        let start_byte = byte;
        let k = char_class_exec(cs[i]);
        proof {
            lemma_byte_offset_mono(cs@, i as int + 1, cs@.len() as int);
        }
        byte = byte + utf8_width_exec(cs[i]);
        i = i + 1;
        while i < cs.len() && char_class_exec(cs[i]) == k
            invariant
                start < i <= cs@.len(),
                fits(cs@),
                k == char_class(cs@[start as int]),
                byte == byte_offset(cs@, i as int),
                class_run_end(cs@, start + 1, k) == class_run_end(cs@, i as int, k),
            decreases cs@.len() - i,
        {
            proof {
                lemma_byte_offset_mono(cs@, i as int + 1, cs@.len() as int);
            }
            byte = byte + utf8_width_exec(cs[i]);
            i = i + 1;
        }
        proof {
            lemma_class_run_end(cs@, start + 1, k);
            let rv = runs@.map_values(|p: (usize, usize)| (p.0 as int, p.1 as int));
            assert(char_tokens(cs@, start as int) == seq![(start as int, i as int)] + char_tokens(
                cs@,
                i as int,
            ));
            assert(rv.push((start as int, i as int)) + char_tokens(cs@, i as int) =~= rv
                + char_tokens(cs@, start as int));
        }
        let ghost rv0 = runs@.map_values(|p: (usize, usize)| (p.0 as int, p.1 as int));
        let ghost tv0 = toks@.map_values(|t: Token| token_v(t));
        runs.push((start, i));
        let kind = if k == 0 {
            TokenKind::Whitespace
        } else {
            TokenKind::Other
        };
        toks.push(Token { range: start_byte..byte, kind });
        proof {
            let rv = runs@.map_values(|p: (usize, usize)| (p.0 as int, p.1 as int));
            assert(rv =~= rv0.push((start as int, i as int)));
            assert(all == rv + char_tokens(cs@, i as int));
            assert(all[rv0.len() as int] == (start as int, i as int));
            assert(tokens_of(cs@)[rv0.len() as int] == (start_byte, byte, kind));
            assert(toks@.map_values(|t: Token| token_v(t)) =~= tokens_of(cs@).take(
                runs@.len() as int,
            ));
        }
    }
    proof {
        assert(char_tokens(cs@, i as int) =~= Seq::<(int, int)>::empty());
        assert(all =~= runs@.map_values(|p: (usize, usize)| (p.0 as int, p.1 as int)));
        assert(tokens_of(cs@).take(runs@.len() as int) =~= tokens_of(cs@));
    }
    (runs, toks)
}

/// The tokens of a line for word-level diffing: maximal runs of whitespace, of word
/// characters, and of other characters, with their byte ranges.
pub fn tokenize_for_word_diff(s: &str) -> (out: Vec<Token>)
    requires
        fits(s@),
    ensures
        out@.map_values(|t: Token| token_v(t)) == tokens_of(s@),
{
    let cs = str_to_chars(s);
    let (_, toks) = char_token_runs(&cs);
    toks
}

} // verus!

verus! {

/// The length of the common prefix of `a` and `b`, counting from `i`.
pub open spec fn common_prefix(a: Seq<char>, b: Seq<char>, i: int) -> int
    decreases a.len() - i,
{
    if 0 <= i < a.len() && i < b.len() && a[i] == b[i] {
        common_prefix(a, b, i + 1)
    } else {
        i
    }
}

/// Character `t` from the end is the same in `a` and `b`.
pub open spec fn same_from_end(a: Seq<char>, b: Seq<char>, t: int) -> bool {
    a[a.len() - 1 - t] == b[b.len() - 1 - t]
}

/// The length of the common suffix of `a` and `b`, counting from `k`.
pub open spec fn common_suffix(a: Seq<char>, b: Seq<char>, k: int) -> int
    decreases a.len() - k,
{
    if 0 <= k < a.len() && k < b.len() && a[a.len() - 1 - k] == b[b.len() - 1 - k] {
        common_suffix(a, b, k + 1)
    } else {
        k
    }
}

/// The changed middle of each side once the common prefix and, after it, the common
/// suffix are cut off: one byte range per side, or none when that side's middle is empty.
pub open spec fn affix_ranges(o: Seq<char>, n: Seq<char>) -> (Seq<(usize, usize)>, Seq<(usize, usize)>) {
    let p = common_prefix(o, n, 0);
    let q = common_suffix(o.skip(p), n.skip(p), 0);
    let ps = byte_offset(o, p) as int;
    let olen = byte_offset(o, o.len() as int) as int;
    let nlen = byte_offset(n, n.len() as int) as int;
    let qs = olen - byte_offset(o, o.len() - q) as int;
    let os = if ps < olen {
        ps
    } else {
        olen
    };
    let oe0 = if olen >= qs {
        olen - qs
    } else {
        0
    };
    let oe = if oe0 > os {
        oe0
    } else {
        os
    };
    let ns = if ps < nlen {
        ps
    } else {
        nlen
    };
    let ne0 = if nlen >= qs {
        nlen - qs
    } else {
        0
    };
    let ne = if ne0 > ns {
        ne0
    } else {
        ns
    };
    (
        if oe > os {
            seq![(os as usize, oe as usize)]
        } else {
            Seq::empty()
        },
        if ne > ns {
            seq![(ns as usize, ne as usize)]
        } else {
            Seq::empty()
        },
    )
}

proof fn lemma_common_prefix_range(a: Seq<char>, b: Seq<char>, i: int)
    requires
        0 <= i <= a.len(),
        i <= b.len(),
    ensures
        i <= common_prefix(a, b, i) <= a.len(),
        common_prefix(a, b, i) <= b.len(),
        forall|t: int| i <= t < common_prefix(a, b, i) ==> a[t] == b[t],
    decreases a.len() - i,
{
    if i < a.len() && i < b.len() && a[i] == b[i] {
        lemma_common_prefix_range(a, b, i + 1);
    }
}

proof fn lemma_common_suffix_range(a: Seq<char>, b: Seq<char>, k: int)
    requires
        0 <= k <= a.len(),
        k <= b.len(),
    ensures
        k <= common_suffix(a, b, k) <= a.len(),
        common_suffix(a, b, k) <= b.len(),
        forall|t: int| k <= t < common_suffix(a, b, k) ==> #[trigger] same_from_end(a, b, t),
    decreases a.len() - k,
{
    if k < a.len() && k < b.len() && a[a.len() - 1 - k] == b[b.len() - 1 - k] {
        lemma_common_suffix_range(a, b, k + 1);
    }
}

proof fn lemma_same_prefix_bytes(a: Seq<char>, b: Seq<char>, p: int)
    requires
        0 <= p <= a.len(),
        p <= b.len(),
        forall|t: int| 0 <= t < p ==> a[t] == b[t],
    ensures
        byte_offset(a, p) == byte_offset(b, p),
    decreases p,
{
    if p > 0 {
        lemma_same_prefix_bytes(a, b, p - 1);
    }
}

fn byte_len(cs: &Vec<char>, upto: usize) -> (b: usize)
    requires
        upto <= cs@.len(),
        fits(cs@),
    ensures
        b == byte_offset(cs@, upto as int),
{
    let mut b: usize = 0;
    let mut i: usize = 0;
    while i < upto
        invariant
            i <= upto <= cs@.len(),
            fits(cs@),
            b == byte_offset(cs@, i as int),
        decreases upto - i,
    {
        proof {
            lemma_byte_offset_mono(cs@, i as int + 1, cs@.len() as int);
        }
        b = b + utf8_width_exec(cs[i]);
        i = i + 1;
    }
    b
}

fn range_list(start: usize, end: usize) -> (v: Vec<Range<usize>>)
    ensures
        ranges_v(v@) == if end > start {
            seq![(start, end)]
        } else {
            Seq::<(usize, usize)>::empty()
        },
{
    let mut v: Vec<Range<usize>> = Vec::new();
    if end > start {
        v.push(start..end);
    }
    assert(ranges_v(v@) =~= if end > start {
        seq![(start, end)]
    } else {
        Seq::<(usize, usize)>::empty()
    });
    v
}

fn affix_ranges_chars(o: &Vec<char>, n: &Vec<char>) -> (r: (Vec<Range<usize>>, Vec<Range<usize>>))
    requires
        fits(o@),
        fits(n@),
    ensures
        (ranges_v(r.0@), ranges_v(r.1@)) == affix_ranges(o@, n@),
{
    let mut p: usize = 0;
    while p < o.len() && p < n.len() && o[p] == n[p]
        invariant
            p <= o@.len(),
            p <= n@.len(),
            common_prefix(o@, n@, 0) == common_prefix(o@, n@, p as int),
        decreases o@.len() - p,
    {
        p = p + 1;
    }
    proof {
        lemma_common_prefix_range(o@, n@, 0);
    }
    let ghost ot = o@.skip(p as int);
    let ghost nt = n@.skip(p as int);
    let ol = o.len();
    let nl = n.len();
    let mut q: usize = 0;
    while p + q < ol && p + q < nl && o[ol - 1 - q] == n[nl - 1 - q]
        invariant
            p <= ol,
            p <= nl,
            ol == o@.len(),
            nl == n@.len(),
            ot == o@.skip(p as int),
            nt == n@.skip(p as int),
            q <= ot.len(),
            q <= nt.len(),
            common_suffix(ot, nt, 0) == common_suffix(ot, nt, q as int),
        decreases ol - p - q,
    {
        assert(ot[ot.len() - 1 - q] == o@[ol - 1 - q]);
        assert(nt[nt.len() - 1 - q] == n@[nl - 1 - q]);
        q = q + 1;
    }
    proof {
        if p + q < ol && p + q < nl {
            assert(ot[ot.len() - 1 - q] == o@[ol - 1 - q]);
            assert(nt[nt.len() - 1 - q] == n@[nl - 1 - q]);
        }
        lemma_common_suffix_range(ot, nt, 0);
    }
    let ps = byte_len(o, p);
    let olen = byte_len(o, ol);
    let nlen = byte_len(n, nl);
    let keep = byte_len(o, ol - q);
    proof {
        lemma_byte_offset_mono(o@, (ol - q) as int, ol as int);
        lemma_byte_offset_mono(o@, p as int, ol as int);
        lemma_byte_offset_mono(n@, p as int, nl as int);
    }
    let qs = olen - keep;
    let os = if ps < olen {
        ps
    } else {
        olen
    };
    let oe0 = if olen >= qs {
        olen - qs
    } else {
        0
    };
    let oe = if oe0 > os {
        oe0
    } else {
        os
    };
    let ns = if ps < nlen {
        ps
    } else {
        nlen
    };
    let ne0 = if nlen >= qs {
        nlen - qs
    } else {
        0
    };
    let ne = if ne0 > ns {
        ne0
    } else {
        ns
    };
    (range_list(os, oe), range_list(ns, ne))
}

/// The fallback for lines too long (or empty) for token diffing: the bytes between the
/// common prefix and the common suffix of the two lines.
pub fn fallback_affix_diff_ranges(old: &str, new: &str) -> (r: (Vec<Range<usize>>, Vec<Range<usize>>))
    requires
        fits(old@),
        fits(new@),
    ensures
        (ranges_v(r.0@), ranges_v(r.1@)) == affix_ranges(old@, new@),
{
    let o = str_to_chars(old);
    let n = str_to_chars(new);
    affix_ranges_chars(&o, &n)
}

} // verus!

verus! {

/// The texts of the tokens of `cs`.
pub open spec fn token_texts(cs: Seq<char>) -> Seq<Seq<char>> {
    char_tokens(cs, 0).map_values(|r: (int, int)| cs.subrange(r.0, r.1))
}

/// The texts from position `i` on that `keep` marks, in order.
pub open spec fn kept_from(texts: Seq<Seq<char>>, keep: Seq<bool>, i: int) -> Seq<Seq<char>>
    decreases texts.len() - i,
{
    if i < 0 || i >= texts.len() {
        Seq::empty()
    } else {
        (if keep[i] {
            seq![texts[i]]
        } else {
            Seq::empty()
        }) + kept_from(texts, keep, i + 1)
    }
}

/// The byte ranges of the tokens before `n` that `keep` leaves unmarked and that are not
/// whitespace.
pub open spec fn changed_ranges(toks: Seq<(usize, usize, TokenKind)>, keep: Seq<bool>, n: int) -> Seq<
    (usize, usize),
>
    decreases n,
{
    if n <= 0 {
        Seq::empty()
    } else {
        changed_ranges(toks, keep, n - 1) + if !keep[n - 1] && toks[n - 1].2 == TokenKind::Other {
            seq![(toks[n - 1].0, toks[n - 1].1)]
        } else {
            Seq::empty()
        }
    }
}

/// `keep_a` and `keep_b` mark a common subsequence of the two token lists: the marked
/// tokens of each side, in order, have the same texts.
pub open spec fn common_marks(
    a: Seq<Seq<char>>,
    keep_a: Seq<bool>,
    b: Seq<Seq<char>>,
    keep_b: Seq<bool>,
) -> bool {
    &&& keep_a.len() == a.len()
    &&& keep_b.len() == b.len()
    &&& kept_from(a, keep_a, 0) == kept_from(b, keep_b, 0)
}

/// The most tokens per side that the token diff handles; longer lines fall back to the
/// common prefix and suffix.
pub const MAX_WORD_DIFF_TOKENS: usize = 128;

proof fn lemma_kept_from_frame(texts: Seq<Seq<char>>, k1: Seq<bool>, k2: Seq<bool>, i: int)
    requires
        k1.len() == texts.len(),
        k2.len() == texts.len(),
        forall|j: int| i <= j < texts.len() ==> k1[j] == k2[j],
    ensures
        kept_from(texts, k1, i) == kept_from(texts, k2, i),
    decreases texts.len() - i,
{
    if 0 <= i < texts.len() {
        lemma_kept_from_frame(texts, k1, k2, i + 1);
    } else if i < 0 {
    }
}

proof fn lemma_kept_from_skip(texts: Seq<Seq<char>>, k: Seq<bool>, a: int, b: int)
    requires
        0 <= a <= b <= texts.len(),
        k.len() == texts.len(),
        forall|j: int| a <= j < b ==> !k[j],
    ensures
        kept_from(texts, k, a) == kept_from(texts, k, b),
    decreases b - a,
{
    if a < b {
        lemma_kept_from_skip(texts, k, a + 1, b);
        assert(kept_from(texts, k, a) =~= kept_from(texts, k, a + 1));
    }
}

fn token_text_list(cs: &Vec<char>, runs: &Vec<(usize, usize)>) -> (texts: Vec<Vec<char>>)
    requires
        runs@.map_values(|p: (usize, usize)| (p.0 as int, p.1 as int)) == char_tokens(cs@, 0),
        forall|k: int| 0 <= k < runs@.len() ==> (#[trigger] runs@[k]).0 <= runs@[k].1 <= cs@.len(),
    ensures
        crate::slash_tree::parts_view(texts@) == token_texts(cs@),
{
    let ghost want = token_texts(cs@);
    let mut texts: Vec<Vec<char>> = Vec::new();
    let mut i: usize = 0;
    while i < runs.len()
        invariant
            i <= runs@.len(),
            want == token_texts(cs@),
            runs@.map_values(|p: (usize, usize)| (p.0 as int, p.1 as int)) == char_tokens(cs@, 0),
            forall|k: int| 0 <= k < runs@.len() ==> (#[trigger] runs@[k]).0 <= runs@[k].1 <= cs@.len(),
            texts@.len() == i,
            crate::slash_tree::parts_view(texts@) == want.take(i as int),
        decreases runs@.len() - i,
    {
        let (a, b) = runs[i];
        let t = crate::text::sub_chars(cs, a, b);
        let ghost before = crate::slash_tree::parts_view(texts@);
        texts.push(t);
        proof {
            assert(crate::slash_tree::parts_view(texts@) =~= before.push(t@));
            assert(char_tokens(cs@, 0)[i as int] == (a as int, b as int));
            assert(want[i as int] == cs@.subrange(a as int, b as int));
            assert(crate::slash_tree::parts_view(texts@) =~= want.take(i + 1));
        }
        i = i + 1;
    }
    assert(want.take(i as int) =~= want);
    texts
}

proof fn lemma_char_tokens_bounds(cs: Seq<char>, i: int)
    requires
        0 <= i <= cs.len(),
    ensures
        forall|k: int|
            0 <= k < char_tokens(cs, i).len() ==> i <= (#[trigger] char_tokens(cs, i)[k]).0
                < char_tokens(cs, i)[k].1 <= cs.len(),
    decreases cs.len() - i,
{
    if i < cs.len() {
        let e = class_run_end(cs, i + 1, char_class(cs[i]));
        lemma_class_run_end(cs, i + 1, char_class(cs[i]));
        lemma_char_tokens_bounds(cs, e);
        let t = char_tokens(cs, i);
        assert forall|k: int| 0 <= k < t.len() implies i <= (#[trigger] t[k]).0 < t[k].1 <= cs.len() by {
            if k > 0 {
                assert(t[k] == char_tokens(cs, e)[k - 1]);
            }
        }
    }
}

} // verus!

verus! {

fn copy_isizes(v: &Vec<isize>) -> (r: Vec<isize>)
    ensures
        r@ == v@,
{
    let mut r: Vec<isize> = Vec::new();
    let mut i: usize = 0;
    while i < v.len()
        invariant
            i <= v@.len(),
            r@ == v@.take(i as int),
        decreases v@.len() - i,
    {
        r.push(v[i]);
        assert(r@ =~= v@.take(i + 1));
        i = i + 1;
    }
    assert(v@.take(i as int) =~= v@);
    r
}

fn false_flags(n: usize) -> (r: Vec<bool>)
    ensures
        r@.len() == n,
        forall|i: int| 0 <= i < n ==> !#[trigger] r@[i],
{
    let mut r: Vec<bool> = Vec::new();
    let mut i: usize = 0;
    while i < n
        invariant
            i <= n,
            r@.len() == i,
            forall|j: int| 0 <= j < i ==> !#[trigger] r@[j],
        decreases n - i,
    {
        r.push(false);
        i = i + 1;
    }
    r
}

/// The entries of round `d` that later rounds read: diagonals `k` with `|k| <= d` and the
/// parity of `d`, each at or right of its diagonal start (`y >= 0`).
spec fn round_entries_ok(v: Seq<isize>, d: int, off: int) -> bool {
    forall|k: int|
        -d <= k <= d && (k + d) % 2 == 0 ==> #[trigger] v[k + off] >= k && v[k + off] >= 0
}

/// What a round of Myers' diff establishes on diagonal `k`, the round before being `prev`.
spec fn cur_fact(
    a: Seq<Seq<char>>,
    b: Seq<Seq<char>>,
    v: Seq<isize>,
    prev: Seq<isize>,
    d: int,
    k: int,
    off: int,
) -> bool {
    let x = v[k + off] as int;
    &&& 0 <= x
    &&& 0 <= x - k
    &&& reach_cost(a, b, x, x - k) <= d
    &&& furthest(a, b, d, k, x)
    &&& !(x >= a.len() && x - k >= b.len())
    &&& snake_ok(a, b, k, start_x(prev, d, k, off), x)
}

/// What the forward pass of Myers' diff hands to the backward pass: every round but the
/// last is complete, and the last one, round `edit_dist` of both sides, reaches the end of
/// both sides on diagonal `a.len() - b.len()`.
pub open spec fn myers_result(a: Seq<Seq<char>>, b: Seq<Seq<char>>, tv: Seq<Seq<isize>>) -> bool {
    let dd = tv.len() - 1;
    let off = (a.len() + b.len()) as int;
    let kk = a.len() - b.len();
    &&& forall|t: int| 0 <= t < dd ==> #[trigger] round_done(a, b, tv, t, off)
    &&& -dd <= kk <= dd
    &&& (kk + dd) % 2 == 0
    &&& tv[dd][kk + off] == a.len()
    &&& snake_ok(
        a,
        b,
        kk,
        start_x(
            if dd >= 1 {
                tv[dd - 1]
            } else {
                tv[dd]
            },
            dd,
            kk,
            off,
        ),
        a.len() as int,
    )
    &&& dd == edit_dist(a, b, a.len() as int, b.len() as int)
}

proof fn lemma_start_reach(
    a: Seq<Seq<char>>,
    b: Seq<Seq<char>>,
    tv: Seq<Seq<isize>>,
    prev: Seq<isize>,
    d: int,
    k: int,
    off: int,
)
    requires
        0 <= d,
        -d <= k <= d,
        (k + d) % 2 == 0,
        d == 0 ==> k == 0,
        d > 0 ==> round_done(a, b, tv, d - 1, off),
        d > 0 ==> prev == tv[d - 1],
        d > 0 ==> round_entries_ok(prev, d - 1, off),
    ensures
        reach_cost(a, b, start_x(prev, d, k, off), start_x(prev, d, k, off) - k) <= d,
{
    let x0 = start_x(prev, d, k, off);
    if d == 0 {
        assert(reach_cost(a, b, 0, 0) == 0);
    } else if k == -d || (k != d && prev[k - 1 + off] < prev[k + 1 + off]) {
        assert(prev[(k + 1) + off] >= k + 1);
        assert(round_fact(a, b, tv, d - 1, k + 1, off));
        lemma_reach_step(a, b, x0, x0 - (k + 1));
    } else {
        assert(prev[(k - 1) + off] >= k - 1);
        assert(round_fact(a, b, tv, d - 1, k - 1, off));
        lemma_reach_step(a, b, x0 - 1, x0 - k);
    }
}

/// The facts of diagonal `k` of round `d` once its snake has run to `x`.
proof fn lemma_diagonal_fact(
    a: Seq<Seq<char>>,
    b: Seq<Seq<char>>,
    tv: Seq<Seq<isize>>,
    prev: Seq<isize>,
    d: int,
    k: int,
    off: int,
    x: int,
)
    requires
        0 <= d,
        -d <= k <= d,
        (k + d) % 2 == 0,
        d > 0 ==> round_done(a, b, tv, d - 1, off),
        d > 0 ==> prev == tv[d - 1],
        d > 0 ==> round_entries_ok(prev, d - 1, off),
        0 <= start_x(prev, d, k, off),
        snake_ok(a, b, k, start_x(prev, d, k, off), x),
        reach_cost(a, b, x, x - k) <= d,
        0 <= x - k,
        d <= edit_dist(a, b, a.len() as int, b.len() as int),
    ensures
        furthest(a, b, d, k, x),
        x >= a.len() && x - k >= b.len() ==> x == a.len() && x - k == b.len(),
{
    assert forall|j: int|
        -(d - 1) <= j <= d - 1 && (j + d - 1) % 2 == 0 implies #[trigger] furthest(
        a,
        b,
        d - 1,
        j,
        prev[j + off] as int,
    ) by {
        if d >= 1 {
            assert(round_fact(a, b, tv, d - 1, j, off));
        }
    }
    lemma_furthest_step(a, b, prev, d, k, off, x);
}

proof fn lemma_cur_fact_frame(
    a: Seq<Seq<char>>,
    b: Seq<Seq<char>>,
    v0: Seq<isize>,
    v1: Seq<isize>,
    prev: Seq<isize>,
    d: int,
    k: int,
    off: int,
)
    requires
        0 <= d <= off,
        -d <= k,
        (k + d) % 2 == 0,
        0 <= k + off < v0.len(),
        v1 == v0.update(k + off, v1[k + off]),
        forall|kk: int| -d <= kk < k && (kk + d) % 2 == 0 ==> #[trigger] cur_fact(a, b, v0, prev, d, kk, off),
        cur_fact(a, b, v1, prev, d, k, off),
    ensures
        forall|kk: int| -d <= kk < k + 2 && (kk + d) % 2 == 0 ==> #[trigger] cur_fact(a, b, v1, prev, d, kk, off),
{
    assert forall|kk: int| -d <= kk < k + 2 && (kk + d) % 2 == 0 implies #[trigger] cur_fact(
        a,
        b,
        v1,
        prev,
        d,
        kk,
        off,
    ) by {
        if kk < k {
            assert(cur_fact(a, b, v0, prev, d, kk, off));
            assert(v1[kk + off] == v0[kk + off]);
        } else if kk == k + 1 {
            assert((kk + d) % 2 != 0);
        }
    }
}

/// The forward pass of Myers' diff over token texts: the furthest points reached on each
/// diagonal after each round, until a round reaches the end of both sides.
#[verifier::spinoff_prover]
#[verifier::rlimit(100)]
fn myers_trace(a: &Vec<Vec<char>>, b: &Vec<Vec<char>>) -> (trace: Vec<Vec<isize>>)
    requires
        1 <= a@.len() <= MAX_WORD_DIFF_TOKENS,
        1 <= b@.len() <= MAX_WORD_DIFF_TOKENS,
    ensures
        trace@.len() >= 1,
        trace@.len() <= a@.len() + b@.len() + 1,
        forall|t: int|
            0 <= t < trace@.len() ==> (#[trigger] trace@[t])@.len() == 2 * (a@.len() + b@.len()) + 1,
        forall|t: int, i: int|
            0 <= t < trace@.len() && 0 <= i < 2 * (a@.len() + b@.len()) + 1 ==> 0 <= #[trigger] trace@[t]@[i]
                <= 2 * (a@.len() + b@.len()),
        myers_result(
            crate::slash_tree::parts_view(a@),
            crate::slash_tree::parts_view(b@),
            trace_view(trace@),
        ),
{
    let ghost av = crate::slash_tree::parts_view(a@);
    let ghost bv = crate::slash_tree::parts_view(b@);
    let n: isize = a.len() as isize;
    let m: isize = b.len() as isize;
    let max: usize = a.len() + b.len();
    let offset: isize = max as isize;
    let width: usize = 2 * max + 1;
    let mut v: Vec<isize> = Vec::new();
    let mut i: usize = 0;
    while i < width
        invariant
            i <= width,
            v@.len() == i,
            forall|j: int| 0 <= j < i ==> #[trigger] v@[j] == 0,
        decreases width - i,
    {
        v.push(0);
        i = i + 1;
    }
    let mut trace: Vec<Vec<isize>> = Vec::new();
    let mut d: usize = 0;
    loop
        invariant_except_break
            d <= max,
            trace@.len() == d,
            d > 0 ==> round_entries_ok(v@, d - 1, offset as int),
            forall|j: int| 0 <= j < width ==> 0 <= #[trigger] v@[j] && (v@[j] < n + d || v@[j] == 0),
            d == 0 ==> forall|j: int| 0 <= j < width ==> #[trigger] v@[j] == 0,
            d > 0 ==> v@ == trace_view(trace@)[d - 1],
            forall|t: int| 0 <= t < d ==> #[trigger] round_done(av, bv, trace_view(trace@), t, offset as int),
        invariant
            av == crate::slash_tree::parts_view(a@),
            bv == crate::slash_tree::parts_view(b@),
            n == a@.len(),
            m == b@.len(),
            1 <= n <= 128,
            1 <= m <= 128,
            max == n + m,
            offset == max,
            width == 2 * max + 1,
            v@.len() == width,
            trace@.len() <= max + 1,
            forall|t: int| 0 <= t < trace@.len() ==> (#[trigger] trace@[t])@.len() == width,
            forall|t: int, j: int|
                0 <= t < trace@.len() && 0 <= j < width ==> 0 <= #[trigger] trace@[t]@[j] <= 2 * max,
        ensures
            trace@.len() >= 1,
            trace@.len() <= max + 1,
            myers_result(av, bv, trace_view(trace@)),
        decreases max - d,
    {
        let di: isize = d as isize;
        let mut k: isize = -di;
        let mut done = false;
        let ghost v_prev = v@;
        let ghost tv = trace_view(trace@);
        proof {
            lemma_end_not_before(av, bv, tv, d as int, offset as int);
            if d > 0 {
                assert(round_done(av, bv, tv, d - 1, offset as int));
            }
        }
        while k <= di
            invariant_except_break
                !done,
                -di <= k <= di + 2,
                (k + di) % 2 == 0,
                forall|kk: int|
                    -di <= kk < k && (kk + di) % 2 == 0 ==> #[trigger] v@[kk + offset] >= kk && v@[kk
                        + offset] >= 0,
                forall|kk: int|
                    -di <= kk < k && (kk + di) % 2 == 0 ==> #[trigger] cur_fact(
                        av,
                        bv,
                        v@,
                        v_prev,
                        d as int,
                        kk,
                        offset as int,
                    ),
                forall|j: int|
                    0 <= j < width && (j - offset + di) % 2 != 0 ==> #[trigger] v@[j] == v_prev[j],
            invariant
                av == crate::slash_tree::parts_view(a@),
                bv == crate::slash_tree::parts_view(b@),
                d <= max,
                di == d,
                n == a@.len(),
                m == b@.len(),
                1 <= n <= 128,
                1 <= m <= 128,
                max == n + m,
                offset == max,
                width == 2 * max + 1,
                v@.len() == width,
                v_prev.len() == width,
                forall|j: int| 0 <= j < width ==> 0 <= #[trigger] v@[j] <= n + d,
                forall|j: int| 0 <= j < width ==> 0 <= #[trigger] v_prev[j] && (v_prev[j] < n + d
                    || v_prev[j] == 0),
                d == 0 ==> forall|j: int| 0 <= j < width ==> #[trigger] v_prev[j] == 0,
                d > 0 ==> round_entries_ok(v_prev, d - 1, offset as int),
                tv == trace_view(trace@),
                trace@.len() == d,
                d > 0 ==> v_prev == tv[d - 1],
                d > 0 ==> round_done(av, bv, tv, d - 1, offset as int),
                d <= edit_dist(av, bv, n as int, m as int),
            ensures
                !done ==> round_entries_ok(v@, d as int, offset as int),
                !done ==> forall|kk: int|
                    -di <= kk <= di && (kk + di) % 2 == 0 ==> #[trigger] cur_fact(
                        av,
                        bv,
                        v@,
                        v_prev,
                        d as int,
                        kk,
                        offset as int,
                    ),
                done ==> -di <= n - m <= di && (n - m + di) % 2 == 0 && v@[n - m + offset] == n
                    && snake_ok(av, bv, n - m, start_x(v_prev, d as int, n - m, offset as int), n as int),
                done ==> edit_dist(av, bv, n as int, m as int) <= d,
            decreases di + 2 - k,
        {
            let k_ix = (k + offset) as usize;
            let use_down = if k == -di {
                true
            } else if k == di {
                false
            } else {
                v[(k - 1 + offset) as usize] < v[(k + 1 + offset) as usize]
            };
            proof {
                if use_down {
                    if d == 0 {
                        assert(v@[k + 1 + offset] == v_prev[k + 1 + offset]);
                    } else {
                        assert(v@[k + 1 + offset] == v_prev[k + 1 + offset]);
                        assert(v_prev[(k + 1) + offset] >= k + 1);
                    }
                } else {
                    assert(v@[k - 1 + offset] == v_prev[k - 1 + offset]);
                    assert(v_prev[(k - 1) + offset] >= k - 1);
                }
                if k != -di && k != di {
                    assert(v@[k - 1 + offset] == v_prev[k - 1 + offset]);
                    assert(v@[k + 1 + offset] == v_prev[k + 1 + offset]);
                }
            }
            let x0: isize = if use_down {
                v[(k + 1 + offset) as usize]
            } else {
                v[(k - 1 + offset) as usize] + 1
            };
            proof {
                assert(x0 == start_x(v_prev, d as int, k as int, offset as int));
                lemma_start_reach(av, bv, tv, v_prev, d as int, k as int, offset as int);
            }
            let mut x: isize = x0;
            let mut y: isize = x - k;
            while x < n && y < m && crate::text::chars_eq(&a[x as usize], &b[y as usize])
                invariant
                    av == crate::slash_tree::parts_view(a@),
                    bv == crate::slash_tree::parts_view(b@),
                    0 <= x0 <= x,
                    x0 <= n + d,
                    x <= n + d,
                    y == x - k,
                    y >= 0,
                    n == a@.len(),
                    m == b@.len(),
                    reach_cost(av, bv, x as int, y as int) <= d,
                    forall|s: int| x0 <= s < x ==> #[trigger] diag_match(av, bv, s, k as int),
                decreases n - x,
            {
                proof {
                    assert(av[x as int] == a@[x as int]@);
                    assert(bv[y as int] == b@[y as int]@);
                    lemma_reach_step(av, bv, x as int, y as int);
                    assert(diag_match(av, bv, x as int, k as int));
                }
                x = x + 1;
                y = y + 1;
            }
            proof {
                if x < n && y < m {
                    assert(av[x as int] == a@[x as int]@);
                    assert(bv[y as int] == b@[y as int]@);
                }
                assert(!diag_match(av, bv, x as int, k as int));
                assert(snake_ok(av, bv, k as int, x0 as int, x as int));
                lemma_diagonal_fact(av, bv, tv, v_prev, d as int, k as int, offset as int, x as int);
            }
            let ghost v_before = v@;
            v.set(k_ix, x);
            if x >= n && y >= m {
                proof {
                    assert(x == n && y == m);
                    assert(reach_cost(av, bv, x as int, y as int) == edit_dist(av, bv, n as int, m as int));
                }
                done = true;
                break;
            }
            proof {
                assert(v@[k + offset] == x);
                assert(cur_fact(av, bv, v@, v_prev, d as int, k as int, offset as int));
                lemma_cur_fact_frame(av, bv, v_before, v@, v_prev, d as int, k as int, offset as int);
            }
            k = k + 2;
        }
        let snapshot = copy_isizes(&v);
        let ghost tv_old = trace_view(trace@);
        trace.push(snapshot);
        proof {
            let tvn = trace_view(trace@);
            assert(tvn =~= tv_old.push(v@));
            assert forall|t: int| 0 <= t < d implies #[trigger] round_done(av, bv, tvn, t, offset as int) by {
                assert(round_done(av, bv, tv_old, t, offset as int));
                assert forall|kk: int| -t <= kk <= t && (kk + t) % 2 == 0 implies #[trigger] round_fact(
                    av,
                    bv,
                    tvn,
                    t,
                    kk,
                    offset as int,
                ) by {
                    assert(round_fact(av, bv, tv_old, t, kk, offset as int));
                    assert(tvn[t] == tv_old[t]);
                    if t >= 1 {
                        assert(tvn[t - 1] == tv_old[t - 1]);
                    }
                }
            }
            if !done {
                assert forall|kk: int| -di <= kk <= di && (kk + di) % 2 == 0 implies #[trigger] round_fact(
                    av,
                    bv,
                    tvn,
                    d as int,
                    kk,
                    offset as int,
                ) by {
                    assert(cur_fact(av, bv, v@, v_prev, d as int, kk, offset as int));
                    assert(tvn[d as int] == v@);
                    if d >= 1 {
                        assert(tvn[d - 1] == v_prev);
                    }
                }
                assert(round_done(av, bv, tvn, d as int, offset as int));
            } else {
                assert(tvn[d as int] == v@);
                if d >= 1 {
                    assert(tvn[d - 1] == v_prev);
                }
            }
        }
        if done || d == max {
            proof {
                if !done {
                    lemma_end_not_before(av, bv, trace_view(trace@), d + 1, offset as int);
                    lemma_lcs_steps(av, bv, n as int, m as int);
                    assert(false);
                }
            }
            break;
        }
        d = d + 1;
    }
    trace
}

} // verus!

verus! {

/// The matched token pairs `(x, x - k)` that a snake on diagonal `k` passes, from `x0` up
/// to `x`, in order.
pub open spec fn snake_pairs(x0: int, x: int, k: int) -> Seq<(int, int)>
    decreases x - x0,
{
    if x <= x0 {
        Seq::empty()
    } else {
        snake_pairs(x0, x - 1, k).push((x - 1, x - 1 - k))
    }
}

/// The matched token pairs that Myers' backward pass collects over the trace `tv`, from
/// point `(x, y)` reached in round `d`: each round steps back to the furthest point of
/// round `d - 1` on the diagonal below (`k + 1`) when `k` is `-d`, or when it is not `d` and
/// that diagonal reaches further than the one to the right (`k - 1`); else to the one to the
/// right; and keeps the snake followed from there. Round 0 keeps the leading diagonal.
pub open spec fn myers_pairs(tv: Seq<Seq<isize>>, off: int, d: int, x: int, y: int) -> Seq<(int, int)>
    decreases d,
{
    if d <= 0 {
        snake_pairs(0, x, 0)
    } else {
        let k = x - y;
        let prev = tv[d - 1];
        let down = k == -d || (k != d && prev[k - 1 + off] < prev[k + 1 + off]);
        let pk = if down {
            k + 1
        } else {
            k - 1
        };
        let px = prev[pk + off] as int;
        myers_pairs(tv, off, d - 1, px, px - pk) + snake_pairs(start_x(prev, d, k, off), x, k)
    }
}

/// The marks of the first `n` tokens of one side: token `i` is marked when a pair's side
/// `first` (or else second) is `i`.
pub open spec fn pair_marks(pairs: Seq<(int, int)>, n: int, first: bool) -> Seq<bool> {
    Seq::new(
        n as nat,
        |i: int|
            pairs.map_values(
                |p: (int, int)|
                    if first {
                        p.0
                    } else {
                        p.1
                    },
            ).contains(i),
    )
}

/// The marks Myers' diff gives both sides: the pairs its backward pass collects from the
/// end of both sides over a trace `tv` that its forward pass gives.
pub open spec fn myers_marks(a: Seq<Seq<char>>, b: Seq<Seq<char>>, ko: Seq<bool>, kn: Seq<bool>) -> bool {
    exists|tv: Seq<Seq<isize>>|
        #![trigger myers_result(a, b, tv)]
        {
            let pairs = myers_pairs(
                tv,
                (a.len() + b.len()) as int,
                tv.len() - 1,
                a.len() as int,
                b.len() as int,
            );
            &&& myers_result(a, b, tv)
            &&& ko == pair_marks(pairs, a.len() as int, true)
            &&& kn == pair_marks(pairs, b.len() as int, false)
        }
}

proof fn lemma_marks_prepend(done: Seq<(int, int)>, p: (int, int), first: bool, i: int)
    ensures
        (seq![p] + done).map_values(|q: (int, int)| if first { q.0 } else { q.1 }).contains(i) <==> (
        (if first { p.0 } else { p.1 }) == i || done.map_values(
            |q: (int, int)|
                if first {
                    q.0
                } else {
                    q.1
                },
        ).contains(i)),
{
    let f = |q: (int, int)| if first { q.0 } else { q.1 };
    let all = (seq![p] + done).map_values(f);
    let rest = done.map_values(f);
    assert(all =~= seq![f(p)] + rest);
    if all.contains(i) {
        let j = choose|j: int| 0 <= j < all.len() && all[j] == i;
        if j > 0 {
            assert(rest[j - 1] == i);
        }
    }
    if rest.contains(i) {
        let j = choose|j: int| 0 <= j < rest.len() && rest[j] == i;
        assert(all[j + 1] == i);
    }
    if f(p) == i {
        assert(all[0] == i);
    }
}

/// Marking the token that a new first pair names keeps the marks those of the pairs.
proof fn lemma_marks_step(
    k0: Seq<bool>,
    k1: Seq<bool>,
    done: Seq<(int, int)>,
    p: (int, int),
    n: int,
    first: bool,
)
    requires
        k0 == pair_marks(done, n, first),
        0 <= (if first { p.0 } else { p.1 }) < n,
        k1 == k0.update(if first { p.0 } else { p.1 }, true),
    ensures
        k1 == pair_marks(seq![p] + done, n, first),
{
    assert forall|i: int| 0 <= i < n implies k1[i] == pair_marks(seq![p] + done, n, first)[i] by {
        lemma_marks_prepend(done, p, first, i);
    }
    assert(k1 =~= pair_marks(seq![p] + done, n, first));
}

/// Two traces that both satisfy `myers_result` agree on the round-`d - 1` point of diagonal
/// `j` when both points lie within both sides.
proof fn lemma_round_point_agrees(
    a: Seq<Seq<char>>,
    b: Seq<Seq<char>>,
    tv1: Seq<Seq<isize>>,
    tv2: Seq<Seq<isize>>,
    t: int,
    j: int,
)
    requires
        round_fact(a, b, tv1, t, j, (a.len() + b.len()) as int),
        round_fact(a, b, tv2, t, j, (a.len() + b.len()) as int),
        0 <= tv1[t][j + (a.len() + b.len())] <= a.len(),
        tv1[t][j + (a.len() + b.len())] - j <= b.len(),
        0 <= tv2[t][j + (a.len() + b.len())] <= a.len(),
        tv2[t][j + (a.len() + b.len())] - j <= b.len(),
    ensures
        tv1[t][j + (a.len() + b.len())] == tv2[t][j + (a.len() + b.len())],
{
    let off = (a.len() + b.len()) as int;
    let x1 = tv1[t][j + off] as int;
    let x2 = tv2[t][j + off] as int;
    assert(reach_cost(a, b, x1, x1 - j) == edit_dist(a, b, x1, x1 - j));
    assert(reach_cost(a, b, x2, x2 - j) == edit_dist(a, b, x2, x2 - j));
    assert(furthest(a, b, t, j, x1));
    assert(furthest(a, b, t, j, x2));
    assert(edit_dist(a, b, x1, x1 - j) <= t);
    assert(edit_dist(a, b, x2, x2 - j) <= t);
}

/// Two traces that both satisfy `myers_result` give the same pairs when backtracked from
/// the same point of round `d`.
proof fn lemma_myers_pairs_agree(
    a: Seq<Seq<char>>,
    b: Seq<Seq<char>>,
    tv1: Seq<Seq<isize>>,
    tv2: Seq<Seq<isize>>,
    d: int,
    x: int,
    y: int,
)
    requires
        myers_result(a, b, tv1),
        myers_result(a, b, tv2),
        tv1.len() == tv2.len(),
        0 <= d < tv1.len(),
        0 <= x <= a.len(),
        0 <= y <= b.len(),
        -d <= x - y <= d,
        (x - y + d) % 2 == 0,
        snake_ok(a, b, x - y, start_x(tv1[d - 1], d, x - y, (a.len() + b.len()) as int), x),
        snake_ok(a, b, x - y, start_x(tv2[d - 1], d, x - y, (a.len() + b.len()) as int), x),
    ensures
        myers_pairs(tv1, (a.len() + b.len()) as int, d, x, y) == myers_pairs(
            tv2,
            (a.len() + b.len()) as int,
            d,
            x,
            y,
        ),
    decreases d,
{
    let off = (a.len() + b.len()) as int;
    if d > 0 {
        let k = x - y;
        let p1 = tv1[d - 1];
        let p2 = tv2[d - 1];
        assert(round_done(a, b, tv1, d - 1, off));
        assert(round_done(a, b, tv2, d - 1, off));
        let down1 = k == -d || (k != d && p1[k - 1 + off] < p1[k + 1 + off]);
        let down2 = k == -d || (k != d && p2[k - 1 + off] < p2[k + 1 + off]);
        if k != -d && k != d {
            assert(round_fact(a, b, tv1, d - 1, k + 1, off));
            assert(round_fact(a, b, tv2, d - 1, k + 1, off));
            assert(round_fact(a, b, tv1, d - 1, k - 1, off));
            assert(round_fact(a, b, tv2, d - 1, k - 1, off));
            if down1 && !down2 {
                lemma_round_point_agrees(a, b, tv1, tv2, d - 1, k + 1);
                lemma_round_point_agrees(a, b, tv1, tv2, d - 1, k - 1);
                assert(false);
            }
            if !down1 && down2 {
                lemma_round_point_agrees(a, b, tv1, tv2, d - 1, k + 1);
                lemma_round_point_agrees(a, b, tv1, tv2, d - 1, k - 1);
                assert(false);
            }
        }
        assert(down1 == down2);
        let pk = if down1 {
            k + 1
        } else {
            k - 1
        };
        assert(round_fact(a, b, tv1, d - 1, pk, off));
        assert(round_fact(a, b, tv2, d - 1, pk, off));
        lemma_round_point_agrees(a, b, tv1, tv2, d - 1, pk);
        let px = p1[pk + off] as int;
        assert(start_x(p1, d, k, off) == start_x(p2, d, k, off));
        if d - 1 == 0 {
            assert(start_x(tv1[d - 2], d - 1, pk, off) == start_x(tv1[d - 1], d - 1, pk, off));
            assert(start_x(tv2[d - 2], d - 1, pk, off) == start_x(tv2[d - 1], d - 1, pk, off));
        }
        lemma_myers_pairs_agree(a, b, tv1, tv2, d - 1, px, px - pk);
    }
}

/// Myers' marks are a function of the two token sequences: whichever traces satisfy
/// `myers_result`, the backward pass over them marks the same tokens.
pub proof fn law_myers_marks_unique(
    a: Seq<Seq<char>>,
    b: Seq<Seq<char>>,
    ko1: Seq<bool>,
    kn1: Seq<bool>,
    ko2: Seq<bool>,
    kn2: Seq<bool>,
)
    requires
        myers_marks(a, b, ko1, kn1),
        myers_marks(a, b, ko2, kn2),
    ensures
        ko1 == ko2,
        kn1 == kn2,
{
    let off = (a.len() + b.len()) as int;
    let tv1 = choose|tv: Seq<Seq<isize>>|
        #![trigger myers_result(a, b, tv)]
        {
            let pairs = myers_pairs(
                tv,
                (a.len() + b.len()) as int,
                tv.len() - 1,
                a.len() as int,
                b.len() as int,
            );
            &&& myers_result(a, b, tv)
            &&& ko1 == pair_marks(pairs, a.len() as int, true)
            &&& kn1 == pair_marks(pairs, b.len() as int, false)
        };
    let tv2 = choose|tv: Seq<Seq<isize>>|
        #![trigger myers_result(a, b, tv)]
        {
            let pairs = myers_pairs(
                tv,
                (a.len() + b.len()) as int,
                tv.len() - 1,
                a.len() as int,
                b.len() as int,
            );
            &&& myers_result(a, b, tv)
            &&& ko2 == pair_marks(pairs, a.len() as int, true)
            &&& kn2 == pair_marks(pairs, b.len() as int, false)
        };
    let dd = tv1.len() - 1;
    assert(tv1.len() == tv2.len());
    if dd == 0 {
        assert(start_x(tv1[dd - 1], dd, a.len() - b.len(), off) == 0);
        assert(start_x(tv2[dd - 1], dd, a.len() - b.len(), off) == 0);
    }
    lemma_myers_pairs_agree(a, b, tv1, tv2, dd, a.len() as int, b.len() as int);
}

/// Marks, by backtracking Myers' trace from the ends of both sides, tokens of `a` and `b`
/// that match: the marked tokens of each side, in order, are the same texts, and there are
/// as many of them as a longest common subsequence has.
#[verifier::spinoff_prover]
#[verifier::rlimit(50)]
fn myers_keep(a: &Vec<Vec<char>>, b: &Vec<Vec<char>>) -> (r: (Vec<bool>, Vec<bool>))
    requires
        1 <= a@.len() <= MAX_WORD_DIFF_TOKENS,
        1 <= b@.len() <= MAX_WORD_DIFF_TOKENS,
    ensures
        common_marks(
            crate::slash_tree::parts_view(a@),
            r.0@,
            crate::slash_tree::parts_view(b@),
            r.1@,
        ),
        kept_from(crate::slash_tree::parts_view(a@), r.0@, 0).len() == lcs_len(
            crate::slash_tree::parts_view(a@),
            crate::slash_tree::parts_view(b@),
            a@.len() as int,
            b@.len() as int,
        ),
        myers_marks(
            crate::slash_tree::parts_view(a@),
            crate::slash_tree::parts_view(b@),
            r.0@,
            r.1@,
        ),
{
    let ghost av = crate::slash_tree::parts_view(a@);
    let ghost bv = crate::slash_tree::parts_view(b@);
    let trace = myers_trace(a, b);
    let ghost tv = trace_view(trace@);
    let n: isize = a.len() as isize;
    let m: isize = b.len() as isize;
    let max: usize = a.len() + b.len();
    let offset: isize = max as isize;
    let width: usize = 2 * max + 1;
    let mut keep_old = false_flags(a.len());
    let mut keep_new = false_flags(b.len());
    let mut x: isize = n;
    let mut y: isize = m;
    let mut d: usize = trace.len() - 1;
    let ghost dd = d as int;
    let ghost mut kept: int = 0;
    let ghost full = myers_pairs(tv, offset as int, dd, n as int, m as int);
    let ghost mut done: Seq<(int, int)> = Seq::empty();
    proof {
        assert(full =~= myers_pairs(tv, offset as int, dd, n as int, m as int) + done);
        assert(keep_old@ =~= pair_marks(done, n as int, true));
        assert(keep_new@ =~= pair_marks(done, m as int, false));
        assert(kept_from(av, keep_old@, n as int) =~= Seq::<Seq<char>>::empty());
        assert(kept_from(bv, keep_new@, m as int) =~= Seq::<Seq<char>>::empty());
        assert(tv.len() == trace@.len());
    }
    while d >= 1
        invariant
            n == a@.len(),
            m == b@.len(),
            av == crate::slash_tree::parts_view(a@),
            bv == crate::slash_tree::parts_view(b@),
            1 <= n <= 128,
            1 <= m <= 128,
            max == n + m,
            offset == max,
            width == 2 * max + 1,
            d < trace@.len(),
            dd == trace@.len() - 1,
            d <= dd,
            trace@.len() <= max + 1,
            tv == trace_view(trace@),
            myers_result(av, bv, tv),
            forall|t: int| 0 <= t < trace@.len() ==> (#[trigger] trace@[t])@.len() == width,
            forall|t: int, j: int|
                0 <= t < trace@.len() && 0 <= j < width ==> 0 <= #[trigger] trace@[t]@[j] <= 2 * max,
            0 <= x <= n,
            0 <= y <= m,
            -(d as int) <= x - y <= d,
            (x - y + d) % 2 == 0,
            tv[d as int][x - y + offset] == x,
            snake_ok(
                av,
                bv,
                x - y,
                start_x(
                    if d >= 1 {
                        tv[d - 1]
                    } else {
                        tv[d as int]
                    },
                    d as int,
                    x - y,
                    offset as int,
                ),
                x as int,
            ),
            n + m - (x + y) == 2 * kept + (dd - d),
            kept == kept_from(av, keep_old@, x as int).len(),
            keep_old@.len() == n,
            keep_new@.len() == m,
            forall|i: int| 0 <= i < x ==> !#[trigger] keep_old@[i],
            forall|j: int| 0 <= j < y ==> !#[trigger] keep_new@[j],
            kept_from(av, keep_old@, x as int) == kept_from(bv, keep_new@, y as int),
            full == myers_pairs(tv, offset as int, d as int, x as int, y as int) + done,
            keep_old@ == pair_marks(done, n as int, true),
            keep_new@ == pair_marks(done, m as int, false),
        decreases d,
    {
        let v = &trace[d - 1];
        let di: isize = d as isize;
        let k: isize = x - y;
        let ghost prev = tv[d - 1];
        proof {
            assert(v@ == prev);
        }
        let use_down = if k == -di {
            true
        } else if k == di {
            false
        } else {
            v[(k - 1 + offset) as usize] < v[(k + 1 + offset) as usize]
        };
        let prev_k: isize = if use_down {
            k + 1
        } else {
            k - 1
        };
        let prev_x: isize = v[(prev_k + offset) as usize];
        let prev_y: isize = prev_x - prev_k;
        let ghost x0 = start_x(prev, d as int, k as int, offset as int);
        let ghost xe = x as int;
        proof {
            assert(round_done(av, bv, tv, d - 1, offset as int));
            assert(round_fact(av, bv, tv, d - 1, prev_k as int, offset as int));
            assert(use_down ==> x0 == prev_x);
            assert(!use_down ==> x0 == prev_x + 1);
        }
        let ghost pre = myers_pairs(tv, offset as int, d - 1, prev_x as int, prev_y as int);
        proof {
            assert(myers_pairs(tv, offset as int, d as int, x as int, y as int) == pre + snake_pairs(
                x0,
                xe,
                k as int,
            ));
        }
        while x > prev_x && y > prev_y
            invariant
                n == a@.len(),
                m == b@.len(),
                av == crate::slash_tree::parts_view(a@),
                bv == crate::slash_tree::parts_view(b@),
                x0 <= x <= xe,
                y == x - k,
                0 <= x <= n,
                0 <= y <= m,
                use_down ==> x0 == prev_x && prev_y == x0 - k - 1,
                !use_down ==> x0 == prev_x + 1 && prev_y == x0 - k,
                forall|s: int| x0 <= s < xe ==> #[trigger] diag_match(av, bv, s, k as int),
                n + m - (x + y) == 2 * kept + (dd - d),
                kept == kept_from(av, keep_old@, x as int).len(),
                keep_old@.len() == n,
                keep_new@.len() == m,
                forall|i: int| 0 <= i < x ==> !#[trigger] keep_old@[i],
                forall|j: int| 0 <= j < y ==> !#[trigger] keep_new@[j],
                kept_from(av, keep_old@, x as int) == kept_from(bv, keep_new@, y as int),
                full == pre + snake_pairs(x0, x as int, k as int) + done,
                keep_old@ == pair_marks(done, n as int, true),
                keep_new@ == pair_marks(done, m as int, false),
            decreases x,
        {
            let ghost ko0 = keep_old@;
            let ghost kn0 = keep_new@;
            let ghost pair = ((x - 1) as int, (y - 1) as int);
            proof {
                assert(diag_match(av, bv, x - 1, k as int));
                assert(snake_pairs(x0, x as int, k as int) == snake_pairs(x0, x - 1, k as int).push(
                    pair,
                ));
                assert(full =~= pre + snake_pairs(x0, x - 1, k as int) + (seq![pair] + done));
            }
            keep_old.set((x - 1) as usize, true);
            keep_new.set((y - 1) as usize, true);
            proof {
                lemma_kept_from_frame(av, ko0, keep_old@, x as int);
                lemma_kept_from_frame(bv, kn0, keep_new@, y as int);
                assert(kept_from(av, keep_old@, x - 1) == seq![av[x - 1]] + kept_from(
                    av,
                    keep_old@,
                    x as int,
                ));
                assert(kept_from(bv, keep_new@, y - 1) == seq![bv[y - 1]] + kept_from(
                    bv,
                    keep_new@,
                    y as int,
                ));
                kept = kept + 1;
                lemma_marks_step(ko0, keep_old@, done, pair, n as int, true);
                lemma_marks_step(kn0, keep_new@, done, pair, m as int, false);
                done = seq![pair] + done;
            }
            x = x - 1;
            y = y - 1;
        }
        proof {
            assert(x == x0);
            assert(full =~= pre + done);
        }
        if x == prev_x {
            proof {
                assert(kept_from(bv, keep_new@, y - 1) =~= kept_from(bv, keep_new@, y as int));
            }
            y = y - 1;
        } else {
            proof {
                assert(kept_from(av, keep_old@, x - 1) =~= kept_from(av, keep_old@, x as int));
            }
            x = x - 1;
        }
        proof {
            assert(x == prev_x && y == prev_y);
            assert(round_fact(av, bv, tv, d - 1, prev_k as int, offset as int));
        }
        d = d - 1;
    }
    proof {
        assert(x == y);
        assert(start_x(tv[0], 0, 0, offset as int) == 0);
        assert(myers_pairs(tv, offset as int, 0, x as int, y as int) == snake_pairs(0, x as int, 0));
    }
    let ghost x_end = x as int;
    while x > 0 && y > 0
        invariant
            n == a@.len(),
            m == b@.len(),
            av == crate::slash_tree::parts_view(a@),
            bv == crate::slash_tree::parts_view(b@),
            0 <= x <= x_end,
            x == y,
            x_end <= n,
            x_end <= m,
            forall|s: int| 0 <= s < x_end ==> #[trigger] diag_match(av, bv, s, 0),
            n + m - (x + y) == 2 * kept + dd,
            kept == kept_from(av, keep_old@, x as int).len(),
            keep_old@.len() == n,
            keep_new@.len() == m,
            forall|i: int| 0 <= i < x ==> !#[trigger] keep_old@[i],
            forall|j: int| 0 <= j < y ==> !#[trigger] keep_new@[j],
            kept_from(av, keep_old@, x as int) == kept_from(bv, keep_new@, y as int),
            full == snake_pairs(0, x as int, 0) + done,
            keep_old@ == pair_marks(done, n as int, true),
            keep_new@ == pair_marks(done, m as int, false),
        ensures
            x == 0,
            y == 0,
            n + m == 2 * kept + dd,
            kept == kept_from(av, keep_old@, 0).len(),
            keep_old@.len() == n,
            keep_new@.len() == m,
            kept_from(av, keep_old@, 0) == kept_from(bv, keep_new@, 0),
            full == done,
            keep_old@ == pair_marks(done, n as int, true),
            keep_new@ == pair_marks(done, m as int, false),
        decreases x,
    {
        proof {
            assert(diag_match(av, bv, x - 1, 0));
            assert(av[x - 1] == a@[x - 1]@);
            assert(bv[y - 1] == b@[y - 1]@);
        }
        if !crate::text::chars_eq(&a[(x - 1) as usize], &b[(y - 1) as usize]) {
            break;
        }
        let ghost ko0 = keep_old@;
        let ghost kn0 = keep_new@;
        let ghost pair = ((x - 1) as int, (y - 1) as int);
        keep_old.set((x - 1) as usize, true);
        keep_new.set((y - 1) as usize, true);
        proof {
            lemma_kept_from_frame(av, ko0, keep_old@, x as int);
            lemma_kept_from_frame(bv, kn0, keep_new@, y as int);
            assert(kept_from(av, keep_old@, x - 1) == seq![av[x - 1]] + kept_from(
                av,
                keep_old@,
                x as int,
            ));
            assert(kept_from(bv, keep_new@, y - 1) == seq![bv[y - 1]] + kept_from(
                bv,
                keep_new@,
                y as int,
            ));
            kept = kept + 1;
            assert(snake_pairs(0, x as int, 0) == snake_pairs(0, x - 1, 0).push(pair));
            assert(full =~= snake_pairs(0, x - 1, 0) + (seq![pair] + done));
            lemma_marks_step(ko0, keep_old@, done, pair, n as int, true);
            lemma_marks_step(kn0, keep_new@, done, pair, m as int, false);
            done = seq![pair] + done;
        }
        x = x - 1;
        y = y - 1;
    }
    proof {
        lemma_kept_from_before(av, keep_old@, n as int);
        lemma_kept_from_before(bv, keep_new@, m as int);
        lemma_common_marks_bounded(av, keep_old@, bv, keep_new@, n as int, m as int);
        lemma_lcs_steps(av, bv, n as int, m as int);
        assert(snake_pairs(0, 0, 0) =~= Seq::<(int, int)>::empty());
        assert(full =~= done);
        assert(myers_result(av, bv, tv));
    }
    (keep_old, keep_new)
}

/// The marked items from `i` on follow the marked items before `i`.
proof fn lemma_kept_from_before(t: Seq<Seq<char>>, k: Seq<bool>, i: int)
    requires
        0 <= i <= t.len(),
        k.len() == t.len(),
    ensures
        kept_before(t, k, i) + kept_from(t, k, i) == kept_from(t, k, 0),
        i == t.len() ==> kept_from(t, k, 0) == kept_before(t, k, i),
    decreases i,
{
    if i > 0 {
        lemma_kept_from_before(t, k, i - 1);
        assert(kept_from(t, k, i - 1) == (if k[i - 1] {
            seq![t[i - 1]]
        } else {
            Seq::empty()
        }) + kept_from(t, k, i));
        assert(kept_before(t, k, i) + kept_from(t, k, i) =~= kept_before(t, k, i - 1) + kept_from(
            t,
            k,
            i - 1,
        ));
    }
    if i == t.len() {
        assert(kept_from(t, k, i) =~= Seq::<Seq<char>>::empty());
        assert(kept_before(t, k, i) + kept_from(t, k, i) =~= kept_before(t, k, i));
    }
}


} // verus!

verus! {

/// What the word diff of two lines gives. Lines with more than `MAX_WORD_DIFF_TOKENS`
/// tokens on a side, or with an empty side, get the common-prefix-and-suffix ranges. Else
/// the tokens of each side are marked as Myers' diff matches them (`myers_marks`, which
/// fixes the choice among longest common subsequences), the marked tokens of both sides
/// form a longest common subsequence, and each side's ranges are its unmarked
/// non-whitespace tokens, sorted and merged.
pub open spec fn word_diff(
    o: Seq<char>,
    n: Seq<char>,
    ro: Seq<(usize, usize)>,
    rn: Seq<(usize, usize)>,
) -> bool {
    let ot = tokens_of(o);
    let nt = tokens_of(n);
    if ot.len() > MAX_WORD_DIFF_TOKENS || nt.len() > MAX_WORD_DIFF_TOKENS || ot.len() == 0
        || nt.len() == 0 {
        (ro, rn) == affix_ranges(o, n)
    } else {
        exists|ko: Seq<bool>, kn: Seq<bool>|
            {
                &&& myers_marks(token_texts(o), token_texts(n), ko, kn)
                &&& common_marks(token_texts(o), ko, token_texts(n), kn)
                &&& kept_from(token_texts(o), ko, 0).len() == lcs_len(
                    token_texts(o),
                    token_texts(n),
                    ot.len() as int,
                    nt.len() as int,
                )
                &&& ro == coalesced(changed_ranges(ot, ko, ot.len() as int))
                &&& rn == coalesced(changed_ranges(nt, kn, nt.len() as int))
            }
    }
}

fn changed_ranges_exec(toks: &Vec<Token>, keep: &Vec<bool>) -> (out: Vec<Range<usize>>)
    requires
        keep@.len() == toks@.len(),
    ensures
        ranges_v(out@) == changed_ranges(
            toks@.map_values(|t: Token| token_v(t)),
            keep@,
            toks@.len() as int,
        ),
{
    let ghost tv = toks@.map_values(|t: Token| token_v(t));
    let mut out: Vec<Range<usize>> = Vec::new();
    let mut i: usize = 0;
    while i < toks.len()
        invariant
            i <= toks@.len(),
            keep@.len() == toks@.len(),
            tv == toks@.map_values(|t: Token| token_v(t)),
            ranges_v(out@) == changed_ranges(tv, keep@, i as int),
        decreases toks@.len() - i,
    {
        let ghost before = ranges_v(out@);
        assert(tv[i as int] == token_v(toks@[i as int]));
        if !keep[i] && toks[i].kind == TokenKind::Other {
            out.push(toks[i].range.start..toks[i].range.end);
            assert(ranges_v(out@) =~= before.push((toks@[i as int].range.start, toks@[i as int].range.end)));
        }
        assert(ranges_v(out@) =~= changed_ranges(tv, keep@, i + 1));
        i = i + 1;
    }
    out
}

/// The byte ranges to highlight in an old and a new line: the tokens that changed.
pub fn word_diff_ranges(old: &str, new: &str) -> (r: (Vec<Range<usize>>, Vec<Range<usize>>))
    requires
        fits(old@),
        fits(new@),
    ensures
        word_diff(old@, new@, ranges_v(r.0@), ranges_v(r.1@)),
{
    let oc = str_to_chars(old);
    let nc = str_to_chars(new);
    let (oruns, otoks) = char_token_runs(&oc);
    let (nruns, ntoks) = char_token_runs(&nc);
    if otoks.len() > MAX_WORD_DIFF_TOKENS || ntoks.len() > MAX_WORD_DIFF_TOKENS {
        return affix_ranges_chars(&oc, &nc);
    }
    if otoks.len() == 0 || ntoks.len() == 0 {
        return affix_ranges_chars(&oc, &nc);
    }
    proof {
        lemma_char_tokens_bounds(oc@, 0);
        lemma_char_tokens_bounds(nc@, 0);
        assert forall|k: int| 0 <= k < oruns@.len() implies (#[trigger] oruns@[k]).0 <= oruns@[k].1
            <= oc@.len() by {
            assert(char_tokens(oc@, 0)[k] == (oruns@[k].0 as int, oruns@[k].1 as int));
        }
        assert forall|k: int| 0 <= k < nruns@.len() implies (#[trigger] nruns@[k]).0 <= nruns@[k].1
            <= nc@.len() by {
            assert(char_tokens(nc@, 0)[k] == (nruns@[k].0 as int, nruns@[k].1 as int));
        }
    }
    let otexts = token_text_list(&oc, &oruns);
    let ntexts = token_text_list(&nc, &nruns);
    proof {
        assert(crate::slash_tree::parts_view(otexts@).len() == otexts@.len());
        assert(crate::slash_tree::parts_view(ntexts@).len() == ntexts@.len());
        assert(token_texts(oc@).len() == char_tokens(oc@, 0).len());
        assert(token_texts(nc@).len() == char_tokens(nc@, 0).len());
        assert(oruns@.map_values(|p: (usize, usize)| (p.0 as int, p.1 as int)).len() == oruns@.len());
        assert(nruns@.map_values(|p: (usize, usize)| (p.0 as int, p.1 as int)).len() == nruns@.len());
    }
    let (ko, kn) = myers_keep(&otexts, &ntexts);
    let old_ranges = changed_ranges_exec(&otoks, &ko);
    let new_ranges = changed_ranges_exec(&ntoks, &kn);
    let r = (coalesce_ranges(old_ranges), coalesce_ranges(new_ranges));
    proof {
        assert(common_marks(token_texts(old@), ko@, token_texts(new@), kn@));
        assert(myers_marks(token_texts(old@), token_texts(new@), ko@, kn@));
        assert(token_texts(old@).len() == tokens_of(old@).len());
        assert(token_texts(new@).len() == tokens_of(new@).len());
    }
    r
}

} // verus!

verus! {

/// `Some(r)` unless `r` is empty.
pub open spec fn nonempty(r: Seq<(usize, usize)>) -> Option<Seq<(usize, usize)>> {
    if r.len() == 0 {
        None
    } else {
        Some(r)
    }
}

/// The value of an optional range list.
pub open spec fn opt_ranges(o: Option<Vec<Range<usize>>>) -> Option<Seq<(usize, usize)>> {
    match o {
        Some(v) => Some(ranges_v(v@)),
        None => None,
    }
}

/// Every text is small enough for its byte offsets to fit in `usize`.
pub open spec fn all_fit(ls: Seq<String>) -> bool {
    forall|i: int| 0 <= i < ls.len() ==> fits(#[trigger] ls[i]@)
}

/// Line `i` of `ls`, or the empty line past the end.
pub open spec fn line_or_empty(ls: Seq<String>, i: int) -> Seq<char> {
    if 0 <= i < ls.len() {
        ls[i]@
    } else {
        Seq::empty()
    }
}

/// The highlights of line `i` of a three-way view: the changed ranges of the base line
/// against ours and against theirs (merged), and of our and their line against the base,
/// each `None` when empty.
pub open spec fn three_way_line(
    base: Seq<char>,
    ours: Seq<char>,
    theirs: Seq<char>,
    hb: Option<Seq<(usize, usize)>>,
    ho: Option<Seq<(usize, usize)>>,
    ht: Option<Seq<(usize, usize)>>,
) -> bool {
    exists|bo: Seq<(usize, usize)>, o: Seq<(usize, usize)>, bt: Seq<(usize, usize)>, t: Seq<(usize, usize)>|
        {
            &&& word_diff(base, ours, bo, o)
            &&& word_diff(base, theirs, bt, t)
            &&& hb == nonempty(merged_ranges(bo, bt))
            &&& ho == nonempty(o)
            &&& ht == nonempty(t)
        }
}

/// Line `i` lies in one of the first `n` conflict ranges.
pub open spec fn in_ranges_before(rs: Seq<Range<usize>>, n: int, i: int) -> bool {
    exists|r: int| 0 <= r < n && r < rs.len() && #[trigger] rs[r].start <= i < rs[r].end
}

/// Line `i` lies in one of the conflict ranges.
pub open spec fn in_some_range(rs: Seq<Range<usize>>, i: int) -> bool {
    in_ranges_before(rs, rs.len() as int, i)
}

fn line_str(ls: &[String], i: usize) -> (s: &str)
    ensures
        s@ == line_or_empty(ls@, i as int),
{
    if i < ls.len() {
        ls[i].as_str()
    } else {
        proof {
            reveal_strlit("");
        }
        ""
    }
}

fn opt_nonempty(v: Vec<Range<usize>>) -> (r: Option<Vec<Range<usize>>>)
    ensures
        opt_ranges(r) == nonempty(ranges_v(v@)),
{
    if v.len() == 0 {
        None
    } else {
        Some(v)
    }
}

/// The word highlights of the base, our and their lines of a three-way conflict view: for
/// each line inside a conflict range, the changed ranges as `three_way_line` states them;
/// `None` for every other line.
pub fn compute_three_way_word_highlights(
    base_lines: &[String],
    ours_lines: &[String],
    theirs_lines: &[String],
    conflict_ranges: &[Range<usize>],
) -> (r: (Vec<Option<Vec<Range<usize>>>>, Vec<Option<Vec<Range<usize>>>>, Vec<Option<Vec<Range<usize>>>>))
    requires
        all_fit(base_lines@),
        all_fit(ours_lines@),
        all_fit(theirs_lines@),
    ensures
        r.0@.len() == r.1@.len() == r.2@.len(),
        r.0@.len() == vstd::math::max(
            vstd::math::max(base_lines@.len() as int, ours_lines@.len() as int),
            theirs_lines@.len() as int,
        ),
        forall|i: int|
            0 <= i < r.0@.len() ==> if in_some_range(conflict_ranges@, i) {
                three_way_line(
                    line_or_empty(base_lines@, i),
                    line_or_empty(ours_lines@, i),
                    line_or_empty(theirs_lines@, i),
                    opt_ranges(#[trigger] r.0@[i]),
                    opt_ranges(r.1@[i]),
                    opt_ranges(r.2@[i]),
                )
            } else {
                r.0@[i] is None && r.1@[i] is None && r.2@[i] is None
            },
{
    let mut len = base_lines.len();
    if ours_lines.len() > len {
        len = ours_lines.len();
    }
    if theirs_lines.len() > len {
        len = theirs_lines.len();
    }
    let mut wb: Vec<Option<Vec<Range<usize>>>> = Vec::new();
    let mut wo: Vec<Option<Vec<Range<usize>>>> = Vec::new();
    let mut wt: Vec<Option<Vec<Range<usize>>>> = Vec::new();
    let mut j: usize = 0;
    while j < len
        invariant
            j <= len,
            wb@.len() == j,
            wo@.len() == j,
            wt@.len() == j,
            forall|q: int| 0 <= q < j ==> wb@[q] is None && wo@[q] is None && wt@[q] is None,
        decreases len - j,
    {
        wb.push(None);
        wo.push(None);
        wt.push(None);
        j = j + 1;
    }
    let mut ri: usize = 0;
    while ri < conflict_ranges.len()
        invariant
            ri <= conflict_ranges@.len(),
            all_fit(base_lines@),
            all_fit(ours_lines@),
            all_fit(theirs_lines@),
            len == vstd::math::max(
                vstd::math::max(base_lines@.len() as int, ours_lines@.len() as int),
                theirs_lines@.len() as int,
            ),
            wb@.len() == len,
            wo@.len() == len,
            wt@.len() == len,
            forall|q: int|
                0 <= q < len ==> if in_ranges_before(conflict_ranges@, ri as int, q) {
                    three_way_line(
                        line_or_empty(base_lines@, q),
                        line_or_empty(ours_lines@, q),
                        line_or_empty(theirs_lines@, q),
                        opt_ranges(#[trigger] wb@[q]),
                        opt_ranges(wo@[q]),
                        opt_ranges(wt@[q]),
                    )
                } else {
                    wb@[q] is None && wo@[q] is None && wt@[q] is None
                },
        decreases conflict_ranges@.len() - ri,
    {
        let start = conflict_ranges[ri].start;
        let end = conflict_ranges[ri].end;
        let mut i = start;
        while i < end && i < len
            invariant
                start <= i,
                i <= end || i == start,
                ri < conflict_ranges@.len(),
                start == conflict_ranges@[ri as int].start,
                end == conflict_ranges@[ri as int].end,
                all_fit(base_lines@),
                all_fit(ours_lines@),
                all_fit(theirs_lines@),
                wb@.len() == len,
                wo@.len() == len,
                wt@.len() == len,
                forall|q: int|
                    0 <= q < len ==> if in_ranges_before(conflict_ranges@, ri as int, q) || (start
                        <= q < i) {
                        three_way_line(
                            line_or_empty(base_lines@, q),
                            line_or_empty(ours_lines@, q),
                            line_or_empty(theirs_lines@, q),
                            opt_ranges(#[trigger] wb@[q]),
                            opt_ranges(wo@[q]),
                            opt_ranges(wt@[q]),
                        )
                    } else {
                        wb@[q] is None && wo@[q] is None && wt@[q] is None
                    },
            decreases end - i,
        {
            let base = line_str(base_lines, i);
            let ours = line_str(ours_lines, i);
            let theirs = line_str(theirs_lines, i);
            proof {
                assert(fits(base@)) by {
                    if (i as int) < base_lines@.len() {
                        assert(fits(base_lines@[i as int]@));
                    } else {
                        assert(byte_offset(base@, 0) == 0);
                    }
                }
                assert(fits(ours@)) by {
                    if (i as int) < ours_lines@.len() {
                        assert(fits(ours_lines@[i as int]@));
                    } else {
                        assert(byte_offset(ours@, 0) == 0);
                    }
                }
                assert(fits(theirs@)) by {
                    if (i as int) < theirs_lines@.len() {
                        assert(fits(theirs_lines@[i as int]@));
                    } else {
                        assert(byte_offset(theirs@, 0) == 0);
                    }
                }
            }
            let (bo, o) = word_diff_ranges(base, ours);
            let (bt, t) = word_diff_ranges(base, theirs);
            let merged = merge_ranges(&bo, &bt);
            let hb = opt_nonempty(merged);
            let ho = opt_nonempty(o);
            let ht = opt_nonempty(t);
            proof {
                assert(three_way_line(base@, ours@, theirs@, opt_ranges(hb), opt_ranges(ho), opt_ranges(ht)));
            }
            wb.set(i, hb);
            wo.set(i, ho);
            wt.set(i, ht);
            i = i + 1;
        }
        proof {
            assert forall|q: int| #![trigger in_ranges_before(conflict_ranges@, ri + 1, q)]
                0 <= q < len implies (in_ranges_before(conflict_ranges@, ri + 1, q) <==> (
            in_ranges_before(conflict_ranges@, ri as int, q) || (start <= q < i))) by {
                if in_ranges_before(conflict_ranges@, ri + 1, q) {
                    let r = choose|r: int|
                        0 <= r < ri + 1 && r < conflict_ranges@.len() && #[trigger] conflict_ranges@[r].start
                            <= q < conflict_ranges@[r].end;
                    if r < ri {
                        assert(in_ranges_before(conflict_ranges@, ri as int, q));
                    }
                }
                if in_ranges_before(conflict_ranges@, ri as int, q) {
                    let r = choose|r: int|
                        0 <= r < ri && r < conflict_ranges@.len() && #[trigger] conflict_ranges@[r].start
                            <= q < conflict_ranges@[r].end;
                    assert(0 <= r < ri + 1 && r < conflict_ranges@.len() && conflict_ranges@[r].start
                        <= q < conflict_ranges@[r].end);
                }
                if start <= q < i {
                    assert(conflict_ranges@[ri as int].start <= q < conflict_ranges@[ri as int].end);
                }
            }
        }
        ri = ri + 1;
    }
    (wb, wo, wt)
}

/// The word highlights of a two-way diff: for each modified row, the changed ranges of its
/// old and new text (`None` when both are empty); `None` for every other row.
pub fn compute_two_way_word_highlights(
    diff_rows: &[crate::conflict_rows::FileDiffRow],
) -> (r: Vec<Option<(Vec<Range<usize>>, Vec<Range<usize>>)>>)
    requires
        forall|i: int|
            0 <= i < diff_rows@.len() ==> fits(crate::conflict_rows::opt_text((#[trigger] diff_rows@[i]).old))
                && fits(crate::conflict_rows::opt_text(diff_rows@[i].new)),
    ensures
        r@.len() == diff_rows@.len(),
        forall|i: int|
            0 <= i < diff_rows@.len() ==> match #[trigger] r@[i] {
                None => diff_rows@[i].kind != crate::conflict_rows::FileDiffRowKind::Modify
                    || exists|o: Seq<(usize, usize)>, n: Seq<(usize, usize)>|
                    word_diff(
                        crate::conflict_rows::opt_text(diff_rows@[i].old),
                        crate::conflict_rows::opt_text(diff_rows@[i].new),
                        o,
                        n,
                    ) && o.len() == 0 && n.len() == 0,
                Some(p) => diff_rows@[i].kind == crate::conflict_rows::FileDiffRowKind::Modify
                    && word_diff(
                    crate::conflict_rows::opt_text(diff_rows@[i].old),
                    crate::conflict_rows::opt_text(diff_rows@[i].new),
                    ranges_v(p.0@),
                    ranges_v(p.1@),
                ) && (p.0@.len() > 0 || p.1@.len() > 0),
            },
{
    let mut out: Vec<Option<(Vec<Range<usize>>, Vec<Range<usize>>)>> = Vec::new();
    let mut i: usize = 0;
    while i < diff_rows.len()
        invariant
            i <= diff_rows@.len(),
            out@.len() == i,
            forall|q: int|
                0 <= q < diff_rows@.len() ==> fits(crate::conflict_rows::opt_text((#[trigger] diff_rows@[q]).old))
                    && fits(crate::conflict_rows::opt_text(diff_rows@[q].new)),
            forall|q: int|
                0 <= q < i ==> match #[trigger] out@[q] {
                    None => diff_rows@[q].kind != crate::conflict_rows::FileDiffRowKind::Modify
                        || exists|o: Seq<(usize, usize)>, n: Seq<(usize, usize)>|
                        word_diff(
                            crate::conflict_rows::opt_text(diff_rows@[q].old),
                            crate::conflict_rows::opt_text(diff_rows@[q].new),
                            o,
                            n,
                        ) && o.len() == 0 && n.len() == 0,
                    Some(p) => diff_rows@[q].kind == crate::conflict_rows::FileDiffRowKind::Modify
                        && word_diff(
                        crate::conflict_rows::opt_text(diff_rows@[q].old),
                        crate::conflict_rows::opt_text(diff_rows@[q].new),
                        ranges_v(p.0@),
                        ranges_v(p.1@),
                    ) && (p.0@.len() > 0 || p.1@.len() > 0),
                },
        decreases diff_rows@.len() - i,
    {
        let row = &diff_rows[i];
        let entry = if row.kind != crate::conflict_rows::FileDiffRowKind::Modify {
            None
        } else {
            proof {
                reveal_strlit("");
            }
            let old: &str = match &row.old {
                Some(s) => s.as_str(),
                None => "",
            };
            let new: &str = match &row.new {
                Some(s) => s.as_str(),
                None => "",
            };
            assert(old@ == crate::conflict_rows::opt_text(row.old));
            assert(new@ == crate::conflict_rows::opt_text(row.new));
            let (o, n) = word_diff_ranges(old, new);
            if o.len() == 0 && n.len() == 0 {
                proof {
                    assert(ranges_v(o@).len() == 0 && ranges_v(n@).len() == 0);
                }
                None
            } else {
                Some((o, n))
            }
        };
        out.push(entry);
        i = i + 1;
    }
    out
}

} // verus!

verus! {

/// Byte offset `b` of `cs` lies between two characters, or at either end.
pub open spec fn char_boundary(cs: Seq<char>, b: int) -> bool {
    exists|k: int| 0 <= k <= cs.len() && byte_offset(cs, k) == b
}

/// The byte ranges lie in `cs` in order without overlapping, each from a character
/// boundary to a later or equal one.
pub open spec fn ranges_in_text(cs: Seq<char>, rs: Seq<(usize, usize)>) -> bool {
    &&& forall|i: int|
        0 <= i < rs.len() ==> (#[trigger] rs[i]).0 <= rs[i].1 <= byte_offset(cs, cs.len() as int)
            && char_boundary(cs, rs[i].0 as int) && char_boundary(cs, rs[i].1 as int)
    &&& forall|i: int, j: int| 0 <= i < j < rs.len() ==> (#[trigger] rs[i]).1 <= (#[trigger] rs[j]).0
}

proof fn lemma_sorted_pos_end(s: Seq<(usize, usize)>, x: (usize, usize), i: int)
    requires
        0 <= i <= s.len(),
        forall|t: int| i <= t < s.len() ==> pair_le(#[trigger] s[t], x),
    ensures
        sorted_pos(s, x, i) == s.len(),
    decreases s.len() - i,
{
    if i < s.len() {
        lemma_sorted_pos_end(s, x, i + 1);
    }
}

proof fn lemma_sort_pairs_sorted(s: Seq<(usize, usize)>)
    requires
        forall|t: int| 0 <= t < s.len() ==> (#[trigger] s[t]).0 <= s[t].1,
        forall|i: int, j: int| 0 <= i < j < s.len() ==> (#[trigger] s[i]).1 <= (#[trigger] s[j]).0,
    ensures
        sort_pairs(s) == s,
    decreases s.len(),
{
    if s.len() > 0 {
        let d = s.drop_last();
        lemma_sort_pairs_sorted(d);
        assert forall|t: int| 0 <= t < d.len() implies pair_le(#[trigger] d[t], s.last()) by {
            assert(s[t] == d[t]);
            assert(s[t].1 <= s[s.len() - 1].0);
        }
        lemma_sorted_pos_end(d, s.last(), 0);
        assert(d.insert(d.len() as int, s.last()) =~= s);
    }
}

proof fn lemma_merge_sorted_in_text(cs: Seq<char>, s: Seq<(usize, usize)>)
    requires
        ranges_in_text(cs, s),
    ensures
        ranges_in_text(cs, merge_sorted(s)),
        s.len() > 0 ==> merge_sorted(s).len() > 0 && merge_sorted(s).last().1 == s.last().1,
    decreases s.len(),
{
    if s.len() > 0 {
        let d = s.drop_last();
        assert forall|i: int, j: int| 0 <= i < j < d.len() implies (#[trigger] d[i]).1 <= (
        #[trigger] d[j]).0 by {
            assert(d[i] == s[i] && d[j] == s[j]);
        }
        assert forall|i: int| 0 <= i < d.len() implies (#[trigger] d[i]).0 <= d[i].1 <= byte_offset(
            cs,
            cs.len() as int,
        ) && char_boundary(cs, d[i].0 as int) && char_boundary(cs, d[i].1 as int) by {
            assert(d[i] == s[i]);
        }
        lemma_merge_sorted_in_text(cs, d);
        let out = merge_sorted(d);
        let r = s.last();
        assert(r == s[s.len() - 1]);
        let m = merge_sorted(s);
        if out.len() > 0 && r.0 <= out.last().1 {
            assert(d.last() == s[s.len() - 2]);
            let nl = (out.last().0, r.1);
            assert(m == out.drop_last().push(nl));
            assert(out.last() == out[out.len() - 1]);
            assert forall|i: int| 0 <= i < m.len() implies (#[trigger] m[i]).0 <= m[i].1 <= byte_offset(
                cs,
                cs.len() as int,
            ) && char_boundary(cs, m[i].0 as int) && char_boundary(cs, m[i].1 as int) by {
                if i < m.len() - 1 {
                    assert(m[i] == out[i]);
                } else {
                    assert(m[i] == nl);
                }
            }
            assert forall|i: int, j: int| 0 <= i < j < m.len() implies (#[trigger] m[i]).1 <= (
            #[trigger] m[j]).0 by {
                assert(m[i] == out[i]);
                if j < m.len() - 1 {
                    assert(m[j] == out[j]);
                } else {
                    assert(m[j] == nl);
                    assert(out[i].1 <= out[out.len() - 1].0);
                }
            }
        } else {
            assert(m == out.push(r));
            if out.len() > 0 {
                assert(d.last() == s[s.len() - 2]);
                assert(out.last() == out[out.len() - 1]);
                assert(out.last().1 <= r.0);
            }
            assert forall|i: int| 0 <= i < m.len() implies (#[trigger] m[i]).0 <= m[i].1 <= byte_offset(
                cs,
                cs.len() as int,
            ) && char_boundary(cs, m[i].0 as int) && char_boundary(cs, m[i].1 as int) by {
                if i < m.len() - 1 {
                    assert(m[i] == out[i]);
                } else {
                    assert(m[i] == r);
                }
            }
            assert forall|i: int, j: int| 0 <= i < j < m.len() implies (#[trigger] m[i]).1 <= (
            #[trigger] m[j]).0 by {
                assert(m[i] == out[i]);
                if j < m.len() - 1 {
                    assert(m[j] == out[j]);
                } else {
                    assert(m[j] == r);
                    if i < out.len() - 1 {
                        assert(out[i].1 <= out[out.len() - 1].0);
                    }
                }
            }
        }
    }
}

proof fn lemma_coalesced_in_text(cs: Seq<char>, s: Seq<(usize, usize)>)
    requires
        ranges_in_text(cs, s),
    ensures
        ranges_in_text(cs, coalesced(s)),
{
    if s.len() > 1 {
        assert forall|t: int| 0 <= t < s.len() implies (#[trigger] s[t]).0 <= s[t].1 by {}
        lemma_sort_pairs_sorted(s);
        lemma_merge_sorted_in_text(cs, s);
    }
}

proof fn lemma_char_tokens_ordered(cs: Seq<char>, i: int)
    requires
        0 <= i <= cs.len(),
    ensures
        forall|k: int, m: int|
            0 <= k < m < char_tokens(cs, i).len() ==> (#[trigger] char_tokens(cs, i)[k]).1 <= (
            #[trigger] char_tokens(cs, i)[m]).0,
    decreases cs.len() - i,
{
    if i < cs.len() {
        let e = class_run_end(cs, i + 1, char_class(cs[i]));
        lemma_class_run_end(cs, i + 1, char_class(cs[i]));
        lemma_char_tokens_ordered(cs, e);
        lemma_char_tokens_bounds(cs, e);
        let t = char_tokens(cs, i);
        let rest = char_tokens(cs, e);
        assert forall|k: int, m: int| 0 <= k < m < t.len() implies (#[trigger] t[k]).1 <= (
        #[trigger] t[m]).0 by {
            assert(t[m] == rest[m - 1]);
            if k > 0 {
                assert(t[k] == rest[k - 1]);
            } else {
                assert(t[k] == (i, e));
            }
        }
    }
}

/// The tokens lie in `cs` in order, each between two character boundaries.
spec fn tokens_in_text(cs: Seq<char>, toks: Seq<(usize, usize, TokenKind)>) -> bool {
    &&& forall|k: int|
        0 <= k < toks.len() ==> (#[trigger] toks[k]).0 <= toks[k].1 <= byte_offset(cs, cs.len() as int)
            && char_boundary(cs, toks[k].0 as int) && char_boundary(cs, toks[k].1 as int)
    &&& forall|k: int, m: int| 0 <= k < m < toks.len() ==> (#[trigger] toks[k]).1 <= (#[trigger] toks[m]).0
}

proof fn lemma_tokens_in_text(cs: Seq<char>)
    requires
        fits(cs),
    ensures
        tokens_in_text(cs, tokens_of(cs)),
{
    let ct = char_tokens(cs, 0);
    let toks = tokens_of(cs);
    lemma_char_tokens_bounds(cs, 0);
    lemma_char_tokens_ordered(cs, 0);
    let total = byte_offset(cs, cs.len() as int);
    assert forall|k: int| 0 <= k < toks.len() implies (#[trigger] toks[k]).0 <= toks[k].1 <= total
        && char_boundary(cs, toks[k].0 as int) && char_boundary(cs, toks[k].1 as int) by {
        let r = ct[k];
        lemma_byte_offset_mono(cs, r.0, r.1);
        lemma_byte_offset_mono(cs, r.1, cs.len() as int);
        assert(toks[k].0 == byte_offset(cs, r.0));
        assert(toks[k].1 == byte_offset(cs, r.1));
    }
    assert forall|k: int, m: int| 0 <= k < m < toks.len() implies (#[trigger] toks[k]).1 <= (
    #[trigger] toks[m]).0 by {
        let a = ct[k];
        let b = ct[m];
        assert(a.1 <= b.0);
        lemma_byte_offset_mono(cs, a.1, b.0);
        lemma_byte_offset_mono(cs, b.0, cs.len() as int);
        lemma_byte_offset_mono(cs, a.1, cs.len() as int);
    }
}

proof fn lemma_changed_ranges_in_text(
    cs: Seq<char>,
    toks: Seq<(usize, usize, TokenKind)>,
    keep: Seq<bool>,
    n: int,
)
    requires
        tokens_in_text(cs, toks),
        0 <= n <= toks.len(),
        keep.len() == toks.len(),
    ensures
        ranges_in_text(cs, changed_ranges(toks, keep, n)),
        forall|j: int, m: int|
            0 <= j < changed_ranges(toks, keep, n).len() && n <= m < toks.len() ==> (
            #[trigger] changed_ranges(toks, keep, n)[j]).1 <= (#[trigger] toks[m]).0,
    decreases n,
{
    if n > 0 {
        lemma_changed_ranges_in_text(cs, toks, keep, n - 1);
        let prev = changed_ranges(toks, keep, n - 1);
        let res = changed_ranges(toks, keep, n);
        let t = toks[n - 1];
        assert forall|j: int| 0 <= j < prev.len() implies (#[trigger] prev[j]).1 <= t.0 by {
            assert(prev[j].1 <= toks[n - 1].0);
        }
        if !keep[n - 1] && t.2 == TokenKind::Other {
            assert(res == prev.push((t.0, t.1)));
        } else {
            assert(res == prev);
        }
        assert forall|j: int| 0 <= j < res.len() implies (#[trigger] res[j]).0 <= res[j].1 <= byte_offset(
            cs,
            cs.len() as int,
        ) && char_boundary(cs, res[j].0 as int) && char_boundary(cs, res[j].1 as int) by {
            if j < prev.len() {
                assert(res[j] == prev[j]);
            } else {
                assert(res[j] == (t.0, t.1));
            }
        }
        assert forall|i: int, j: int| 0 <= i < j < res.len() implies (#[trigger] res[i]).1 <= (
        #[trigger] res[j]).0 by {
            assert(res[i] == prev[i]);
            if j < prev.len() {
                assert(res[j] == prev[j]);
            } else {
                assert(res[j] == (t.0, t.1));
            }
        }
        assert forall|j: int, m: int| 0 <= j < res.len() && n <= m < toks.len() implies (
        #[trigger] res[j]).1 <= (#[trigger] toks[m]).0 by {
            assert(t.1 <= toks[m].0);
            if j < prev.len() {
                assert(res[j] == prev[j]);
            } else {
                assert(res[j] == (t.0, t.1));
            }
        }
    }
}

proof fn lemma_same_suffix_bytes(a: Seq<char>, b: Seq<char>, q: int)
    requires
        0 <= q <= a.len(),
        q <= b.len(),
        forall|t: int| 0 <= t < q ==> #[trigger] same_from_end(a, b, t),
    ensures
        byte_offset(a, a.len() as int) - byte_offset(a, a.len() - q) == byte_offset(
            b,
            b.len() as int,
        ) - byte_offset(b, b.len() - q),
    decreases q,
{
    if q > 0 {
        lemma_same_suffix_bytes(a, b, q - 1);
        assert(same_from_end(a, b, q - 1));
        assert(a[a.len() - q] == a[a.len() - 1 - (q - 1)]);
        assert(b[b.len() - q] == b[b.len() - 1 - (q - 1)]);
    }
}

proof fn lemma_affix_in_text(o: Seq<char>, n: Seq<char>)
    requires
        fits(o),
        fits(n),
    ensures
        ranges_in_text(o, affix_ranges(o, n).0),
        ranges_in_text(n, affix_ranges(o, n).1),
{
    let p = common_prefix(o, n, 0);
    lemma_common_prefix_range(o, n, 0);
    let ot = o.skip(p);
    let nt = n.skip(p);
    let q = common_suffix(ot, nt, 0);
    lemma_common_suffix_range(ot, nt, 0);
    assert forall|t: int| 0 <= t < q implies #[trigger] same_from_end(o, n, t) by {
        assert(same_from_end(ot, nt, t));
        assert(ot[ot.len() - 1 - t] == o[o.len() - 1 - t]);
        assert(nt[nt.len() - 1 - t] == n[n.len() - 1 - t]);
    }
    lemma_same_prefix_bytes(o, n, p);
    lemma_same_suffix_bytes(o, n, q);
    lemma_byte_offset_mono(o, p, o.len() as int);
    lemma_byte_offset_mono(n, p, n.len() as int);
    lemma_byte_offset_mono(o, o.len() - q, o.len() as int);
    lemma_byte_offset_mono(n, n.len() - q, n.len() as int);
    let r = affix_ranges(o, n);
    assert(char_boundary(o, byte_offset(o, p) as int));
    assert(char_boundary(o, byte_offset(o, o.len() - q) as int));
    assert(char_boundary(n, byte_offset(n, p) as int));
    assert(char_boundary(n, byte_offset(n, n.len() - q) as int));
    assert(char_boundary(o, byte_offset(o, o.len() as int) as int));
    assert(char_boundary(n, byte_offset(n, n.len() as int) as int));
}

/// The word diff's ranges of each line lie in that line in order, without overlapping,
/// each from one character boundary to another, whichever way they were found.
pub proof fn law_word_diff_ranges_in_text(
    o: Seq<char>,
    n: Seq<char>,
    ro: Seq<(usize, usize)>,
    rn: Seq<(usize, usize)>,
)
    requires
        fits(o),
        fits(n),
        word_diff(o, n, ro, rn),
    ensures
        ranges_in_text(o, ro),
        ranges_in_text(n, rn),
{
    let ot = tokens_of(o);
    let nt = tokens_of(n);
    if ot.len() > MAX_WORD_DIFF_TOKENS || nt.len() > MAX_WORD_DIFF_TOKENS || ot.len() == 0
        || nt.len() == 0 {
        lemma_affix_in_text(o, n);
    } else {
        let (ko, kn) = choose|ko: Seq<bool>, kn: Seq<bool>|
            {
                &&& common_marks(token_texts(o), ko, token_texts(n), kn)
                &&& kept_from(token_texts(o), ko, 0).len() == lcs_len(
                    token_texts(o),
                    token_texts(n),
                    ot.len() as int,
                    nt.len() as int,
                )
                &&& ro == coalesced(changed_ranges(ot, ko, ot.len() as int))
                &&& rn == coalesced(changed_ranges(nt, kn, nt.len() as int))
            };
        lemma_tokens_in_text(o);
        lemma_tokens_in_text(n);
        assert(token_texts(o).len() == ot.len());
        assert(token_texts(n).len() == nt.len());
        lemma_changed_ranges_in_text(o, ot, ko, ot.len() as int);
        lemma_changed_ranges_in_text(n, nt, kn, nt.len() as int);
        lemma_coalesced_in_text(o, changed_ranges(ot, ko, ot.len() as int));
        lemma_coalesced_in_text(n, changed_ranges(nt, kn, nt.len() as int));
    }
}

} // verus!

verus! {

/// Token `s` of `a` equals token `s - k` of `b`: a diagonal step of the edit graph.
pub open spec fn diag_match(a: Seq<Seq<char>>, b: Seq<Seq<char>>, s: int, k: int) -> bool {
    0 <= s < a.len() && 0 <= s - k < b.len() && a[s] == b[s - k]
}

/// The fewest insertions and deletions needed to reach point `(x, y)` of the edit graph,
/// where steps past the end of either side cost one each.
pub open spec fn reach_cost(a: Seq<Seq<char>>, b: Seq<Seq<char>>, x: int, y: int) -> int {
    let cx = if x <= a.len() {
        x
    } else {
        a.len() as int
    };
    let cy = if y <= b.len() {
        y
    } else {
        b.len() as int
    };
    edit_dist(a, b, cx, cy) + (x - cx) + (y - cy)
}

/// Where round `d` of Myers' diff starts on diagonal `k`: below the furthest point of
/// diagonal `k + 1`, or right of the furthest point of diagonal `k - 1`, of round `d - 1`.
pub open spec fn start_x(prev: Seq<isize>, d: int, k: int, off: int) -> int {
    if d == 0 {
        0
    } else if k == -d {
        prev[k + 1 + off] as int
    } else if k == d {
        prev[k - 1 + off] + 1
    } else if prev[k - 1 + off] < prev[k + 1 + off] {
        prev[k + 1 + off] as int
    } else {
        prev[k - 1 + off] + 1
    }
}

/// From `x0` on diagonal `k`, matching tokens were followed up to `x`, and no further.
pub open spec fn snake_ok(a: Seq<Seq<char>>, b: Seq<Seq<char>>, k: int, x0: int, x: int) -> bool {
    &&& x0 <= x
    &&& forall|s: int| x0 <= s < x ==> #[trigger] diag_match(a, b, s, k)
    &&& !diag_match(a, b, x, k)
}

/// Every point of diagonal `k` within both sides that costs at most `d` lies at or before
/// `x`.
pub open spec fn furthest(a: Seq<Seq<char>>, b: Seq<Seq<char>>, d: int, k: int, x: int) -> bool {
    forall|p: int|
        0 <= p <= a.len() && 0 <= p - k <= b.len() && #[trigger] edit_dist(a, b, p, p - k) <= d ==> p
            <= x
}

/// The rounds of Myers' diff recorded in a trace.
pub open spec fn trace_view(tr: Seq<Vec<isize>>) -> Seq<Seq<isize>> {
    tr.map_values(|v: Vec<isize>| v@)
}

/// What a finished round `t` of the trace holds on diagonal `k`: a point that costs at most
/// `t`, at least as far as every point of cost at most `t`, not the end of both sides, and
/// reached from the round before by one step and then matching tokens.
pub open spec fn round_fact(a: Seq<Seq<char>>, b: Seq<Seq<char>>, tv: Seq<Seq<isize>>, t: int, k: int, off: int) -> bool {
    let x = tv[t][k + off] as int;
    &&& 0 <= x
    &&& 0 <= x - k
    &&& reach_cost(a, b, x, x - k) <= t
    &&& furthest(a, b, t, k, x)
    &&& !(x >= a.len() && x - k >= b.len())
    &&& snake_ok(a, b, k, start_x(if t >= 1 { tv[t - 1] } else { tv[t] }, t, k, off), x)
}

/// Every diagonal of round `t`.
pub open spec fn round_done(a: Seq<Seq<char>>, b: Seq<Seq<char>>, tv: Seq<Seq<isize>>, t: int, off: int) -> bool {
    forall|k: int| -t <= k <= t && (k + t) % 2 == 0 ==> #[trigger] round_fact(a, b, tv, t, k, off)
}

proof fn lemma_snake_back(a: Seq<Seq<char>>, b: Seq<Seq<char>>, x: int, k: int) -> (x1: int)
    requires
        0 <= x <= a.len(),
        0 <= x - k <= b.len(),
    ensures
        0 <= x1 <= x,
        0 <= x1 - k,
        edit_dist(a, b, x1, x1 - k) == edit_dist(a, b, x, x - k),
        forall|s: int| x1 <= s < x ==> #[trigger] diag_match(a, b, s, k),
        x1 == 0 || x1 - k == 0 || !diag_match(a, b, x1 - 1, k),
    decreases x,
{
    if x > 0 && x - k > 0 && a[x - 1] == b[x - 1 - k] {
        let x1 = lemma_snake_back(a, b, x - 1, k);
        assert(diag_match(a, b, x - 1, k));
        x1
    } else {
        x
    }
}

proof fn lemma_reach_step(a: Seq<Seq<char>>, b: Seq<Seq<char>>, x: int, y: int)
    requires
        0 <= x,
        0 <= y,
    ensures
        reach_cost(a, b, x + 1, y) <= reach_cost(a, b, x, y) + 1,
        reach_cost(a, b, x, y + 1) <= reach_cost(a, b, x, y) + 1,
        0 <= x < a.len() && 0 <= y < b.len() && a[x] == b[y] ==> reach_cost(a, b, x + 1, y + 1)
            <= reach_cost(a, b, x, y),
{
    let cx = if x <= a.len() {
        x
    } else {
        a.len() as int
    };
    let cy = if y <= b.len() {
        y
    } else {
        b.len() as int
    };
    if x < a.len() {
        lemma_lcs_steps(a, b, x + 1, cy);
    }
    if y < b.len() {
        lemma_lcs_steps(a, b, cx, y + 1);
    }
}

/// The cost of reaching the end of both sides is at least the round that first reaches it.
proof fn lemma_end_not_before(a: Seq<Seq<char>>, b: Seq<Seq<char>>, tv: Seq<Seq<isize>>, d: int, off: int)
    requires
        0 <= d <= tv.len(),
        forall|t: int| 0 <= t < d ==> #[trigger] round_done(a, b, tv, t, off),
    ensures
        d <= edit_dist(a, b, a.len() as int, b.len() as int),
{
    let n = a.len() as int;
    let m = b.len() as int;
    let e = edit_dist(a, b, n, m);
    lemma_lcs_steps(a, b, n, m);
    if e < d {
        assert(round_done(a, b, tv, e, off));
        let k = n - m;
        assert((k + e) % 2 == 0);
        assert(round_fact(a, b, tv, e, k, off));
        assert(edit_dist(a, b, n, n - k) <= e);
    }
}

/// Round `d` reaches on diagonal `k` at least as far as every point of cost at most `d`.
proof fn lemma_furthest_step(
    a: Seq<Seq<char>>,
    b: Seq<Seq<char>>,
    prev: Seq<isize>,
    d: int,
    k: int,
    off: int,
    x: int,
)
    requires
        0 <= d,
        -d <= k <= d,
        (k + d) % 2 == 0,
        d >= 1 ==> forall|j: int|
            -(d - 1) <= j <= d - 1 && (j + d - 1) % 2 == 0 ==> #[trigger] furthest(
                a,
                b,
                d - 1,
                j,
                prev[j + off] as int,
            ),
        d >= 1 ==> forall|j: int| -(d - 1) <= j <= d - 1 && (j + d - 1) % 2 == 0 ==> 0 <= #[trigger] prev[j + off],
        snake_ok(a, b, k, start_x(prev, d, k, off), x),
        0 <= start_x(prev, d, k, off),
    ensures
        furthest(a, b, d, k, x),
{
    let x0 = start_x(prev, d, k, off);
    assert forall|p: int|
        0 <= p <= a.len() && 0 <= p - k <= b.len() && #[trigger] edit_dist(a, b, p, p - k) <= d implies p
        <= x by {
        let x1 = lemma_snake_back(a, b, p, k);
        let y1 = x1 - k;
        let e1 = edit_dist(a, b, x1, y1);
        lemma_lcs_steps(a, b, x1, y1);
        if x1 > 0 {
            if e1 == 0 {
                if y1 > 0 {
                    lemma_lcs_steps(a, b, x1 - 1, y1);
                    lemma_lcs_steps(a, b, x1, y1 - 1);
                    assert(!diag_match(a, b, x1 - 1, k));
                }
                assert(false);
            }
            if y1 == 0 {
                // The last step into the snake came from the left, on diagonal k - 1.
                lemma_lcs_steps(a, b, x1 - 1, 0);
                assert(edit_dist(a, b, x1 - 1, y1) == e1 - 1);
                assert(furthest(a, b, d - 1, k - 1, prev[k - 1 + off] as int));
                assert(edit_dist(a, b, x1 - 1, (x1 - 1) - (k - 1)) <= d - 1);
            } else {
                assert(!diag_match(a, b, x1 - 1, k));
                lemma_lcs_steps(a, b, x1 - 1, y1);
                lemma_lcs_steps(a, b, x1, y1 - 1);
                if edit_dist(a, b, x1 - 1, y1) == e1 - 1 {
                    assert(furthest(a, b, d - 1, k - 1, prev[k - 1 + off] as int));
                    assert(edit_dist(a, b, x1 - 1, (x1 - 1) - (k - 1)) <= d - 1);
                } else {
                    assert(edit_dist(a, b, x1, y1 - 1) == e1 - 1);
                    assert(furthest(a, b, d - 1, k + 1, prev[k + 1 + off] as int));
                    assert(edit_dist(a, b, x1, x1 - (k + 1)) <= d - 1);
                }
            }
        }
        assert(x1 <= x0);
        if x < p {
            assert(x0 <= x);
            assert(diag_match(a, b, x, k));
        }
    }
}

} // verus!

verus! {

/// No marking of tokens that pairs the same texts on both sides, in order, keeps more
/// tokens than a longest common subsequence has; the word diff keeps exactly that many.
pub proof fn law_common_marks_at_most_lcs(
    a: Seq<Seq<char>>,
    keep_a: Seq<bool>,
    b: Seq<Seq<char>>,
    keep_b: Seq<bool>,
)
    requires
        common_marks(a, keep_a, b, keep_b),
    ensures
        kept_from(a, keep_a, 0).len() <= lcs_len(a, b, a.len() as int, b.len() as int),
{
    lemma_kept_from_before(a, keep_a, a.len() as int);
    lemma_kept_from_before(b, keep_b, b.len() as int);
    lemma_common_marks_bounded(a, keep_a, b, keep_b, a.len() as int, b.len() as int);
}

} // verus!

verus! {

proof fn lemma_lcs_self(a: Seq<Seq<char>>, i: int)
    requires
        0 <= i <= a.len(),
    ensures
        lcs_len(a, a, i, i) == i,
    decreases i,
{
    if i > 0 {
        lemma_lcs_self(a, i - 1);
    }
}

proof fn lemma_all_kept(t: Seq<Seq<char>>, k: Seq<bool>, i: int)
    requires
        0 <= i <= t.len(),
        k.len() == t.len(),
    ensures
        kept_from(t, k, i).len() <= t.len() - i,
        kept_from(t, k, i).len() == t.len() - i ==> forall|j: int| i <= j < t.len() ==> #[trigger] k[j],
    decreases t.len() - i,
{
    if i < t.len() {
        lemma_all_kept(t, k, i + 1);
    }
}

proof fn lemma_changed_ranges_none(toks: Seq<(usize, usize, TokenKind)>, keep: Seq<bool>, n: int)
    requires
        0 <= n <= toks.len(),
        keep.len() == toks.len(),
        forall|j: int| 0 <= j < keep.len() ==> #[trigger] keep[j],
    ensures
        changed_ranges(toks, keep, n).len() == 0,
    decreases n,
{
    if n > 0 {
        lemma_changed_ranges_none(toks, keep, n - 1);
        assert(keep[n - 1]);
    }
}

proof fn lemma_common_prefix_self(a: Seq<char>, i: int)
    requires
        0 <= i <= a.len(),
    ensures
        common_prefix(a, a, i) == a.len(),
    decreases a.len() - i,
{
    if i < a.len() {
        lemma_common_prefix_self(a, i + 1);
    }
}

/// A line compared with itself gets no highlights.
pub proof fn law_unchanged_line_has_no_highlights(
    o: Seq<char>,
    ro: Seq<(usize, usize)>,
    rn: Seq<(usize, usize)>,
)
    requires
        fits(o),
        word_diff(o, o, ro, rn),
    ensures
        ro.len() == 0,
        rn.len() == 0,
{
    let ot = tokens_of(o);
    if ot.len() > MAX_WORD_DIFF_TOKENS || ot.len() == 0 {
        lemma_common_prefix_self(o, 0);
        assert(o.skip(o.len() as int) =~= Seq::<char>::empty());
        assert(common_suffix(o.skip(o.len() as int), o.skip(o.len() as int), 0) == 0);
    } else {
        let tt = token_texts(o);
        let (ko, kn) = choose|ko: Seq<bool>, kn: Seq<bool>|
            {
                &&& common_marks(tt, ko, tt, kn)
                &&& kept_from(tt, ko, 0).len() == lcs_len(tt, tt, ot.len() as int, ot.len() as int)
                &&& ro == coalesced(changed_ranges(ot, ko, ot.len() as int))
                &&& rn == coalesced(changed_ranges(ot, kn, ot.len() as int))
            };
        assert(tt.len() == ot.len());
        lemma_lcs_self(tt, tt.len() as int);
        lemma_all_kept(tt, ko, 0);
        lemma_all_kept(tt, kn, 0);
        lemma_changed_ranges_none(ot, ko, ot.len() as int);
        lemma_changed_ranges_none(ot, kn, ot.len() as int);
    }
}

} // verus!
