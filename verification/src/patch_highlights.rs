use vstd::prelude::*;
use std::ops::Range;
use crate::conflict_rows::DiffLineKind;
use crate::diff_patch::{content_text, diff_content_text, AnnotatedDiffLine};
use crate::diff_text::str_byte_len;
use crate::word_diff::{byte_offset, fits, nonempty, opt_ranges, ranges_v, word_diff, word_diff_ranges};

verus! {

/// Line `i` of the patch exists and is of kind `k`.
pub open spec fn kind_at(d: Seq<AnnotatedDiffLine>, i: int, k: DiffLineKind) -> bool {
    0 <= i < d.len() && d[i].kind == k
}

/// The first line of the run of kind `k` that line `i` ends.
pub open spec fn run_start(d: Seq<AnnotatedDiffLine>, i: int, k: DiffLineKind) -> int
    decreases i,
{
    if i > 0 && kind_at(d, i - 1, k) {
        run_start(d, i - 1, k)
    } else {
        i
    }
}

/// The line after the run of kind `k` that continues at line `i`.
pub open spec fn run_end(d: Seq<AnnotatedDiffLine>, i: int, k: DiffLineKind) -> int
    decreases d.len() - i,
{
    if 0 <= i && kind_at(d, i, k) {
        run_end(d, i + 1, k)
    } else {
        i
    }
}

/// The added line that removed line `i` is compared with: the one at the same place in the
/// run of added lines right after its run of removed lines, if that run is long enough.
pub open spec fn removed_partner(d: Seq<AnnotatedDiffLine>, i: int) -> Option<int> {
    let rs = run_start(d, i, DiffLineKind::Remove);
    let re = run_end(d, i, DiffLineKind::Remove);
    let ae = run_end(d, re, DiffLineKind::Add);
    if re + (i - rs) < ae {
        Some(re + (i - rs))
    } else {
        None
    }
}

/// Added line `j` follows a run of removed lines.
pub open spec fn after_removal(d: Seq<AnnotatedDiffLine>, j: int) -> bool {
    let s = run_start(d, j, DiffLineKind::Add);
    s > 0 && kind_at(d, s - 1, DiffLineKind::Remove)
}

/// Added line `j` (after a run of removed lines) has a removed line to be compared with.
pub open spec fn added_paired(d: Seq<AnnotatedDiffLine>, j: int) -> bool {
    let s = run_start(d, j, DiffLineKind::Add);
    let rs = run_start(d, s - 1, DiffLineKind::Remove);
    j - s < s - rs
}

/// The byte length of the content of a line.
pub open spec fn content_bytes(l: AnnotatedDiffLine) -> nat {
    byte_offset(content_text(l), content_text(l).len() as int)
}

/// The whole content of a line as one range, or nothing for an empty line.
pub open spec fn whole_line(l: AnnotatedDiffLine) -> Option<Seq<(usize, usize)>> {
    if content_text(l).len() == 0 {
        None
    } else {
        Some(seq![(0usize, content_bytes(l) as usize)])
    }
}

/// What the word highlights `h` hold for line `i`: a removed line and the added line it is
/// compared with hold their word diff (nothing where it is empty); a removed or added line
/// with no counterpart is highlighted whole; every other line has no highlight.
pub open spec fn line_highlight_ok(
    d: Seq<AnnotatedDiffLine>,
    h: Seq<Option<Vec<Range<usize>>>>,
    i: int,
) -> bool {
    if d[i].kind == DiffLineKind::Remove {
        match removed_partner(d, i) {
            Some(j) => exists|ro: Seq<(usize, usize)>, rn: Seq<(usize, usize)>|
                {
                    &&& word_diff(content_text(d[i]), content_text(d[j]), ro, rn)
                    &&& opt_ranges(h[i]) == nonempty(ro)
                    &&& opt_ranges(h[j]) == nonempty(rn)
                },
            None => opt_ranges(h[i]) == whole_line(d[i]),
        }
    } else if d[i].kind == DiffLineKind::Add && after_removal(d, i) {
        added_paired(d, i) || opt_ranges(h[i]) == whole_line(d[i])
    } else {
        h[i] is None
    }
}

/// Removed line `rs + q` and added line `re + q` hold their word diff.
pub open spec fn pair_ok(
    d: Seq<AnnotatedDiffLine>,
    h: Seq<Option<Vec<Range<usize>>>>,
    rs: int,
    re: int,
    q: int,
) -> bool {
    exists|ro: Seq<(usize, usize)>, rn: Seq<(usize, usize)>|
        {
            &&& word_diff(content_text(d[rs + q]), content_text(d[re + q]), ro, rn)
            &&& opt_ranges(h[rs + q]) == nonempty(ro)
            &&& opt_ranges(h[re + q]) == nonempty(rn)
        }
}

proof fn lemma_pair_frame(
    d: Seq<AnnotatedDiffLine>,
    h0: Seq<Option<Vec<Range<usize>>>>,
    h1: Seq<Option<Vec<Range<usize>>>>,
    rs: int,
    re: int,
    q: int,
)
    requires
        pair_ok(d, h0, rs, re, q),
        h1[rs + q] == h0[rs + q],
        h1[re + q] == h0[re + q],
    ensures
        pair_ok(d, h1, rs, re, q),
{
    let (ro, rn) = choose|ro: Seq<(usize, usize)>, rn: Seq<(usize, usize)>|
        {
            &&& word_diff(content_text(d[rs + q]), content_text(d[re + q]), ro, rn)
            &&& opt_ranges(h0[rs + q]) == nonempty(ro)
            &&& opt_ranges(h0[re + q]) == nonempty(rn)
        };
    assert(word_diff(content_text(d[rs + q]), content_text(d[re + q]), ro, rn));
}

proof fn lemma_run_start_range(d: Seq<AnnotatedDiffLine>, i: int, k: DiffLineKind)
    requires
        0 <= i,
    ensures
        0 <= run_start(d, i, k) <= i,
    decreases i,
{
    if i > 0 && kind_at(d, i - 1, k) {
        lemma_run_start_range(d, i - 1, k);
    }
}

proof fn lemma_run_end_const(d: Seq<AnnotatedDiffLine>, a: int, i: int, k: DiffLineKind)
    requires
        0 <= a <= i < run_end(d, a, k),
    ensures
        run_end(d, i, k) == run_end(d, a, k),
        kind_at(d, i, k),
    decreases i - a,
{
    if a < i {
        lemma_run_end_const(d, a + 1, i, k);
    }
}

proof fn lemma_run_end_range(d: Seq<AnnotatedDiffLine>, a: int, k: DiffLineKind)
    requires
        0 <= a <= d.len(),
    ensures
        a <= run_end(d, a, k) <= d.len(),
        !kind_at(d, run_end(d, a, k), k),
    decreases d.len() - a,
{
    if kind_at(d, a, k) {
        lemma_run_end_range(d, a + 1, k);
    }
}

proof fn lemma_run_start_const(d: Seq<AnnotatedDiffLine>, a: int, i: int, k: DiffLineKind)
    requires
        0 <= a <= i,
        a == 0 || !kind_at(d, a - 1, k),
        forall|t: int| a <= t < i ==> #[trigger] kind_at(d, t, k),
    ensures
        run_start(d, i, k) == a,
    decreases i - a,
{
    if a < i {
        lemma_run_start_const(d, a, i - 1, k);
    }
}

} // verus!

verus! {


/// After a run of removed lines `[rs, re)` and the run of added lines `[re, ae)` after it
/// are highlighted, every line before `ae` holds what `line_highlight_ok` asks.
proof fn lemma_group_done(
    d: Seq<AnnotatedDiffLine>,
    h0: Seq<Option<Vec<Range<usize>>>>,
    h: Seq<Option<Vec<Range<usize>>>>,
    rs: int,
    re: int,
    ae: int,
    pairs: int,
)
    requires
        0 <= rs < re <= ae <= d.len(),
        h.len() == d.len(),
        h0.len() == d.len(),
        re == run_end(d, rs, DiffLineKind::Remove),
        ae == run_end(d, re, DiffLineKind::Add),
        rs == 0 || !kind_at(d, rs - 1, DiffLineKind::Remove),
        pairs == if re - rs < ae - re {
            re - rs
        } else {
            ae - re
        },
        forall|i: int| 0 <= i < rs ==> #[trigger] line_highlight_ok(d, h0, i),
        forall|i: int|
            0 <= i < rs && kind_at(d, i, DiffLineKind::Remove) ==> run_end(
                d,
                #[trigger] run_end(d, i, DiffLineKind::Remove),
                DiffLineKind::Add,
            ) <= rs,
        forall|i: int| 0 <= i < rs ==> #[trigger] h[i] == h0[i],
        forall|i: int| rs + pairs <= i < re ==> opt_ranges(#[trigger] h[i]) == whole_line(d[i]),
        forall|i: int| re + pairs <= i < ae ==> opt_ranges(#[trigger] h[i]) == whole_line(d[i]),
        forall|q: int| 0 <= q < pairs ==> #[trigger] pair_ok(d, h, rs, re, q),
    ensures
        forall|i: int| 0 <= i < ae ==> #[trigger] line_highlight_ok(d, h, i),
        forall|i: int|
            0 <= i < ae && kind_at(d, i, DiffLineKind::Remove) ==> run_end(
                d,
                #[trigger] run_end(d, i, DiffLineKind::Remove),
                DiffLineKind::Add,
            ) <= ae,
{
    assert forall|t: int| rs <= t < re implies #[trigger] kind_at(d, t, DiffLineKind::Remove) by {
        lemma_run_end_const(d, rs, t, DiffLineKind::Remove);
    }
    assert forall|i: int| rs <= i < re implies run_start(d, i, DiffLineKind::Remove) == rs
        && run_end(d, i, DiffLineKind::Remove) == re && #[trigger] kind_at(d, i, DiffLineKind::Remove) by {
        lemma_run_start_const(d, rs, i, DiffLineKind::Remove);
        lemma_run_end_const(d, rs, i, DiffLineKind::Remove);
    }
    assert forall|j: int| re <= j < ae implies run_start(d, j, DiffLineKind::Add) == re
        && #[trigger] kind_at(d, j, DiffLineKind::Add) by {
        lemma_run_end_const(d, re, j, DiffLineKind::Add);
        assert(kind_at(d, re - 1, DiffLineKind::Remove));
        assert forall|t: int| re <= t < j implies #[trigger] kind_at(d, t, DiffLineKind::Add) by {
            lemma_run_end_const(d, re, t, DiffLineKind::Add);
        }
        lemma_run_start_const(d, re, j, DiffLineKind::Add);
    }
    assert(run_start(d, re - 1, DiffLineKind::Remove) == rs);
    assert forall|i: int| 0 <= i < ae implies #[trigger] line_highlight_ok(d, h, i) by {
        if i < rs {
            assert(line_highlight_ok(d, h0, i));
            assert(h[i] == h0[i]);
            if d[i].kind == DiffLineKind::Remove {
                assert(kind_at(d, i, DiffLineKind::Remove));
                match removed_partner(d, i) {
                    Some(j) => {
                        let rei = run_end(d, i, DiffLineKind::Remove);
                        lemma_run_end_range(d, i, DiffLineKind::Remove);
                        lemma_run_end_range(d, rei, DiffLineKind::Add);
                        lemma_run_start_range(d, i, DiffLineKind::Remove);
                        assert(0 <= j < rs);
                        assert(h[j] == h0[j]);
                        let (ro, rn) = choose|ro: Seq<(usize, usize)>, rn: Seq<(usize, usize)>|
                            {
                                &&& word_diff(content_text(d[i]), content_text(d[j]), ro, rn)
                                &&& opt_ranges(h0[i]) == nonempty(ro)
                                &&& opt_ranges(h0[j]) == nonempty(rn)
                            };
                        assert(word_diff(content_text(d[i]), content_text(d[j]), ro, rn)
                            && opt_ranges(h[i]) == nonempty(ro) && opt_ranges(h[j]) == nonempty(rn));
                    },
                    None => {},
                }
            }
        } else if i < re {
            assert(kind_at(d, i, DiffLineKind::Remove));
            let q = i - rs;
            if q < pairs {
                assert(removed_partner(d, i) == Some(re + q));
                assert(pair_ok(d, h, rs, re, q));
            } else {
                assert(removed_partner(d, i) is None);
            }
        } else {
            assert(kind_at(d, i, DiffLineKind::Add));
            assert(after_removal(d, i));
            if i - re < pairs {
                assert(added_paired(d, i));
            }
        }
    }
    assert forall|i: int|
        0 <= i < ae && kind_at(d, i, DiffLineKind::Remove) implies run_end(
        d,
        #[trigger] run_end(d, i, DiffLineKind::Remove),
        DiffLineKind::Add,
    ) <= ae by {
        if i >= rs {
            if i >= re {
                assert(kind_at(d, i, DiffLineKind::Add));
            }
        }
    }
}

fn line_is_kind(l: &AnnotatedDiffLine, k: DiffLineKind) -> (r: bool)
    ensures
        r == (l.kind == k),
{
    l.kind == k
}

fn line_content_is_empty(l: &AnnotatedDiffLine) -> (r: (String, bool))
    ensures
        r.0@ == content_text(*l),
        r.1 == (content_text(*l).len() == 0),
{
    let t = diff_content_text(l);
    let cs = crate::text::str_to_chars(t.as_str());
    let e = cs.len() == 0;
    (t, e)
}

/// The whole content of `l` as a highlight, or nothing for an empty line.
fn whole_line_exec(l: &AnnotatedDiffLine) -> (r: Option<Vec<Range<usize>>>)
    ensures
        opt_ranges(r) == whole_line(*l),
{
    let (t, empty) = line_content_is_empty(l);
    if empty {
        None
    } else {
        let len = str_byte_len(t.as_str());
        let v = vec![0..len];
        assert(ranges_v(v@) =~= seq![(0usize, len)]);
        Some(v)
    }
}

/// The word highlights of every line of a patch: each run of removed lines is compared,
/// line by line, with the run of added lines right after it (see `line_highlight_ok`).
pub fn rebuild_diff_word_highlights(diff: &[AnnotatedDiffLine]) -> (h: Vec<Option<Vec<Range<usize>>>>)
    requires
        forall|i: int| 0 <= i < diff@.len() ==> fits(#[trigger] content_text(diff@[i])),
    ensures
        h@.len() == diff@.len(),
        forall|i: int| 0 <= i < diff@.len() ==> #[trigger] line_highlight_ok(diff@, h@, i),
{
    let ghost d = diff@;
    let n = diff.len();
    let mut h: Vec<Option<Vec<Range<usize>>>> = Vec::new();
    let mut k: usize = 0;
    while k < n
        invariant
            k <= n,
            n == d.len(),
            h@.len() == k,
            forall|i: int| 0 <= i < k ==> #[trigger] h@[i] is None,
        decreases n - k,
    {
        h.push(None);
        k = k + 1;
    }
    let mut ix: usize = 0;
    while ix < n
        invariant
            d == diff@,
            n == d.len(),
            ix <= n,
            h@.len() == n,
            forall|i: int| 0 <= i < d.len() ==> fits(#[trigger] content_text(d[i])),
            forall|i: int| 0 <= i < ix ==> #[trigger] line_highlight_ok(d, h@, i),
            forall|i: int| ix <= i < n ==> #[trigger] h@[i] is None,
            forall|i: int|
                0 <= i < ix && kind_at(d, i, DiffLineKind::Remove) ==> run_end(
                    d,
                    #[trigger] run_end(d, i, DiffLineKind::Remove),
                    DiffLineKind::Add,
                ) <= ix,
            kind_at(d, ix as int, DiffLineKind::Remove) ==> !(ix > 0 && kind_at(d, ix - 1, DiffLineKind::Remove)),
            kind_at(d, ix as int, DiffLineKind::Add) ==> !after_removal(d, ix as int),
        decreases n - ix,
    {
        let is_remove = line_is_kind(&diff[ix], DiffLineKind::Remove);
        if !is_remove {
            proof {
                let j = ix + 1;
                if kind_at(d, j, DiffLineKind::Add) {
                    if kind_at(d, ix as int, DiffLineKind::Add) {
                        assert(run_start(d, j, DiffLineKind::Add) == run_start(d, ix as int, DiffLineKind::Add));
                    } else {
                        assert(run_start(d, j, DiffLineKind::Add) == j);
                    }
                }
                assert(line_highlight_ok(d, h@, ix as int));
            }
            ix = ix + 1;
            continue;
        }
        let rs = ix;
        while ix < n && line_is_kind(&diff[ix], DiffLineKind::Remove)
            invariant
                d == diff@,
                n == d.len(),
                rs <= ix <= n,
                run_end(d, rs as int, DiffLineKind::Remove) == run_end(d, ix as int, DiffLineKind::Remove),
                forall|t: int| rs <= t < ix ==> #[trigger] kind_at(d, t, DiffLineKind::Remove),
            decreases n - ix,
        {
            ix = ix + 1;
        }
        let re = ix;
        while ix < n && line_is_kind(&diff[ix], DiffLineKind::Add)
            invariant
                d == diff@,
                n == d.len(),
                re <= ix <= n,
                run_end(d, re as int, DiffLineKind::Add) == run_end(d, ix as int, DiffLineKind::Add),
                forall|t: int| re <= t < ix ==> #[trigger] kind_at(d, t, DiffLineKind::Add),
            decreases n - ix,
        {
            ix = ix + 1;
        }
        let ae = ix;
        proof {
            assert(re == run_end(d, rs as int, DiffLineKind::Remove));
            assert(ae == run_end(d, re as int, DiffLineKind::Add));
            assert(re > rs);
            assert forall|i: int| rs <= i < re implies run_start(d, i, DiffLineKind::Remove) == rs
                && run_end(d, i, DiffLineKind::Remove) == re by {
                lemma_run_start_const(d, rs as int, i, DiffLineKind::Remove);
                lemma_run_end_const(d, rs as int, i, DiffLineKind::Remove);
            }
            assert(kind_at(d, re - 1, DiffLineKind::Remove));
            assert forall|j: int| re <= j < ae implies run_start(d, j, DiffLineKind::Add) == re by {
                lemma_run_start_const(d, re as int, j, DiffLineKind::Add);
            }
        }
        let ghost h_start = h@;
        let nr = re - rs;
        let na = ae - re;
        let pairs = if nr < na {
            nr
        } else {
            na
        };
        let mut t: usize = 0;
        while t < pairs
            invariant
                d == diff@,
                n == d.len(),
                rs < re <= ae <= n,
                nr == re - rs,
                na == ae - re,
                pairs <= nr,
                pairs <= na,
                t <= pairs,
                h@.len() == n,
                forall|i: int| 0 <= i < d.len() ==> fits(#[trigger] content_text(d[i])),
                forall|i: int| 0 <= i < rs ==> #[trigger] h@[i] == h_start[i],
                forall|i: int|
                    ae <= i < n || (rs + t <= i < re) || (re + t <= i < ae) ==> #[trigger] h@[i] is None,
                forall|q: int| 0 <= q < t ==> #[trigger] pair_ok(d, h@, rs as int, re as int, q),
            decreases pairs - t,
        {
            let (ot, _) = line_content_is_empty(&diff[rs + t]);
            let (nt, _) = line_content_is_empty(&diff[re + t]);
            let (ro, rn) = word_diff_ranges(ot.as_str(), nt.as_str());
            let ghost rov = ranges_v(ro@);
            let ghost rnv = ranges_v(rn@);
            let ghost h0 = h@;
            let ro_some = ro.len() > 0;
            let rn_some = rn.len() > 0;
            if ro_some {
                h.set(rs + t, Some(ro));
            }
            if rn_some {
                h.set(re + t, Some(rn));
            }
            proof {
                assert(opt_ranges(h@[rs + t]) == nonempty(rov));
                assert(opt_ranges(h@[re + t]) == nonempty(rnv));
                assert(pair_ok(d, h@, rs as int, re as int, t as int));
                assert forall|q: int| 0 <= q < t + 1 implies #[trigger] pair_ok(d, h@, rs as int, re as int, q) by {
                    if q < t {
                        lemma_pair_frame(d, h0, h@, rs as int, re as int, q);
                    }
                }
            }
            t = t + 1;
        }
        let mut u: usize = pairs;
        while u < nr
            invariant
                d == diff@,
                n == d.len(),
                rs < re <= ae <= n,
                nr == re - rs,
                na == ae - re,
                pairs <= u <= nr,
                pairs <= na,
                h@.len() == n,
                forall|i: int| 0 <= i < rs ==> #[trigger] h@[i] == h_start[i],
                forall|i: int|
                    ae <= i < n || (rs + u <= i < re) || (re + pairs <= i < ae) ==> #[trigger] h@[i] is None,
                forall|i: int| rs + pairs <= i < rs + u ==> opt_ranges(#[trigger] h@[i]) == whole_line(d[i]),
                forall|q: int| 0 <= q < pairs ==> #[trigger] pair_ok(d, h@, rs as int, re as int, q),
            decreases nr - u,
        {
            let w = whole_line_exec(&diff[rs + u]);
            let ghost h0 = h@;
            h.set(rs + u, w);
            proof {
                assert forall|q: int| 0 <= q < pairs implies #[trigger] pair_ok(d, h@, rs as int, re as int, q) by {
                    lemma_pair_frame(d, h0, h@, rs as int, re as int, q);
                }
            }
            u = u + 1;
        }
        let mut u: usize = pairs;
        while u < na
            invariant
                d == diff@,
                n == d.len(),
                rs < re <= ae <= n,
                nr == re - rs,
                na == ae - re,
                pairs <= u <= na,
                pairs <= nr,
                h@.len() == n,
                forall|i: int| 0 <= i < rs ==> #[trigger] h@[i] == h_start[i],
                forall|i: int| ae <= i < n || (re + u <= i < ae) ==> #[trigger] h@[i] is None,
                forall|i: int| rs + pairs <= i < re ==> opt_ranges(#[trigger] h@[i]) == whole_line(d[i]),
                forall|i: int| re + pairs <= i < re + u ==> opt_ranges(#[trigger] h@[i]) == whole_line(d[i]),
                forall|q: int| 0 <= q < pairs ==> #[trigger] pair_ok(d, h@, rs as int, re as int, q),
            decreases na - u,
        {
            let w = whole_line_exec(&diff[re + u]);
            let ghost h0 = h@;
            h.set(re + u, w);
            proof {
                assert forall|q: int| 0 <= q < pairs implies #[trigger] pair_ok(d, h@, rs as int, re as int, q) by {
                    lemma_pair_frame(d, h0, h@, rs as int, re as int, q);
                }
            }
            u = u + 1;
        }
        proof {
            lemma_group_done(d, h_start, h@, rs as int, re as int, ae as int, pairs as int);
            lemma_run_end_range(d, rs as int, DiffLineKind::Remove);
            lemma_run_end_range(d, re as int, DiffLineKind::Add);
            if ae > re {
                lemma_run_end_const(d, re as int, ae - 1, DiffLineKind::Add);
            }
        }
    }
    h
}

} // verus!
