use vstd::prelude::*;

verus! {

/// How the diff view lays out a diff: one column, or old and new side by side.
#[derive(Clone, Copy, Debug, PartialEq, Eq, Structural)]
pub enum DiffViewMode {
    Inline,
    Split,
}

/// The column of the diff view that a text position lies in.
#[derive(Clone, Copy, Debug, PartialEq, Eq, Hash, Structural)]
pub enum DiffTextRegion {
    Inline,
    SplitLeft,
    SplitRight,
}

/// The rank of a region when positions on one row are ordered: the left (or only) column
/// before the right one.
pub open spec fn region_order(r: DiffTextRegion) -> u8 {
    match r {
        DiffTextRegion::SplitRight => 1,
        _ => 0,
    }
}

impl DiffTextRegion {
    /// The rank of this region among the columns of a row.
    pub fn order(self) -> (o: u8)
        ensures
            o == region_order(self),
    {
        match self {
            DiffTextRegion::Inline | DiffTextRegion::SplitLeft => 0,
            DiffTextRegion::SplitRight => 1,
        }
    }
}

/// A position in the diff view's text: visible row, column, and character offset.
#[derive(Clone, Copy, Debug, PartialEq, Eq, Structural)]
pub struct DiffTextPos {
    pub visible_ix: usize,
    pub region: DiffTextRegion,
    pub offset: usize,
}

impl DiffTextPos {
    /// The key by which positions are ordered: row, then column, then offset.
    pub fn cmp_key(self) -> (k: (usize, u8, usize))
        ensures
            k == (self.visible_ix, region_order(self.region), self.offset),
    {
        (self.visible_ix, self.region.order(), self.offset)
    }
}

/// The rows that a context menu opened at `clicked` acts on: the selected rows, when the
/// selection is not empty, the click lies within its rows, and, for a selection inside one
/// column of the split view, the click lies in that column.
pub open spec fn menu_selection_range(
    selection: Option<(DiffTextPos, DiffTextPos)>,
    diff_view: DiffViewMode,
    clicked_visible_ix: usize,
    clicked_region: DiffTextRegion,
) -> Option<(usize, usize)> {
    match selection {
        None => None,
        Some((start, end)) => {
            let restricted = diff_view == DiffViewMode::Split && start.region == end.region && (
            start.region == DiffTextRegion::SplitLeft || start.region
                == DiffTextRegion::SplitRight);
            if start == end {
                None
            } else if clicked_visible_ix < start.visible_ix || clicked_visible_ix > end.visible_ix {
                None
            } else if restricted && start.region != clicked_region {
                None
            } else {
                Some((start.visible_ix, end.visible_ix))
            }
        },
    }
}

/// The row range that a context menu opened on the diff text acts on, if the click falls
/// inside the current selection.
pub fn context_menu_selection_range_from_diff_text(
    selection: Option<(DiffTextPos, DiffTextPos)>,
    diff_view: DiffViewMode,
    clicked_visible_ix: usize,
    clicked_region: DiffTextRegion,
) -> (r: Option<(usize, usize)>)
    ensures
        r == menu_selection_range(selection, diff_view, clicked_visible_ix, clicked_region),
{
    let (start, end) = match selection {
        Some(p) => p,
        None => {
            return None;
        },
    };
    if start == end {
        return None;
    }
    if clicked_visible_ix < start.visible_ix || clicked_visible_ix > end.visible_ix {
        return None;
    }
    let side_region = match start.region {
        DiffTextRegion::SplitLeft => true,
        DiffTextRegion::SplitRight => true,
        DiffTextRegion::Inline => false,
    };
    let restrict = diff_view == DiffViewMode::Split && start.region == end.region && side_region;
    if restrict && start.region != clicked_region {
        return None;
    }
    Some((start.visible_ix, end.visible_ix))
}

} // verus!

verus! {

/// The kind of change that a scrollbar marker shows.
#[derive(Clone, Copy, Debug, PartialEq, Eq, Structural)]
pub enum ScrollbarMarkerKind {
    Add,
    Remove,
    Modify,
}

/// A run of scrollbar buckets `[start, end)` that share one change kind.
#[derive(Clone, Copy, Debug, PartialEq, Eq, Structural)]
pub struct ScrollbarBucketMarker {
    pub start: usize,
    pub end: usize,
    pub kind: ScrollbarMarkerKind,
}

/// Scrollbar markers in bucket units: a marker spans `start / bucket_count` to
/// `end / bucket_count` of the scrollbar.
#[derive(Clone, Debug, PartialEq, Eq)]
pub struct ScrollbarBuckets {
    pub bucket_count: usize,
    pub markers: Vec<ScrollbarBucketMarker>,
}

/// The number of buckets for `len` lines: one per line, at most 240.
pub open spec fn bucket_count(len: nat) -> nat {
    if len < 240 {
        len
    } else {
        240
    }
}

/// The bucket that line `ix` of `len` falls in.
pub open spec fn bucket_of(ix: int, bc: int, len: int) -> int {
    (ix * bc) / len
}

/// The union of the flags of the first `k` lines that fall in bucket `b`.
pub open spec fn bucket_flags(flags: Seq<u8>, bc: int, b: int, k: int) -> u8
    decreases k,
{
    if k <= 0 {
        0
    } else if bucket_of(k - 1, bc, flags.len() as int) == b {
        bucket_flags(flags, bc, b, k - 1) | flags[k - 1]
    } else {
        bucket_flags(flags, bc, b, k - 1)
    }
}

/// The flags of every bucket.
pub open spec fn buckets(flags: Seq<u8>) -> Seq<u8> {
    let bc = bucket_count(flags.len());
    Seq::new(bc, |b: int| bucket_flags(flags, bc as int, b, flags.len() as int))
}

/// The end of the run of buckets equal to `f` that continues at `j`.
pub open spec fn run_end(bk: Seq<u8>, j: int, f: u8) -> int
    decreases bk.len() - j,
{
    if 0 <= j < bk.len() && bk[j] == f {
        run_end(bk, j + 1, f)
    } else {
        j
    }
}

/// The marker kind for a bucket's flags: 1 added, 2 removed, anything else both.
pub open spec fn marker_kind(f: u8) -> ScrollbarMarkerKind {
    if f == 1 {
        ScrollbarMarkerKind::Add
    } else if f == 2 {
        ScrollbarMarkerKind::Remove
    } else {
        ScrollbarMarkerKind::Modify
    }
}

/// The markers for the buckets from `i` on: one per maximal run of equal non-zero flags.
pub open spec fn runs_from(bk: Seq<u8>, i: int) -> Seq<ScrollbarBucketMarker>
    decreases bk.len() - i,
{
    if i < 0 || i >= bk.len() {
        Seq::empty()
    } else if bk[i] == 0 {
        runs_from(bk, i + 1)
    } else {
        let e = run_end(bk, i + 1, bk[i]);
        proof {
            lemma_run_end(bk, i + 1, bk[i]);
        }
        if e <= i {
            Seq::empty()
        } else {
            seq![ScrollbarBucketMarker { start: i as usize, end: e as usize, kind: marker_kind(bk[i]) }]
                + runs_from(bk, e)
        }
    }
}

/// The scrollbar markers for per-line change flags (bit 1 added, bit 2 removed).
pub open spec fn scrollbar_markers(flags: Seq<u8>) -> (nat, Seq<ScrollbarBucketMarker>) {
    if flags.len() == 0 {
        (0, Seq::empty())
    } else {
        (bucket_count(flags.len()), runs_from(buckets(flags), 0))
    }
}

/// A run that continues at `j` ends between `j` and the last bucket.
pub proof fn lemma_run_end(bk: Seq<u8>, j: int, f: u8)
    requires
        0 <= j,
    ensures
        j <= run_end(bk, j, f),
        run_end(bk, j, f) <= if j <= bk.len() {
            bk.len() as int
        } else {
            j
        },
    decreases bk.len() - j,
{
    if 0 <= j < bk.len() && bk[j] == f {
        lemma_run_end(bk, j + 1, f);
    }
}

proof fn lemma_bucket_in_range(ix: int, bc: int, len: int)
    requires
        0 <= ix < len,
        0 < bc <= len,
    ensures
        0 <= bucket_of(ix, bc, len) < bc,
{
    assert(0 <= ix * bc) by (nonlinear_arith)
        requires
            0 <= ix,
            0 < bc,
    ;
    assert(ix * bc < len * bc) by (nonlinear_arith)
        requires
            0 <= ix < len,
            0 < bc,
    ;
    assert((ix * bc) / len < bc) by (nonlinear_arith)
        requires
            0 <= ix * bc < len * bc,
            0 < len,
    ;
    assert(0 <= (ix * bc) / len) by (nonlinear_arith)
        requires
            0 <= ix * bc,
            0 < len,
    ;
}

proof fn lemma_or_zero(v: u8)
    ensures
        v | 0u8 == v,
{
    assert(v | 0u8 == v) by (bit_vector);
}

fn fill_buckets(flags: &[u8]) -> (bk: Vec<u8>)
    requires
        flags@.len() > 0,
        flags@.len() * 240 <= usize::MAX,
    ensures
        bk@ == buckets(flags@),
{
    let len = flags.len();
    let bc: usize = if len < 240 {
        len
    } else {
        240
    };
    let mut bk: Vec<u8> = Vec::new();
    let mut b: usize = 0;
    while b < bc
        invariant
            b <= bc,
            bk@.len() == b,
            forall|q: int| 0 <= q < b ==> #[trigger] bk@[q] == 0u8,
        decreases bc - b,
    {
        bk.push(0);
        b = b + 1;
    }
    let mut ix: usize = 0;
    while ix < len
        invariant
            ix <= len,
            len == flags@.len(),
            len * 240 <= usize::MAX,
            bc == bucket_count(len as nat),
            0 < bc <= len,
            bk@.len() == bc,
            forall|q: int| 0 <= q < bc ==> #[trigger] bk@[q] == bucket_flags(flags@, bc as int, q, ix as int),
        decreases len - ix,
    {
        let flag = flags[ix];
        proof {
            lemma_bucket_in_range(ix as int, bc as int, len as int);
            assert(ix * bc <= len * 240) by (nonlinear_arith)
                requires
                    ix < len,
                    bc <= 240,
            ;
        }
        let target = (ix * bc) / len;
        if flag != 0 {
            let cur = bk[target];
            bk.set(target, cur | flag);
        }
        proof {
            assert forall|q: int| 0 <= q < bc implies #[trigger] bk@[q] == bucket_flags(
                flags@,
                bc as int,
                q,
                ix + 1,
            ) by {
                if q == target as int && flag == 0 {
                    lemma_or_zero(bucket_flags(flags@, bc as int, q, ix as int));
                }
            }
        }
        ix = ix + 1;
    }
    assert(bk@ =~= buckets(flags@));
    bk
}

/// The scrollbar markers for per-line change flags, given as values.
pub fn scrollbar_markers_for_flags(flags: &[u8]) -> (r: ScrollbarBuckets)
    requires
        flags@.len() * 240 <= usize::MAX,
    ensures
        r.bucket_count as nat == scrollbar_markers(flags@).0,
        r.markers@ == scrollbar_markers(flags@).1,
{
    if flags.len() == 0 {
        return ScrollbarBuckets { bucket_count: 0, markers: Vec::new() };
    }
    let bk = fill_buckets(flags);
    let bucket_count = bk.len();
    let mut out: Vec<ScrollbarBucketMarker> = Vec::new();
    let mut ix: usize = 0;
    while ix < bucket_count
        invariant
            ix <= bucket_count,
            bucket_count == bk@.len(),
            bk@ == buckets(flags@),
            out@ + runs_from(bk@, ix as int) == runs_from(bk@, 0),
        decreases bucket_count - ix,
    {
        let flag = bk[ix];
        if flag == 0 {
            ix = ix + 1;
            continue;
        }
        let start = ix;
        ix = ix + 1;
        while ix < bucket_count && bk[ix] == flag
            invariant
                start < ix <= bucket_count,
                bucket_count == bk@.len(),
                flag == bk@[start as int],
                run_end(bk@, start + 1, flag) == run_end(bk@, ix as int, flag),
            decreases bucket_count - ix,
        {
            ix = ix + 1;
        }
        let kind = if flag == 1 {
            ScrollbarMarkerKind::Add
        } else if flag == 2 {
            ScrollbarMarkerKind::Remove
        } else {
            ScrollbarMarkerKind::Modify
        };
        let m = ScrollbarBucketMarker { start, end: ix, kind };
        proof {
            assert(run_end(bk@, ix as int, flag) == ix);
            assert(runs_from(bk@, start as int) == seq![m] + runs_from(bk@, ix as int));
            assert(out@.push(m) + runs_from(bk@, ix as int) =~= out@ + runs_from(bk@, start as int));
        }
        out.push(m);
    }
    assert(runs_from(bk@, ix as int) =~= Seq::<ScrollbarBucketMarker>::empty());
    assert(out@ + Seq::<ScrollbarBucketMarker>::empty() =~= out@);
    ScrollbarBuckets { bucket_count, markers: out }
}

/// The scrollbar markers for `len` lines whose change flags `flag_at_index` gives.
pub fn scrollbar_markers_from_flags(len: usize, flag_at_index: impl Fn(usize) -> u8) -> (r:
    ScrollbarBuckets)
    requires
        len * 240 <= usize::MAX,
        forall|ix: usize| ix < len ==> #[trigger] flag_at_index.requires((ix,)),
    ensures
        exists|flags: Seq<u8>|
            {
                &&& flags.len() == len
                &&& forall|ix: int|
                    0 <= ix < len ==> #[trigger] flag_at_index.ensures((ix as usize,), flags[ix])
                &&& r.bucket_count as nat == scrollbar_markers(flags).0
                &&& r.markers@ == scrollbar_markers(flags).1
            },
{
    let mut flags: Vec<u8> = Vec::new();
    let mut ix: usize = 0;
    while ix < len
        invariant
            ix <= len,
            flags@.len() == ix,
            forall|j: usize| j < len ==> #[trigger] flag_at_index.requires((j,)),
            forall|j: int| 0 <= j < ix ==> #[trigger] flag_at_index.ensures((j as usize,), flags@[j]),
        decreases len - ix,
    {
        let f = flag_at_index(ix);
        flags.push(f);
        ix = ix + 1;
    }
    let r = scrollbar_markers_for_flags(&flags);
    assert(flags@.len() == len);
    r
}

} // verus!
