use vstd::prelude::*;
use crate::conflict_rows::{DiffLineKind, FileDiffRow, FileDiffRowKind};
use crate::diff_patch::{content_text, diff_content_text, is_file_header, AnnotatedDiffLine};

verus! {

/// What a click on a raw row of the side-by-side patch view selects.
#[derive(Clone, Copy, Debug, PartialEq, Eq, Structural)]
pub enum DiffClickKind {
    Line,
    HunkHeader,
    FileHeader,
}

/// A row of the side-by-side view of a patch: a raw diff line shown across both columns, or
/// an old line and a new line side by side with the source lines they came from.
#[derive(Clone, Debug)]
pub enum PatchSplitRow {
    Raw { src_ix: usize, click_kind: DiffClickKind },
    Aligned { row: FileDiffRow, old_src_ix: Option<usize>, new_src_ix: Option<usize> },
}

/// The mathematical value of a side-by-side patch row.
pub enum PatchRowV {
    Raw(usize, DiffClickKind),
    Aligned {
        kind: FileDiffRowKind,
        old_line: Option<u32>,
        new_line: Option<u32>,
        old: Option<Seq<char>>,
        new: Option<Seq<char>>,
        old_src_ix: Option<usize>,
        new_src_ix: Option<usize>,
    },
}

/// The text of an optional string.
pub open spec fn opt_view(o: Option<String>) -> Option<Seq<char>> {
    match o {
        Some(s) => Some(s@),
        None => None,
    }
}

/// The value of a side-by-side patch row.
pub open spec fn patch_row_view(r: PatchSplitRow) -> PatchRowV {
    match r {
        PatchSplitRow::Raw { src_ix, click_kind } => PatchRowV::Raw(src_ix, click_kind),
        PatchSplitRow::Aligned { row, old_src_ix, new_src_ix } => PatchRowV::Aligned {
            kind: row.kind,
            old_line: row.old_line,
            new_line: row.new_line,
            old: opt_view(row.old),
            new: opt_view(row.new),
            old_src_ix,
            new_src_ix,
        },
    }
}

/// The values of a sequence of side-by-side patch rows.
pub open spec fn patch_rows_view(rows: Seq<PatchSplitRow>) -> Seq<PatchRowV> {
    rows.map_values(|r: PatchSplitRow| patch_row_view(r))
}

/// The `i`th entry of `s`, if there is one.
pub open spec fn nth(s: Seq<usize>, i: int) -> Option<usize> {
    if 0 <= i < s.len() {
        Some(s[i])
    } else {
        None
    }
}

/// The row that pairs the `i`th pending removed line with the `i`th pending added line.
pub open spec fn paired_row(
    d: Seq<AnnotatedDiffLine>,
    removes: Seq<usize>,
    adds: Seq<usize>,
    i: int,
) -> PatchRowV {
    let l = nth(removes, i);
    let r = nth(adds, i);
    PatchRowV::Aligned {
        kind: match (l, r) {
            (Some(_), Some(_)) => FileDiffRowKind::Modify,
            (Some(_), None) => FileDiffRowKind::Remove,
            (None, Some(_)) => FileDiffRowKind::Add,
            (None, None) => FileDiffRowKind::Context,
        },
        old_line: match l {
            Some(ix) => d[ix as int].old_line,
            None => None,
        },
        new_line: match r {
            Some(ix) => d[ix as int].new_line,
            None => None,
        },
        old: match l {
            Some(ix) => Some(content_text(d[ix as int])),
            None => None,
        },
        new: match r {
            Some(ix) => Some(content_text(d[ix as int])),
            None => None,
        },
        old_src_ix: l,
        new_src_ix: r,
    }
}

/// The rows that pair up a run of removed lines with the run of added lines after it.
pub open spec fn paired_rows(d: Seq<AnnotatedDiffLine>, removes: Seq<usize>, adds: Seq<usize>) -> Seq<
    PatchRowV,
> {
    Seq::new(
        if removes.len() >= adds.len() {
            removes.len()
        } else {
            adds.len()
        },
        |i: int| paired_row(d, removes, adds, i),
    )
}

/// The state of the side-by-side layout after some lines: the rows so far, the pending
/// removed and added lines, and whether the lines are inside a hunk.
pub struct SplitState {
    pub rows: Seq<PatchRowV>,
    pub removes: Seq<usize>,
    pub adds: Seq<usize>,
    pub in_hunk: bool,
}

/// The state with the pending lines turned into paired rows.
pub open spec fn flushed(d: Seq<AnnotatedDiffLine>, s: SplitState) -> Seq<PatchRowV> {
    s.rows + paired_rows(d, s.removes, s.adds)
}

/// How line `ix` changes the layout. A file header or hunk header ends the pending run and
/// shows as a raw row; inside a hunk, a context line ends the run and shows on both sides,
/// removed and added lines wait to be paired, and any other header ends the run and shows
/// raw; outside hunks every line shows raw.
pub open spec fn split_step(d: Seq<AnnotatedDiffLine>, s: SplitState, ix: int) -> SplitState {
    let l = d[ix];
    if is_file_header(l) {
        SplitState {
            rows: flushed(d, s).push(PatchRowV::Raw(ix as usize, DiffClickKind::FileHeader)),
            removes: Seq::empty(),
            adds: Seq::empty(),
            in_hunk: false,
        }
    } else if l.kind == DiffLineKind::Hunk {
        SplitState {
            rows: flushed(d, s).push(PatchRowV::Raw(ix as usize, DiffClickKind::HunkHeader)),
            removes: Seq::empty(),
            adds: Seq::empty(),
            in_hunk: true,
        }
    } else if !s.in_hunk {
        SplitState { rows: s.rows.push(PatchRowV::Raw(ix as usize, DiffClickKind::Line)), ..s }
    } else {
        match l.kind {
            DiffLineKind::Context => SplitState {
                rows: flushed(d, s).push(
                    PatchRowV::Aligned {
                        kind: FileDiffRowKind::Context,
                        old_line: l.old_line,
                        new_line: l.new_line,
                        old: Some(content_text(l)),
                        new: Some(content_text(l)),
                        old_src_ix: Some(ix as usize),
                        new_src_ix: Some(ix as usize),
                    },
                ),
                removes: Seq::empty(),
                adds: Seq::empty(),
                in_hunk: true,
            },
            DiffLineKind::Remove => SplitState { removes: s.removes.push(ix as usize), ..s },
            DiffLineKind::Add => SplitState { adds: s.adds.push(ix as usize), ..s },
            _ => SplitState {
                rows: flushed(d, s).push(PatchRowV::Raw(ix as usize, DiffClickKind::Line)),
                removes: Seq::empty(),
                adds: Seq::empty(),
                in_hunk: true,
            },
        }
    }
}

/// The layout state after the first `n` lines.
pub open spec fn split_run(d: Seq<AnnotatedDiffLine>, n: int) -> SplitState
    decreases n,
{
    if n <= 0 {
        SplitState { rows: Seq::empty(), removes: Seq::empty(), adds: Seq::empty(), in_hunk: false }
    } else {
        split_step(d, split_run(d, n - 1), n - 1)
    }
}

/// The side-by-side rows of a whole patch.
pub open spec fn patch_split_rows(d: Seq<AnnotatedDiffLine>) -> Seq<PatchRowV> {
    flushed(d, split_run(d, d.len() as int))
}

proof fn lemma_split_run_indices(d: Seq<AnnotatedDiffLine>, n: int)
    requires
        0 <= n <= d.len(),
    ensures
        forall|k: int| 0 <= k < split_run(d, n).removes.len() ==> #[trigger] split_run(d, n).removes[k] < n,
        forall|k: int| 0 <= k < split_run(d, n).adds.len() ==> #[trigger] split_run(d, n).adds[k] < n,
        split_run(d, n).removes.len() <= n,
        split_run(d, n).adds.len() <= n,
    decreases n,
{
    if n > 0 {
        lemma_split_run_indices(d, n - 1);
    }
}

/// Appends the rows that pair up the pending removed and added lines, and empties both.
fn flush_pending(
    out: &mut Vec<PatchSplitRow>,
    diff: &[AnnotatedDiffLine],
    pending_removes: &mut Vec<usize>,
    pending_adds: &mut Vec<usize>,
)
    requires
        forall|k: int| 0 <= k < old(pending_removes)@.len() ==> #[trigger] old(pending_removes)@[k] < diff@.len(),
        forall|k: int| 0 <= k < old(pending_adds)@.len() ==> #[trigger] old(pending_adds)@[k] < diff@.len(),
    ensures
        patch_rows_view(final(out)@) == patch_rows_view(old(out)@) + paired_rows(
            diff@,
            old(pending_removes)@,
            old(pending_adds)@,
        ),
        final(pending_removes)@.len() == 0,
        final(pending_adds)@.len() == 0,
{
    let ghost o0 = out@;
    let ghost rm = pending_removes@;
    let ghost ad = pending_adds@;
    let pairs = if pending_removes.len() >= pending_adds.len() {
        pending_removes.len()
    } else {
        pending_adds.len()
    };
    let mut i: usize = 0;
    while i < pairs
        invariant
            i <= pairs,
            pairs == if rm.len() >= ad.len() {
                rm.len()
            } else {
                ad.len()
            },
            pending_removes@ == rm,
            pending_adds@ == ad,
            forall|k: int| 0 <= k < rm.len() ==> #[trigger] rm[k] < diff@.len(),
            forall|k: int| 0 <= k < ad.len() ==> #[trigger] ad[k] < diff@.len(),
            patch_rows_view(out@) == patch_rows_view(o0) + paired_rows(diff@, rm, ad).take(i as int),
        decreases pairs - i,
    {
        let left_ix: Option<usize> = if i < pending_removes.len() {
            Some(pending_removes[i])
        } else {
            None
        };
        let right_ix: Option<usize> = if i < pending_adds.len() {
            Some(pending_adds[i])
        } else {
            None
        };
        let kind = match (left_ix, right_ix) {
            (Some(_), Some(_)) => FileDiffRowKind::Modify,
            (Some(_), None) => FileDiffRowKind::Remove,
            (None, Some(_)) => FileDiffRowKind::Add,
            (None, None) => FileDiffRowKind::Context,
        };
        let (old_line, old) = match left_ix {
            Some(ix) => (diff[ix].old_line, Some(diff_content_text(&diff[ix]))),
            None => (None, None),
        };
        let (new_line, new) = match right_ix {
            Some(ix) => (diff[ix].new_line, Some(diff_content_text(&diff[ix]))),
            None => (None, None),
        };
        let row = PatchSplitRow::Aligned {
            row: FileDiffRow { kind, old_line, new_line, old, new },
            old_src_ix: left_ix,
            new_src_ix: right_ix,
        };
        let ghost before = out@;
        out.push(row);
        proof {
            assert(patch_row_view(row) == paired_row(diff@, rm, ad, i as int));
            assert(patch_rows_view(out@) =~= patch_rows_view(before).push(patch_row_view(row)));
            assert(paired_rows(diff@, rm, ad).take(i + 1) =~= paired_rows(diff@, rm, ad).take(
                i as int,
            ).push(paired_row(diff@, rm, ad, i as int)));
        }
        i = i + 1;
    }
    assert(paired_rows(diff@, rm, ad).take(pairs as int) =~= paired_rows(diff@, rm, ad));
    pending_removes.clear();
    pending_adds.clear();
}

/// The side-by-side rows of a unified patch: file and hunk headers as raw rows, context
/// lines on both sides, each run of removed lines paired in order with the run of added
/// lines after it, and every other line raw.
pub fn build_patch_split_rows(diff: &[AnnotatedDiffLine]) -> (out: Vec<PatchSplitRow>)
    ensures
        patch_rows_view(out@) == patch_split_rows(diff@),
{
    let mut out: Vec<PatchSplitRow> = Vec::new();
    let mut pending_removes: Vec<usize> = Vec::new();
    let mut pending_adds: Vec<usize> = Vec::new();
    let mut in_hunk = false;
    let mut ix: usize = 0;
    while ix < diff.len()
        invariant
            ix <= diff@.len(),
            patch_rows_view(out@) == split_run(diff@, ix as int).rows,
            pending_removes@ == split_run(diff@, ix as int).removes,
            pending_adds@ == split_run(diff@, ix as int).adds,
            in_hunk == split_run(diff@, ix as int).in_hunk,
        decreases diff@.len() - ix,
    {
        proof {
            lemma_split_run_indices(diff@, ix as int);
        }
        let line = &diff[ix];
        let ghost s = split_run(diff@, ix as int);
        let ghost rows0 = out@;
        if crate::diff_patch::line_is_file_header(line) {
            flush_pending(&mut out, diff, &mut pending_removes, &mut pending_adds);
            out.push(PatchSplitRow::Raw { src_ix: ix, click_kind: DiffClickKind::FileHeader });
            in_hunk = false;
        } else if line.kind == DiffLineKind::Hunk {
            flush_pending(&mut out, diff, &mut pending_removes, &mut pending_adds);
            out.push(PatchSplitRow::Raw { src_ix: ix, click_kind: DiffClickKind::HunkHeader });
            in_hunk = true;
        } else if !in_hunk {
            out.push(PatchSplitRow::Raw { src_ix: ix, click_kind: DiffClickKind::Line });
        } else {
            match line.kind {
                DiffLineKind::Context => {
                    flush_pending(&mut out, diff, &mut pending_removes, &mut pending_adds);
                    let text = diff_content_text(line);
                    let text2 = text.clone();
                    out.push(
                        PatchSplitRow::Aligned {
                            row: FileDiffRow {
                                kind: FileDiffRowKind::Context,
                                old_line: line.old_line,
                                new_line: line.new_line,
                                old: Some(text2),
                                new: Some(text),
                            },
                            old_src_ix: Some(ix),
                            new_src_ix: Some(ix),
                        },
                    );
                },
                DiffLineKind::Remove => {
                    pending_removes.push(ix);
                },
                DiffLineKind::Add => {
                    pending_adds.push(ix);
                },
                _ => {
                    flush_pending(&mut out, diff, &mut pending_removes, &mut pending_adds);
                    out.push(PatchSplitRow::Raw { src_ix: ix, click_kind: DiffClickKind::Line });
                },
            }
        }
        proof {
            let n = split_step(diff@, s, ix as int);
            assert(patch_rows_view(out@) =~= n.rows);
            assert(pending_removes@ =~= n.removes);
            assert(pending_adds@ =~= n.adds);
        }
        ix = ix + 1;
    }
    proof {
        lemma_split_run_indices(diff@, ix as int);
    }
    flush_pending(&mut out, diff, &mut pending_removes, &mut pending_adds);
    out
}

} // verus!
