use vstd::prelude::*;
use crate::conflict_rows::{DiffLineKind, FileDiffRow, FileDiffRowKind};
use crate::diff_patch::{
    hidden_header, is_file_header, line_is_file_header, should_hide_unified_diff_header_line,
    AnnotatedDiffLine,
};
use crate::diff_view::{scrollbar_markers, scrollbar_markers_for_flags, DiffViewMode, ScrollbarBuckets};
use crate::diff_nav::{diff_nav_next_target, diff_nav_prev_target, first_above, last_below};
use crate::patch_rows::{DiffClickKind, PatchSplitRow};

verus! {

/// Whether row `ix` of the patch is listed: in the inline view every line but a hidden
/// header line; in the split view every aligned row, and every raw row whose line exists
/// and is not a hidden header line.
pub open spec fn row_shown(
    mode: DiffViewMode,
    diff: Seq<AnnotatedDiffLine>,
    rows: Seq<PatchSplitRow>,
    ix: int,
) -> bool {
    match mode {
        DiffViewMode::Inline => !hidden_header(diff[ix]),
        DiffViewMode::Split => match rows[ix] {
            PatchSplitRow::Raw { src_ix, .. } => src_ix < diff.len() && !hidden_header(diff[src_ix as int]),
            PatchSplitRow::Aligned { .. } => true,
        },
    }
}

/// The listed rows among the first `n`, in order.
pub open spec fn shown_rows(
    mode: DiffViewMode,
    diff: Seq<AnnotatedDiffLine>,
    rows: Seq<PatchSplitRow>,
    n: int,
) -> Seq<usize>
    decreases n,
{
    if n <= 0 {
        Seq::empty()
    } else {
        shown_rows(mode, diff, rows, n - 1) + if row_shown(mode, diff, rows, n - 1) {
            seq![(n - 1) as usize]
        } else {
            Seq::empty()
        }
    }
}

/// The number of rows of a patch view: its lines inline, its side-by-side rows split.
pub open spec fn patch_row_count(
    mode: DiffViewMode,
    diff: Seq<AnnotatedDiffLine>,
    rows: Seq<PatchSplitRow>,
) -> int {
    match mode {
        DiffViewMode::Inline => diff.len() as int,
        DiffViewMode::Split => rows.len() as int,
    }
}

fn row_is_shown(
    mode: DiffViewMode,
    diff: &[AnnotatedDiffLine],
    rows: &[PatchSplitRow],
    ix: usize,
) -> (r: bool)
    requires
        ix < patch_row_count(mode, diff@, rows@),
    ensures
        r == row_shown(mode, diff@, rows@, ix as int),
{
    match mode {
        DiffViewMode::Inline => !should_hide_unified_diff_header_line(&diff[ix]),
        DiffViewMode::Split => match &rows[ix] {
            PatchSplitRow::Raw { src_ix, .. } => {
                if *src_ix < diff.len() {
                    !should_hide_unified_diff_header_line(&diff[*src_ix])
                } else {
                    false
                }
            },
            PatchSplitRow::Aligned { .. } => true,
        },
    }
}

/// The rows of a patch that the diff view lists, in order (see `row_shown`).
pub fn patch_visible_indices(
    mode: DiffViewMode,
    diff: &[AnnotatedDiffLine],
    rows: &[PatchSplitRow],
) -> (out: Vec<usize>)
    ensures
        out@ == shown_rows(mode, diff@, rows@, patch_row_count(mode, diff@, rows@)),
{
    let n = match mode {
        DiffViewMode::Inline => diff.len(),
        DiffViewMode::Split => rows.len(),
    };
    let mut out: Vec<usize> = Vec::new();
    let mut i: usize = 0;
    while i < n
        invariant
            i <= n,
            n == patch_row_count(mode, diff@, rows@),
            out@ == shown_rows(mode, diff@, rows@, i as int),
        decreases n - i,
    {
        if row_is_shown(mode, diff, rows, i) {
            out.push(i);
        }
        i = i + 1;
    }
    out
}

/// The rows listed when a file is shown whole: all of them, in order.
pub fn all_row_indices(len: usize) -> (out: Vec<usize>)
    ensures
        out@.len() == len,
        forall|i: int| 0 <= i < len ==> out@[i] == i,
{
    let mut out: Vec<usize> = Vec::new();
    let mut i: usize = 0;
    while i < len
        invariant
            i <= len,
            out@.len() == i,
            forall|j: int| 0 <= j < i ==> out@[j] == j,
        decreases len - i,
    {
        out.push(i);
        i = i + 1;
    }
    out
}

/// The rows the diff view lists, with what they were computed for: the number of rows,
/// the layout, and whether a whole file was shown.
pub struct VisibleRows {
    pub source_len: usize,
    pub view: DiffViewMode,
    pub is_file_view: bool,
    pub indices: Vec<usize>,
}

/// The rows listed for the current contents: all rows of a whole file, else the listed rows
/// of the patch.
pub open spec fn visible_rows_for(
    is_file_view: bool,
    mode: DiffViewMode,
    diff: Seq<AnnotatedDiffLine>,
    rows: Seq<PatchSplitRow>,
    file_len: nat,
) -> Seq<usize> {
    if is_file_view {
        Seq::new(file_len, |i: int| i as usize)
    } else {
        shown_rows(mode, diff, rows, patch_row_count(mode, diff, rows))
    }
}

/// Brings the listed rows up to date: when the number of rows, the layout or the kind of
/// view changed since they were computed, they are computed again and `true` is returned;
/// otherwise they are kept as they are. `file_len` is the number of rows of the whole file
/// in the current layout.
pub fn ensure_diff_visible_indices(
    cache: &mut VisibleRows,
    is_file_view: bool,
    mode: DiffViewMode,
    diff: &[AnnotatedDiffLine],
    rows: &[PatchSplitRow],
    file_len: usize,
) -> (recomputed: bool)
    ensures
        ({
            let current_len = if is_file_view {
                file_len as int
            } else {
                diff@.len() as int
            };
            recomputed == !(old(cache).source_len == current_len && old(cache).view == mode
                && old(cache).is_file_view == is_file_view)
        }),
        recomputed ==> final(cache).indices@ == visible_rows_for(is_file_view, mode, diff@, rows@, file_len as nat),
        !recomputed ==> final(cache).indices@ == old(cache).indices@,
        final(cache).source_len == (if is_file_view {
            file_len
        } else {
            diff@.len() as usize
        }),
        final(cache).view == mode,
        final(cache).is_file_view == is_file_view,
{
    let current_len = if is_file_view {
        file_len
    } else {
        diff.len()
    };
    if cache.source_len == current_len && cache.view == mode && cache.is_file_view == is_file_view {
        return false;
    }
    cache.source_len = current_len;
    cache.view = mode;
    cache.is_file_view = is_file_view;
    if is_file_view {
        let all = all_row_indices(file_len);
        assert(all@ =~= Seq::new(file_len as nat, |i: int| i as usize));
        cache.indices = all;
    } else {
        cache.indices = patch_visible_indices(mode, diff, rows);
    }
    true
}

} // verus!

verus! {

/// Whether a line of the patch ends the block that a click of `kind` selects: the next
/// hunk or file for a hunk header, the next file for a file header.
pub open spec fn inline_boundary(l: AnnotatedDiffLine, kind: DiffClickKind) -> bool {
    match kind {
        DiffClickKind::HunkHeader => l.kind == DiffLineKind::Hunk || is_file_header(l),
        DiffClickKind::FileHeader => is_file_header(l),
        DiffClickKind::Line => false,
    }
}

/// Whether a side-by-side row ends the block that a click of `kind` selects.
pub open spec fn split_boundary(r: PatchSplitRow, kind: DiffClickKind) -> bool {
    match r {
        PatchSplitRow::Raw { click_kind, .. } => match kind {
            DiffClickKind::HunkHeader => click_kind == DiffClickKind::HunkHeader || click_kind
                == DiffClickKind::FileHeader,
            DiffClickKind::FileHeader => click_kind == DiffClickKind::FileHeader,
            DiffClickKind::Line => false,
        },
        PatchSplitRow::Aligned { .. } => false,
    }
}

/// Where the search for the next boundary starts: the row after `from`, with `from` kept
/// within the list.
pub open spec fn search_start(len: nat, from: nat) -> int {
    let last: int = if len == 0 {
        0
    } else {
        len - 1
    };
    (if from < last {
        from as int
    } else {
        last
    }) + 1
}

/// From listed row `v` on, the row before the first one whose line is a boundary.
pub open spec fn next_inline_boundary(
    visible: Seq<usize>,
    diff: Seq<AnnotatedDiffLine>,
    kind: DiffClickKind,
    v: int,
) -> Option<usize>
    decreases visible.len() - v,
{
    if v < 0 || v >= visible.len() {
        None
    } else if inline_boundary(diff[visible[v] as int], kind) {
        Some((v - 1) as usize)
    } else {
        next_inline_boundary(visible, diff, kind, v + 1)
    }
}

/// From listed row `v` on, the row before the first one that is a boundary; no row at all
/// when a listed row is missing before one is found.
pub open spec fn next_split_boundary(
    visible: Seq<usize>,
    rows: Seq<PatchSplitRow>,
    kind: DiffClickKind,
    v: int,
) -> Option<usize>
    decreases visible.len() - v,
{
    if v < 0 || v >= visible.len() {
        None
    } else if visible[v] >= rows.len() {
        None
    } else if split_boundary(rows[visible[v] as int], kind) {
        Some((v - 1) as usize)
    } else {
        next_split_boundary(visible, rows, kind, v + 1)
    }
}

fn line_is_inline_boundary(l: &AnnotatedDiffLine, kind: DiffClickKind) -> (r: bool)
    ensures
        r == inline_boundary(*l, kind),
{
    match kind {
        DiffClickKind::HunkHeader => {
            let hunk = match l.kind {
                DiffLineKind::Hunk => true,
                _ => false,
            };
            hunk || line_is_file_header(l)
        },
        DiffClickKind::FileHeader => line_is_file_header(l),
        DiffClickKind::Line => false,
    }
}

fn row_is_split_boundary(r: &PatchSplitRow, kind: DiffClickKind) -> (b: bool)
    ensures
        b == split_boundary(*r, kind),
{
    match r {
        PatchSplitRow::Raw { click_kind, .. } => match kind {
            DiffClickKind::HunkHeader => *click_kind == DiffClickKind::HunkHeader || *click_kind
                == DiffClickKind::FileHeader,
            DiffClickKind::FileHeader => *click_kind == DiffClickKind::FileHeader,
            DiffClickKind::Line => false,
        },
        PatchSplitRow::Aligned { .. } => false,
    }
}

/// The last listed row before the next boundary of the kind clicked, searching from the
/// row after `from`; `None` when no boundary follows.
pub fn diff_next_boundary_visible_ix(
    visible: &[usize],
    diff: &[AnnotatedDiffLine],
    from: usize,
    kind: DiffClickKind,
) -> (r: Option<usize>)
    requires
        forall|i: int| 0 <= i < visible@.len() ==> #[trigger] visible@[i] < diff@.len(),
    ensures
        r == next_inline_boundary(visible@, diff@, kind, search_start(visible@.len(), from as nat)),
{
    let len = visible.len();
    let last = if len == 0 {
        0
    } else {
        len - 1
    };
    let start = if from < last {
        from
    } else {
        last
    };
    let mut v: usize = start + 1;
    while v < len
        invariant
            len == visible@.len(),
            start + 1 <= v,
            start + 1 == search_start(visible@.len(), from as nat),
            forall|i: int| 0 <= i < visible@.len() ==> #[trigger] visible@[i] < diff@.len(),
            next_inline_boundary(visible@, diff@, kind, start + 1) == next_inline_boundary(
                visible@,
                diff@,
                kind,
                v as int,
            ),
        decreases len - v,
    {
        let src_ix = visible[v];
        if line_is_inline_boundary(&diff[src_ix], kind) {
            return Some(v - 1);
        }
        v = v + 1;
    }
    None
}

/// The last listed row before the next side-by-side boundary of the kind clicked,
/// searching from the row after `from`; `None` when none follows or a listed row is missing.
pub fn split_next_boundary_visible_ix(
    visible: &[usize],
    rows: &[PatchSplitRow],
    from: usize,
    kind: DiffClickKind,
) -> (r: Option<usize>)
    ensures
        r == next_split_boundary(visible@, rows@, kind, search_start(visible@.len(), from as nat)),
{
    let len = visible.len();
    let last = if len == 0 {
        0
    } else {
        len - 1
    };
    let start = if from < last {
        from
    } else {
        last
    };
    let mut v: usize = start + 1;
    while v < len
        invariant
            len == visible@.len(),
            start + 1 <= v,
            start + 1 == search_start(visible@.len(), from as nat),
            next_split_boundary(visible@, rows@, kind, start + 1) == next_split_boundary(
                visible@,
                rows@,
                kind,
                v as int,
            ),
        decreases len - v,
    {
        let row_ix = visible[v];
        if row_ix >= rows.len() {
            return None;
        }
        if row_is_split_boundary(&rows[row_ix], kind) {
            return Some(v - 1);
        }
        v = v + 1;
    }
    None
}

/// The row selection of the diff view: the row a range was started from, and the range.
#[derive(Clone, Copy, Debug, PartialEq, Eq)]
pub struct RowSelection {
    pub anchor: Option<usize>,
    pub range: Option<(usize, usize)>,
}

/// `clicked` kept within a list of `len` rows.
pub open spec fn clamp_row(clicked: nat, len: nat) -> nat {
    if clicked < len {
        clicked
    } else {
        (len - 1) as nat
    }
}

/// The selection after a click on listed row `clicked` of a list of `len` rows: nothing in
/// an empty list; with shift and an anchor, the rows between the anchor and the click;
/// otherwise the clicked row becomes the anchor and the range runs from it to `end`.
pub open spec fn clicked_selection(sel: RowSelection, len: nat, clicked: nat, shift: bool, end: nat) -> RowSelection {
    if len == 0 {
        RowSelection { anchor: None, range: None }
    } else {
        let c = clamp_row(clicked, len);
        if shift && sel.anchor is Some {
            let a = sel.anchor.unwrap();
            RowSelection {
                anchor: sel.anchor,
                range: Some(
                    (
                        if a < c {
                            a
                        } else {
                            c as usize
                        },
                        if a < c {
                            c as usize
                        } else {
                            a
                        },
                    ),
                ),
            }
        } else {
            RowSelection { anchor: Some(c as usize), range: Some((c as usize, end as usize)) }
        }
    }
}

/// The last row of the block a click of `kind` on inline row `c` selects.
pub open spec fn inline_block_end(
    visible: Seq<usize>,
    diff: Seq<AnnotatedDiffLine>,
    c: nat,
    kind: DiffClickKind,
) -> nat {
    match kind {
        DiffClickKind::Line => c,
        _ => match next_inline_boundary(visible, diff, kind, search_start(visible.len(), c)) {
            Some(e) => e as nat,
            None => (visible.len() - 1) as nat,
        },
    }
}

/// The last row of the block a click of `kind` on side-by-side row `c` selects.
pub open spec fn split_block_end(
    visible: Seq<usize>,
    rows: Seq<PatchSplitRow>,
    c: nat,
    kind: DiffClickKind,
) -> nat {
    match kind {
        DiffClickKind::Line => c,
        _ => match next_split_boundary(visible, rows, kind, search_start(visible.len(), c)) {
            Some(e) => e as nat,
            None => (visible.len() - 1) as nat,
        },
    }
}

fn click_into(sel: &mut RowSelection, len: usize, clicked: usize, shift: bool, end: usize) -> (c: usize)
    requires
        len > 0,
        clicked < len,
    ensures
        *final(sel) == clicked_selection(*old(sel), len as nat, clicked as nat, shift, end as nat),
        c == clicked,
{
    if shift {
        if let Some(anchor) = sel.anchor {
            let a = if anchor < clicked {
                anchor
            } else {
                clicked
            };
            let b = if anchor < clicked {
                clicked
            } else {
                anchor
            };
            sel.range = Some((a, b));
            return clicked;
        }
    }
    sel.anchor = Some(clicked);
    sel.range = Some((clicked, end));
    clicked
}

/// A click on a row of a whole-file diff: selects that row, or with shift the rows from the
/// anchor to it.
pub fn handle_file_diff_row_click(sel: &mut RowSelection, list_len: usize, clicked: usize, shift: bool)
    ensures
        *final(sel) == clicked_selection(
            *old(sel),
            list_len as nat,
            clicked as nat,
            shift,
            clamp_row(clicked as nat, list_len as nat),
        ),
{
    if list_len == 0 {
        sel.anchor = None;
        sel.range = None;
        return;
    }
    let c = if clicked < list_len {
        clicked
    } else {
        list_len - 1
    };
    click_into(sel, list_len, c, shift, c);
}

/// A click on a row of the diff view: the whole-file view selects like a file diff; the
/// patch view like its inline or split rows, by mode.
pub fn handle_patch_row_click(
    sel: &mut RowSelection,
    is_file_view: bool,
    mode: DiffViewMode,
    visible: &[usize],
    diff: &[AnnotatedDiffLine],
    rows: &[PatchSplitRow],
    clicked: usize,
    kind: DiffClickKind,
    shift: bool,
)
    requires
        !is_file_view && mode == DiffViewMode::Inline ==> forall|i: int|
            0 <= i < visible@.len() ==> #[trigger] visible@[i] < diff@.len(),
    ensures
        *final(sel) == clicked_selection(
            *old(sel),
            visible@.len(),
            clicked as nat,
            shift,
            if is_file_view {
                clamp_row(clicked as nat, visible@.len())
            } else {
                match mode {
                    DiffViewMode::Inline => inline_block_end(
                        visible@,
                        diff@,
                        clamp_row(clicked as nat, visible@.len()),
                        kind,
                    ),
                    DiffViewMode::Split => split_block_end(
                        visible@,
                        rows@,
                        clamp_row(clicked as nat, visible@.len()),
                        kind,
                    ),
                }
            },
        ),
{
    if is_file_view {
        handle_file_diff_row_click(sel, visible.len(), clicked, shift);
        return;
    }
    match mode {
        DiffViewMode::Inline => handle_diff_row_click(sel, visible, diff, clicked, kind, shift),
        DiffViewMode::Split => handle_split_row_click(sel, visible, rows, clicked, kind, shift),
    }
}

/// A click on a row of the inline patch view: a line selects itself, a hunk header its
/// hunk, a file header its file; with shift, the rows from the anchor to the click.
pub fn handle_diff_row_click(
    sel: &mut RowSelection,
    visible: &[usize],
    diff: &[AnnotatedDiffLine],
    clicked: usize,
    kind: DiffClickKind,
    shift: bool,
)
    requires
        forall|i: int| 0 <= i < visible@.len() ==> #[trigger] visible@[i] < diff@.len(),
    ensures
        *final(sel) == clicked_selection(
            *old(sel),
            visible@.len(),
            clicked as nat,
            shift,
            inline_block_end(visible@, diff@, clamp_row(clicked as nat, visible@.len()), kind),
        ),
{
    let list_len = visible.len();
    if list_len == 0 {
        sel.anchor = None;
        sel.range = None;
        return;
    }
    let c = if clicked < list_len {
        clicked
    } else {
        list_len - 1
    };
    let end = match kind {
        DiffClickKind::Line => c,
        _ => match diff_next_boundary_visible_ix(visible, diff, c, kind) {
            Some(e) => e,
            None => list_len - 1,
        },
    };
    click_into(sel, list_len, c, shift, end);
}

/// A click on a row of the side-by-side patch view, as `handle_diff_row_click`.
pub fn handle_split_row_click(
    sel: &mut RowSelection,
    visible: &[usize],
    rows: &[PatchSplitRow],
    clicked: usize,
    kind: DiffClickKind,
    shift: bool,
)
    ensures
        *final(sel) == clicked_selection(
            *old(sel),
            visible@.len(),
            clicked as nat,
            shift,
            split_block_end(visible@, rows@, clamp_row(clicked as nat, visible@.len()), kind),
        ),
{
    let list_len = visible.len();
    if list_len == 0 {
        sel.anchor = None;
        sel.range = None;
        return;
    }
    let c = if clicked < list_len {
        clicked
    } else {
        list_len - 1
    };
    let end = match kind {
        DiffClickKind::Line => c,
        _ => match split_next_boundary_visible_ix(visible, rows, c, kind) {
            Some(e) => e,
            None => list_len - 1,
        },
    };
    click_into(sel, list_len, c, shift, end);
}

} // verus!

verus! {

/// The hunk header at listed row `v`, as (listed row, line of the patch), if it is one.
pub open spec fn hunk_entry(
    mode: DiffViewMode,
    visible: Seq<usize>,
    diff: Seq<AnnotatedDiffLine>,
    rows: Seq<PatchSplitRow>,
    v: int,
) -> Option<(usize, usize)> {
    let ix = visible[v];
    match mode {
        DiffViewMode::Inline => if ix < diff.len() && diff[ix as int].kind == DiffLineKind::Hunk {
            Some((v as usize, ix))
        } else {
            None
        },
        DiffViewMode::Split => if ix < rows.len() {
            match rows[ix as int] {
                PatchSplitRow::Raw { src_ix, click_kind } => if click_kind == DiffClickKind::HunkHeader {
                    Some((v as usize, src_ix))
                } else {
                    None
                },
                PatchSplitRow::Aligned { .. } => None,
            }
        } else {
            None
        },
    }
}

/// The hunk headers among the first `n` listed rows, in order.
pub open spec fn hunk_entries(
    mode: DiffViewMode,
    visible: Seq<usize>,
    diff: Seq<AnnotatedDiffLine>,
    rows: Seq<PatchSplitRow>,
    n: int,
) -> Seq<(usize, usize)>
    decreases n,
{
    if n <= 0 {
        Seq::empty()
    } else {
        hunk_entries(mode, visible, diff, rows, n - 1) + match hunk_entry(mode, visible, diff, rows, n - 1) {
            Some(e) => seq![e],
            None => Seq::empty(),
        }
    }
}

/// The hunk headers of the listed rows of a patch, each as (listed row, line of the patch).
pub fn patch_hunk_entries(
    mode: DiffViewMode,
    visible: &[usize],
    diff: &[AnnotatedDiffLine],
    rows: &[PatchSplitRow],
) -> (out: Vec<(usize, usize)>)
    ensures
        out@ == hunk_entries(mode, visible@, diff@, rows@, visible@.len() as int),
{
    let mut out: Vec<(usize, usize)> = Vec::new();
    let mut v: usize = 0;
    while v < visible.len()
        invariant
            v <= visible@.len(),
            out@ == hunk_entries(mode, visible@, diff@, rows@, v as int),
        decreases visible@.len() - v,
    {
        let ix = visible[v];
        let ghost before = out@;
        match mode {
            DiffViewMode::Inline => {
                if ix < diff.len() {
                    match diff[ix].kind {
                        DiffLineKind::Hunk => out.push((v, ix)),
                        _ => {},
                    }
                }
            },
            DiffViewMode::Split => {
                if ix < rows.len() {
                    match &rows[ix] {
                        PatchSplitRow::Raw { src_ix, click_kind } => {
                            if *click_kind == DiffClickKind::HunkHeader {
                                out.push((v, *src_ix));
                            }
                        },
                        PatchSplitRow::Aligned { .. } => {},
                    }
                }
            },
        }
        assert(out@ =~= before + match hunk_entry(mode, visible@, diff@, rows@, v as int) {
            Some(e) => seq![e],
            None => Seq::empty(),
        });
        v = v + 1;
    }
    out
}

/// Whether listed row `v` of a whole-file diff is a change: an added or removed line
/// inline, any row but an unchanged one side by side.
pub open spec fn row_changed(
    mode: DiffViewMode,
    visible: Seq<usize>,
    lines: Seq<AnnotatedDiffLine>,
    file_rows: Seq<FileDiffRow>,
    v: int,
) -> bool {
    let ix = visible[v];
    match mode {
        DiffViewMode::Inline => ix < lines.len() && (lines[ix as int].kind == DiffLineKind::Add
            || lines[ix as int].kind == DiffLineKind::Remove),
        DiffViewMode::Split => ix < file_rows.len() && file_rows[ix as int].kind != FileDiffRowKind::Context,
    }
}

/// The listed rows among the first `n` where a run of changes starts.
pub open spec fn change_starts(
    mode: DiffViewMode,
    visible: Seq<usize>,
    lines: Seq<AnnotatedDiffLine>,
    file_rows: Seq<FileDiffRow>,
    n: int,
) -> Seq<usize>
    decreases n,
{
    if n <= 0 {
        Seq::empty()
    } else {
        change_starts(mode, visible, lines, file_rows, n - 1) + if row_changed(
            mode,
            visible,
            lines,
            file_rows,
            n - 1,
        ) && (n - 1 == 0 || !row_changed(mode, visible, lines, file_rows, n - 2)) {
            seq![(n - 1) as usize]
        } else {
            Seq::empty()
        }
    }
}

fn listed_row_changed(
    mode: DiffViewMode,
    visible: &[usize],
    lines: &[AnnotatedDiffLine],
    file_rows: &[FileDiffRow],
    v: usize,
) -> (r: bool)
    requires
        v < visible@.len(),
    ensures
        r == row_changed(mode, visible@, lines@, file_rows@, v as int),
{
    let ix = visible[v];
    match mode {
        DiffViewMode::Inline => {
            if ix < lines.len() {
                match lines[ix].kind {
                    DiffLineKind::Add => true,
                    DiffLineKind::Remove => true,
                    _ => false,
                }
            } else {
                false
            }
        },
        DiffViewMode::Split => {
            if ix < file_rows.len() {
                match file_rows[ix].kind {
                    FileDiffRowKind::Context => false,
                    _ => true,
                }
            } else {
                false
            }
        },
    }
}

/// The listed rows of a whole-file diff where a run of changes starts; none when no whole
/// file is shown.
pub fn file_change_visible_indices(
    is_file_view: bool,
    mode: DiffViewMode,
    visible: &[usize],
    lines: &[AnnotatedDiffLine],
    file_rows: &[FileDiffRow],
) -> (out: Vec<usize>)
    ensures
        out@ == if is_file_view {
            change_starts(mode, visible@, lines@, file_rows@, visible@.len() as int)
        } else {
            Seq::empty()
        },
{
    let mut out: Vec<usize> = Vec::new();
    if !is_file_view {
        return out;
    }
    let mut prev_changed = false;
    let mut v: usize = 0;
    while v < visible.len()
        invariant
            v <= visible@.len(),
            out@ == change_starts(mode, visible@, lines@, file_rows@, v as int),
            prev_changed == (v > 0 && row_changed(mode, visible@, lines@, file_rows@, v - 1)),
        decreases visible@.len() - v,
    {
        let changed = listed_row_changed(mode, visible, lines, file_rows, v);
        if changed && !prev_changed {
            out.push(v);
        }
        prev_changed = changed;
        v = v + 1;
    }
    out
}

/// The first entries of pairs.
pub open spec fn firsts(s: Seq<(usize, usize)>) -> Seq<usize> {
    s.map_values(|p: (usize, usize)| p.0)
}

/// The rows the diff navigation jumps between: the starts of change runs of a whole file,
/// else the hunk headers of the patch.
pub open spec fn nav_entries(
    is_file_view: bool,
    mode: DiffViewMode,
    visible: Seq<usize>,
    diff: Seq<AnnotatedDiffLine>,
    rows: Seq<PatchSplitRow>,
    lines: Seq<AnnotatedDiffLine>,
    file_rows: Seq<FileDiffRow>,
) -> Seq<usize> {
    if is_file_view {
        change_starts(mode, visible, lines, file_rows, visible.len() as int)
    } else {
        firsts(hunk_entries(mode, visible, diff, rows, visible.len() as int))
    }
}

/// The rows the diff navigation jumps between (see `nav_entries`).
pub fn diff_nav_entries(
    is_file_view: bool,
    mode: DiffViewMode,
    visible: &[usize],
    diff: &[AnnotatedDiffLine],
    rows: &[PatchSplitRow],
    lines: &[AnnotatedDiffLine],
    file_rows: &[FileDiffRow],
) -> (out: Vec<usize>)
    ensures
        out@ == nav_entries(is_file_view, mode, visible@, diff@, rows@, lines@, file_rows@),
{
    if is_file_view {
        return file_change_visible_indices(true, mode, visible, lines, file_rows);
    }
    let hunks = patch_hunk_entries(mode, visible, diff, rows);
    let mut out: Vec<usize> = Vec::new();
    let mut i: usize = 0;
    while i < hunks.len()
        invariant
            i <= hunks@.len(),
            out@ == firsts(hunks@).take(i as int),
        decreases hunks@.len() - i,
    {
        out.push(hunks[i].0);
        assert(out@ =~= firsts(hunks@).take(i + 1));
        i = i + 1;
    }
    assert(firsts(hunks@).take(i as int) =~= firsts(hunks@));
    out
}

} // verus!

verus! {

/// The row the selection starts from, or the first row.
pub open spec fn anchor_or_top(sel: RowSelection) -> usize {
    match sel.anchor {
        Some(a) => a,
        None => 0,
    }
}

/// `target` alone, selected and made the anchor.
pub open spec fn single_row(target: usize) -> RowSelection {
    RowSelection { anchor: Some(target), range: Some((target, target)) }
}

/// Jumps to the previous navigation entry before the anchor (the first row without one):
/// returns the row to scroll to and selects it, or leaves the selection as it is when there
/// is none. Never wraps around.
pub fn diff_jump_prev(sel: &mut RowSelection, entries: &[usize]) -> (target: Option<usize>)
    ensures
        target == last_below(entries@, anchor_or_top(*old(sel)), entries@.len() as int),
        match target {
            Some(t) => *final(sel) == single_row(t),
            None => *final(sel) == *old(sel),
        },
{
    if entries.len() == 0 {
        return None;
    }
    let current = match sel.anchor {
        Some(a) => a,
        None => 0,
    };
    let target = diff_nav_prev_target(entries, current);
    if let Some(t) = target {
        sel.anchor = Some(t);
        sel.range = Some((t, t));
    }
    target
}

/// Jumps to the next navigation entry after the anchor (the first row without one), as
/// `diff_jump_prev`.
pub fn diff_jump_next(sel: &mut RowSelection, entries: &[usize]) -> (target: Option<usize>)
    ensures
        target == first_above(entries@, anchor_or_top(*old(sel)), 0),
        match target {
            Some(t) => *final(sel) == single_row(t),
            None => *final(sel) == *old(sel),
        },
{
    if entries.len() == 0 {
        return None;
    }
    let current = match sel.anchor {
        Some(a) => a,
        None => 0,
    };
    let target = diff_nav_next_target(entries, current);
    if let Some(t) = target {
        sel.anchor = Some(t);
        sel.range = Some((t, t));
    }
    target
}

/// When a newly shown diff waits to be scrolled and lists any rows: the first navigation
/// entry (the first row without one) is selected, the wait ends, and the row to scroll to
/// is returned. Otherwise nothing changes.
pub fn autoscroll_to_first_change(
    sel: &mut RowSelection,
    pending: &mut bool,
    list_len: usize,
    entries: &[usize],
) -> (target: Option<usize>)
    ensures
        if *old(pending) && list_len > 0 {
            let t = if entries@.len() > 0 {
                entries@[0]
            } else {
                0
            };
            &&& target == Some(t)
            &&& *final(sel) == single_row(t)
            &&& !*final(pending)
        } else {
            &&& target is None
            &&& *final(sel) == *old(sel)
            &&& *final(pending) == *old(pending)
        },
{
    if !*pending {
        return None;
    }
    if list_len == 0 {
        return None;
    }
    let t = if entries.len() > 0 {
        entries[0]
    } else {
        0
    };
    sel.anchor = Some(t);
    sel.range = Some((t, t));
    *pending = false;
    Some(t)
}

} // verus!

verus! {

/// The entries are strictly increasing.
pub open spec fn strictly_increasing(s: Seq<usize>) -> bool {
    forall|i: int, j: int| 0 <= i < j < s.len() ==> #[trigger] s[i] < #[trigger] s[j]
}

proof fn lemma_hunk_entries_rows(
    mode: DiffViewMode,
    visible: Seq<usize>,
    diff: Seq<AnnotatedDiffLine>,
    rows: Seq<PatchSplitRow>,
    n: int,
)
    requires
        0 <= n <= visible.len(),
        visible.len() <= usize::MAX,
    ensures
        forall|i: int|
            0 <= i < hunk_entries(mode, visible, diff, rows, n).len() ==> (#[trigger] hunk_entries(
                mode,
                visible,
                diff,
                rows,
                n,
            )[i]).0 < n,
        strictly_increasing(firsts(hunk_entries(mode, visible, diff, rows, n))),
    decreases n,
{
    if n > 0 {
        lemma_hunk_entries_rows(mode, visible, diff, rows, n - 1);
        let prev = hunk_entries(mode, visible, diff, rows, n - 1);
        let cur = hunk_entries(mode, visible, diff, rows, n);
        match hunk_entry(mode, visible, diff, rows, n - 1) {
            Some(e) => {
                assert(cur == prev.push(e));
                assert(e.0 == n - 1);
            },
            None => {
                assert(cur == prev);
            },
        }
        assert forall|i: int| 0 <= i < cur.len() implies (#[trigger] cur[i]).0 < n by {
            if i < prev.len() {
                assert(cur[i] == prev[i]);
            }
        }
        let f = firsts(cur);
        assert forall|i: int, j: int| 0 <= i < j < f.len() implies #[trigger] f[i] < #[trigger] f[j] by {
            assert(f[i] == cur[i].0);
            assert(f[j] == cur[j].0);
            if j < prev.len() {
                assert(cur[i] == prev[i]);
                assert(cur[j] == prev[j]);
                assert(firsts(prev)[i] == prev[i].0);
                assert(firsts(prev)[j] == prev[j].0);
            } else {
                assert(cur[i] == prev[i]);
            }
        }
    }
}

proof fn lemma_change_starts_rows(
    mode: DiffViewMode,
    visible: Seq<usize>,
    lines: Seq<AnnotatedDiffLine>,
    file_rows: Seq<FileDiffRow>,
    n: int,
)
    requires
        0 <= n <= visible.len(),
        visible.len() <= usize::MAX,
    ensures
        forall|i: int|
            0 <= i < change_starts(mode, visible, lines, file_rows, n).len() ==> #[trigger] change_starts(
                mode,
                visible,
                lines,
                file_rows,
                n,
            )[i] < n,
        strictly_increasing(change_starts(mode, visible, lines, file_rows, n)),
    decreases n,
{
    if n > 0 {
        lemma_change_starts_rows(mode, visible, lines, file_rows, n - 1);
        let prev = change_starts(mode, visible, lines, file_rows, n - 1);
        let cur = change_starts(mode, visible, lines, file_rows, n);
        assert forall|i: int| 0 <= i < cur.len() implies #[trigger] cur[i] < n by {
            if i < prev.len() {
                assert(cur[i] == prev[i]);
            }
        }
        assert forall|i: int, j: int| 0 <= i < j < cur.len() implies #[trigger] cur[i] < #[trigger] cur[j] by {
            assert(cur[i] == prev[i]);
            if j < prev.len() {
                assert(cur[j] == prev[j]);
            }
        }
    }
}

/// The rows the diff navigation jumps between come in increasing order, each listed.
pub proof fn law_nav_entries_increasing(
    is_file_view: bool,
    mode: DiffViewMode,
    visible: Seq<usize>,
    diff: Seq<AnnotatedDiffLine>,
    rows: Seq<PatchSplitRow>,
    lines: Seq<AnnotatedDiffLine>,
    file_rows: Seq<FileDiffRow>,
)
    requires
        visible.len() <= usize::MAX,
    ensures
        strictly_increasing(nav_entries(is_file_view, mode, visible, diff, rows, lines, file_rows)),
        forall|i: int|
            0 <= i < nav_entries(is_file_view, mode, visible, diff, rows, lines, file_rows).len()
                ==> #[trigger] nav_entries(is_file_view, mode, visible, diff, rows, lines, file_rows)[i]
                < visible.len(),
{
    lemma_change_starts_rows(mode, visible, lines, file_rows, visible.len() as int);
    lemma_hunk_entries_rows(mode, visible, diff, rows, visible.len() as int);
    let h = hunk_entries(mode, visible, diff, rows, visible.len() as int);
    assert forall|i: int| 0 <= i < firsts(h).len() implies #[trigger] firsts(h)[i] < visible.len() by {
        assert(firsts(h)[i] == h[i].0);
    }
}

proof fn lemma_first_above_from(entries: Seq<usize>, current: usize, k: int, i: int)
    requires
        0 <= k <= i < entries.len(),
        entries[i] > current,
        forall|j: int| k <= j < i ==> entries[j] <= current,
    ensures
        first_above(entries, current, k) == Some(entries[i]),
    decreases i - k,
{
    if k < i {
        lemma_first_above_from(entries, current, k + 1, i);
    }
}

proof fn lemma_last_below_from(entries: Seq<usize>, current: usize, k: int, i: int)
    requires
        0 <= i < k <= entries.len(),
        entries[i] < current,
        forall|j: int| i < j < k ==> entries[j] >= current,
    ensures
        last_below(entries, current, k) == Some(entries[i]),
    decreases k - i,
{
    if k - 1 > i {
        lemma_last_below_from(entries, current, k - 1, i);
    }
}

/// Between increasing navigation entries, jumping forward from an entry reaches the next
/// one, and jumping back from there returns to it.
pub proof fn law_jump_next_then_prev_returns(entries: Seq<usize>, i: int)
    requires
        strictly_increasing(entries),
        0 <= i,
        i + 1 < entries.len(),
    ensures
        first_above(entries, entries[i], 0) == Some(entries[i + 1]),
        last_below(entries, entries[i + 1], entries.len() as int) == Some(entries[i]),
{
    assert forall|j: int| 0 <= j < i + 1 implies #[trigger] entries[j] <= entries[i] by {
        if j < i {
            assert(entries[j] < entries[i]);
        }
    }
    lemma_first_above_from(entries, entries[i], 0, i + 1);
    assert forall|j: int| i < j < entries.len() implies #[trigger] entries[j] >= entries[i + 1] by {
        if j > i + 1 {
            assert(entries[i + 1] < entries[j]);
        }
    }
    lemma_last_below_from(entries, entries[i + 1], entries.len() as int, i);
}

proof fn lemma_inline_boundary_range(
    visible: Seq<usize>,
    diff: Seq<AnnotatedDiffLine>,
    kind: DiffClickKind,
    v: int,
)
    requires
        1 <= v,
        visible.len() <= usize::MAX,
    ensures
        match next_inline_boundary(visible, diff, kind, v) {
            Some(e) => v - 1 <= e && e + 1 < visible.len(),
            None => true,
        },
    decreases visible.len() - v,
{
    if v < visible.len() && !inline_boundary(diff[visible[v] as int], kind) {
        lemma_inline_boundary_range(visible, diff, kind, v + 1);
    }
}

proof fn lemma_split_boundary_range(
    visible: Seq<usize>,
    rows: Seq<PatchSplitRow>,
    kind: DiffClickKind,
    v: int,
)
    requires
        1 <= v,
        visible.len() <= usize::MAX,
    ensures
        match next_split_boundary(visible, rows, kind, v) {
            Some(e) => v - 1 <= e && e + 1 < visible.len(),
            None => true,
        },
    decreases visible.len() - v,
{
    if v < visible.len() && visible[v] < rows.len() && !split_boundary(rows[visible[v] as int], kind) {
        lemma_split_boundary_range(visible, rows, kind, v + 1);
    }
}

/// A click without shift on a row of a non-empty list selects a block that starts at the
/// clicked row (kept within the list) and ends at or after it, within the list.
pub proof fn law_click_selects_block_from_clicked_row(
    visible: Seq<usize>,
    diff: Seq<AnnotatedDiffLine>,
    rows: Seq<PatchSplitRow>,
    clicked: nat,
    kind: DiffClickKind,
)
    requires
        0 < visible.len() <= usize::MAX,
    ensures
        ({
            let c = clamp_row(clicked, visible.len());
            &&& c < visible.len()
            &&& c <= inline_block_end(visible, diff, c, kind) < visible.len()
            &&& c <= split_block_end(visible, rows, c, kind) < visible.len()
        }),
{
    let c = clamp_row(clicked, visible.len());
    lemma_inline_boundary_range(visible, diff, kind, search_start(visible.len(), c));
    lemma_split_boundary_range(visible, rows, kind, search_start(visible.len(), c));
}

} // verus!

verus! {

/// The scrollbar flag of a line kind: 1 for an added line, 2 for a removed one.
pub open spec fn line_flag(k: DiffLineKind) -> u8 {
    match k {
        DiffLineKind::Add => 1,
        DiffLineKind::Remove => 2,
        _ => 0,
    }
}

/// The scrollbar flag of a side-by-side row kind: 1 added, 2 removed, 3 modified.
pub open spec fn row_kind_flag(k: FileDiffRowKind) -> u8 {
    match k {
        FileDiffRowKind::Add => 1,
        FileDiffRowKind::Remove => 2,
        FileDiffRowKind::Modify => 3,
        FileDiffRowKind::Context => 0,
    }
}

/// The scrollbar flag of listed row `v`: what changed there, 0 where nothing did or the row
/// is missing.
pub open spec fn row_flag(
    is_file_view: bool,
    mode: DiffViewMode,
    visible: Seq<usize>,
    diff: Seq<AnnotatedDiffLine>,
    rows: Seq<PatchSplitRow>,
    lines: Seq<AnnotatedDiffLine>,
    file_rows: Seq<FileDiffRow>,
    v: int,
) -> u8 {
    let ix = visible[v] as int;
    match mode {
        DiffViewMode::Inline => if is_file_view {
            if ix < lines.len() {
                line_flag(lines[ix].kind)
            } else {
                0
            }
        } else if ix < diff.len() {
            line_flag(diff[ix].kind)
        } else {
            0
        },
        DiffViewMode::Split => if is_file_view {
            if ix < file_rows.len() {
                row_kind_flag(file_rows[ix].kind)
            } else {
                0
            }
        } else if ix < rows.len() {
            match rows[ix] {
                PatchSplitRow::Aligned { row, .. } => row_kind_flag(row.kind),
                PatchSplitRow::Raw { .. } => 0,
            }
        } else {
            0
        },
    }
}

fn line_flag_exec(k: DiffLineKind) -> (f: u8)
    ensures
        f == line_flag(k),
{
    match k {
        DiffLineKind::Add => 1,
        DiffLineKind::Remove => 2,
        _ => 0,
    }
}

fn row_kind_flag_exec(k: FileDiffRowKind) -> (f: u8)
    ensures
        f == row_kind_flag(k),
{
    match k {
        FileDiffRowKind::Add => 1,
        FileDiffRowKind::Remove => 2,
        FileDiffRowKind::Modify => 3,
        FileDiffRowKind::Context => 0,
    }
}

/// The scrollbar flags of the listed rows, in order (see `row_flag`).
pub fn diff_scrollbar_flags(
    is_file_view: bool,
    mode: DiffViewMode,
    visible: &[usize],
    diff: &[AnnotatedDiffLine],
    rows: &[PatchSplitRow],
    lines: &[AnnotatedDiffLine],
    file_rows: &[FileDiffRow],
) -> (flags: Vec<u8>)
    ensures
        flags@ == Seq::new(
            visible@.len(),
            |v: int| row_flag(is_file_view, mode, visible@, diff@, rows@, lines@, file_rows@, v),
        ),
{
    let mut flags: Vec<u8> = Vec::new();
    let mut v: usize = 0;
    while v < visible.len()
        invariant
            v <= visible@.len(),
            flags@ == Seq::new(
                v as nat,
                |w: int| row_flag(is_file_view, mode, visible@, diff@, rows@, lines@, file_rows@, w),
            ),
        decreases visible@.len() - v,
    {
        let ix = visible[v];
        let f = match mode {
            DiffViewMode::Inline => if is_file_view {
                if ix < lines.len() {
                    line_flag_exec(lines[ix].kind)
                } else {
                    0
                }
            } else if ix < diff.len() {
                line_flag_exec(diff[ix].kind)
            } else {
                0
            },
            DiffViewMode::Split => if is_file_view {
                if ix < file_rows.len() {
                    row_kind_flag_exec(file_rows[ix].kind)
                } else {
                    0
                }
            } else if ix < rows.len() {
                match &rows[ix] {
                    PatchSplitRow::Aligned { row, .. } => row_kind_flag_exec(row.kind),
                    PatchSplitRow::Raw { .. } => 0,
                }
            } else {
                0
            },
        };
        flags.push(f);
        assert(flags@ =~= Seq::new(
            (v + 1) as nat,
            |w: int| row_flag(is_file_view, mode, visible@, diff@, rows@, lines@, file_rows@, w),
        ));
        v = v + 1;
    }
    flags
}

/// The scrollbar markers of the diff view: runs of buckets of its listed rows' flags.
pub fn compute_diff_scrollbar_markers(
    is_file_view: bool,
    mode: DiffViewMode,
    visible: &[usize],
    diff: &[AnnotatedDiffLine],
    rows: &[PatchSplitRow],
    lines: &[AnnotatedDiffLine],
    file_rows: &[FileDiffRow],
) -> (r: ScrollbarBuckets)
    requires
        visible@.len() * 240 <= usize::MAX,
    ensures
        ({
            let flags = Seq::new(
                visible@.len(),
                |v: int| row_flag(is_file_view, mode, visible@, diff@, rows@, lines@, file_rows@, v),
            );
            &&& r.bucket_count as nat == scrollbar_markers(flags).0
            &&& r.markers@ == scrollbar_markers(flags).1
        }),
{
    let flags = diff_scrollbar_flags(is_file_view, mode, visible, diff, rows, lines, file_rows);
    scrollbar_markers_for_flags(flags.as_slice())
}

} // verus!
