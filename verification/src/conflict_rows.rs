use vstd::prelude::*;
use std::ops::Range;
use crate::conflict::{
    blocks_of, lemma_take_all, lemma_take_step, segs_view, BlockV, ConflictPickSide,
    ConflictSegment, SegV,
};
use vstd::std_specs::btree::{increasing_seq, spec_btree_keys_iter};
use vstd::laws_cmp::obeys_cmp;
use vstd::std_specs::cmp::OrdSpec;
use vstd::std_specs::iter::IteratorSpec;
use crate::text::{lines_acc, split_lines, str_to_chars};

verus! {

/// The kind of a line in a unified diff.
#[derive(Clone, Copy, Debug, PartialEq, Eq, Structural)]
pub enum DiffLineKind {
    Header,
    Hunk,
    Add,
    Remove,
    Context,
}

/// The kind of a row in a side-by-side file diff.
#[derive(Clone, Copy, Debug, PartialEq, Eq, Structural)]
pub enum FileDiffRowKind {
    Context,
    Add,
    Remove,
    Modify,
}

/// A row of a side-by-side file diff: the old line on the left, the new one on the right.
#[derive(Clone, Debug, PartialEq, Eq)]
pub struct FileDiffRow {
    pub kind: FileDiffRowKind,
    pub old_line: Option<u32>,
    pub new_line: Option<u32>,
    pub old: Option<String>,
    pub new: Option<String>,
}

/// A row of the inline (unified) two-way conflict view.
#[derive(Clone, Debug, PartialEq, Eq)]
pub struct ConflictInlineRow {
    pub side: ConflictPickSide,
    pub kind: DiffLineKind,
    pub old_line: Option<u32>,
    pub new_line: Option<u32>,
    pub content: String,
}

/// The text of an optional side, or the empty text.
pub open spec fn opt_text(o: Option<String>) -> Seq<char> {
    match o {
        Some(s) => s@,
        None => Seq::empty(),
    }
}

/// The inline rows a side-by-side row expands to: a modified row becomes a
/// removal (ours) followed by an addition (theirs).
pub open spec fn inline_rows_for(r: FileDiffRow) -> Seq<(ConflictPickSide, DiffLineKind, Option<u32>, Option<u32>, Seq<char>)> {
    match r.kind {
        FileDiffRowKind::Context => seq![(ConflictPickSide::Ours, DiffLineKind::Context, r.old_line, r.new_line, opt_text(r.old))],
        FileDiffRowKind::Add => seq![(ConflictPickSide::Theirs, DiffLineKind::Add, None, r.new_line, opt_text(r.new))],
        FileDiffRowKind::Remove => seq![(ConflictPickSide::Ours, DiffLineKind::Remove, r.old_line, None, opt_text(r.old))],
        FileDiffRowKind::Modify => seq![
            (ConflictPickSide::Ours, DiffLineKind::Remove, r.old_line, None, opt_text(r.old)),
            (ConflictPickSide::Theirs, DiffLineKind::Add, None, r.new_line, opt_text(r.new)),
        ],
    }
}

/// The inline rows for a list of side-by-side rows.
pub open spec fn inline_rows_spec(rows: Seq<FileDiffRow>) -> Seq<(ConflictPickSide, DiffLineKind, Option<u32>, Option<u32>, Seq<char>)>
    decreases rows.len(),
{
    if rows.len() == 0 {
        Seq::empty()
    } else {
        inline_rows_spec(rows.drop_last()) + inline_rows_for(rows.last())
    }
}

/// The content of an inline row, as a tuple.
pub open spec fn inline_row_view(r: ConflictInlineRow) -> (ConflictPickSide, DiffLineKind, Option<u32>, Option<u32>, Seq<char>) {
    (r.side, r.kind, r.old_line, r.new_line, r.content@)
}

fn opt_string(o: &Option<String>) -> (s: String)
    ensures
        s@ == opt_text(*o),
{
    match o {
        Some(s) => s.clone(),
        None => String::new(),
    }
}

fn push_inline(out: &mut Vec<ConflictInlineRow>, row: ConflictInlineRow)
    ensures
        final(out)@.map_values(|r: ConflictInlineRow| inline_row_view(r)) == old(out)@.map_values(
            |r: ConflictInlineRow| inline_row_view(r),
        ).push(inline_row_view(row)),
{
    let ghost o = out@;
    out.push(row);
    assert(out@.map_values(|r: ConflictInlineRow| inline_row_view(r)) =~= o.map_values(
        |r: ConflictInlineRow| inline_row_view(r),
    ).push(inline_row_view(row)));
}

/// Expand side-by-side rows into inline rows: context rows stay (ours side),
/// additions are theirs, removals ours, and a modified row becomes a removal
/// followed by an addition.
pub fn build_inline_rows(rows: &[FileDiffRow]) -> (out: Vec<ConflictInlineRow>)
    ensures
        out@.map_values(|r: ConflictInlineRow| inline_row_view(r)) == inline_rows_spec(rows@),
{
    let mut out: Vec<ConflictInlineRow> = Vec::new();
    let mut i: usize = 0;
    while i < rows.len()
        invariant
            i <= rows@.len(),
            out@.map_values(|r: ConflictInlineRow| inline_row_view(r)) == inline_rows_spec(
                rows@.take(i as int),
            ),
        decreases rows@.len() - i,
    {
        let row = &rows[i];
        let ghost before = out@.map_values(|r: ConflictInlineRow| inline_row_view(r));
        assert(rows@.take(i as int + 1).drop_last() =~= rows@.take(i as int));
        match row.kind {
            FileDiffRowKind::Context => push_inline(
                &mut out,
                ConflictInlineRow {
                    side: ConflictPickSide::Ours,
                    kind: DiffLineKind::Context,
                    old_line: row.old_line,
                    new_line: row.new_line,
                    content: opt_string(&row.old),
                },
            ),
            FileDiffRowKind::Add => push_inline(
                &mut out,
                ConflictInlineRow {
                    side: ConflictPickSide::Theirs,
                    kind: DiffLineKind::Add,
                    old_line: None,
                    new_line: row.new_line,
                    content: opt_string(&row.new),
                },
            ),
            FileDiffRowKind::Remove => push_inline(
                &mut out,
                ConflictInlineRow {
                    side: ConflictPickSide::Ours,
                    kind: DiffLineKind::Remove,
                    old_line: row.old_line,
                    new_line: None,
                    content: opt_string(&row.old),
                },
            ),
            FileDiffRowKind::Modify => {
                push_inline(
                    &mut out,
                    ConflictInlineRow {
                        side: ConflictPickSide::Ours,
                        kind: DiffLineKind::Remove,
                        old_line: row.old_line,
                        new_line: None,
                        content: opt_string(&row.old),
                    },
                );
                push_inline(
                    &mut out,
                    ConflictInlineRow {
                        side: ConflictPickSide::Theirs,
                        kind: DiffLineKind::Add,
                        old_line: None,
                        new_line: row.new_line,
                        content: opt_string(&row.new),
                    },
                );
            },
        }
        assert(out@.map_values(|r: ConflictInlineRow| inline_row_view(r)) =~= before
            + inline_rows_for(rows@[i as int]));
        i = i + 1;
    }
    assert(rows@.take(rows@.len() as int) =~= rows@);
    out
}

// ---------------------------------------------------------------------------
// Line positions of conflicts in the two-way views
// ---------------------------------------------------------------------------

/// The number of lines of a text (as `str::lines` counts them), capped at `u32::MAX`.
pub open spec fn line_count_u32(s: Seq<char>) -> int {
    if split_lines(s).len() > u32::MAX {
        u32::MAX as int
    } else {
        split_lines(s).len() as int
    }
}

/// Addition capped at `u32::MAX`.
pub open spec fn sat_add_u32(a: int, b: int) -> int {
    if a + b > u32::MAX {
        u32::MAX as int
    } else {
        a + b
    }
}

fn text_line_count(text: &str) -> (n: u32)
    ensures
        n == line_count_u32(text@),
{
    let chars = str_to_chars(text);
    let mut done: usize = 0;
    let mut open_line = false;
    let mut i: usize = 0;
    while i < chars.len()
        invariant
            i <= chars@.len(),
            done == lines_acc(chars@.take(i as int)).0.len(),
            open_line == (lines_acc(chars@.take(i as int)).1.len() > 0),
            done + (if open_line { 1int } else { 0int }) <= i,
        decreases chars@.len() - i,
    {
        assert(chars@.take(i as int + 1).drop_last() =~= chars@.take(i as int));
        if chars[i] == '\n' {
            done = done + 1;
            open_line = false;
        } else {
            open_line = true;
        }
        i = i + 1;
    }
    assert(chars@.take(chars@.len() as int) =~= chars@);
    let total: usize = if open_line { done + 1 } else { done };
    assert(total == split_lines(text@).len());
    if total > u32::MAX as usize {
        u32::MAX
    } else {
        total as u32
    }
}

/// Where each conflict sits in the ours file and in the theirs file, with the
/// next free line numbers: line numbers start at 1; text advances both sides,
/// a block covers its own side's lines on each side.
pub open spec fn two_way_layout(v: Seq<SegV>) -> (Seq<(int, int, int, int)>, int, int)
    decreases v.len(),
{
    if v.len() == 0 {
        (Seq::empty(), 1, 1)
    } else {
        let (rs, o, t) = two_way_layout(v.drop_last());
        match v.last() {
            SegV::Text(x) => (rs, sat_add_u32(o, line_count_u32(x)), sat_add_u32(t, line_count_u32(x))),
            SegV::Block(b) => {
                let oe = sat_add_u32(o, line_count_u32(b.ours));
                let te = sat_add_u32(t, line_count_u32(b.theirs));
                (rs.push((o, oe, t, te)), oe, te)
            },
        }
    }
}

pub proof fn lemma_two_way_layout_bounds(v: Seq<SegV>)
    ensures
        1 <= two_way_layout(v).1 <= u32::MAX,
        1 <= two_way_layout(v).2 <= u32::MAX,
        two_way_layout(v).0.len() == blocks_of(v).len(),
    decreases v.len(),
{
    if v.len() > 0 {
        lemma_two_way_layout_bounds(v.drop_last());
    }
}

/// Conflict line ranges as integers: ours start, ours end, theirs start, theirs end.
pub open spec fn ranges_view(r: Seq<(Range<u32>, Range<u32>)>) -> Seq<(int, int, int, int)> {
    r.map_values(
        |e: (Range<u32>, Range<u32>)|
            (e.0.start as int, e.0.end as int, e.1.start as int, e.1.end as int),
    )
}

fn build_two_way_conflict_line_ranges(segments: &[ConflictSegment]) -> (ranges: Vec<
    (Range<u32>, Range<u32>),
>)
    ensures
        ranges_view(ranges@) == two_way_layout(segs_view(segments@)).0,
{
    let mut ranges: Vec<(Range<u32>, Range<u32>)> = Vec::new();
    let mut ours_line: u32 = 1;
    let mut theirs_line: u32 = 1;
    let mut i: usize = 0;
    while i < segments.len()
        invariant
            i <= segments@.len(),
            ranges_view(ranges@) == two_way_layout(segs_view(segments@).take(i as int)).0,
            ours_line == two_way_layout(segs_view(segments@).take(i as int)).1,
            theirs_line == two_way_layout(segs_view(segments@).take(i as int)).2,
        decreases segments@.len() - i,
    {
        proof {
            lemma_take_step(segments@, i as int);
        }
        match &segments[i] {
            ConflictSegment::Text(text) => {
                let count = text_line_count(text.as_str());
                ours_line = ours_line.saturating_add(count);
                theirs_line = theirs_line.saturating_add(count);
            },
            ConflictSegment::Block(block) => {
                let ours_count = text_line_count(block.ours.as_str());
                let theirs_count = text_line_count(block.theirs.as_str());
                let ours_end = ours_line.saturating_add(ours_count);
                let theirs_end = theirs_line.saturating_add(theirs_count);
                let ghost before = ranges@;
                ranges.push((ours_line..ours_end, theirs_line..theirs_end));
                assert(ranges_view(ranges@) =~= ranges_view(before).push(
                    (ours_line as int, ours_end as int, theirs_line as int, theirs_end as int),
                ));
                ours_line = ours_end;
                theirs_line = theirs_end;
            },
        }
        i = i + 1;
    }
    proof {
        lemma_take_all(segments@);
    }
    ranges
}

/// A row with these line numbers falls inside conflict entry `e`
/// (ours range `e.0..e.1`, theirs range `e.2..e.3`).
pub open spec fn row_in_conflict(e: (int, int, int, int), old_line: Option<u32>, new_line: Option<u32>) -> bool {
    (old_line is Some && e.0 <= old_line->0 < e.1) || (new_line is Some && e.2 <= new_line->0 < e.3)
}

/// The first conflict a row falls in, if any.
pub open spec fn row_conflict_spec(rs: Seq<(int, int, int, int)>, old_line: Option<u32>, new_line: Option<u32>) -> Option<int>
    decreases rs.len(),
{
    if rs.len() == 0 {
        None
    } else {
        match row_conflict_spec(rs.drop_last(), old_line, new_line) {
            Some(k) => Some(k),
            None => if row_in_conflict(rs.last(), old_line, new_line) {
                Some(rs.len() - 1)
            } else {
                None
            },
        }
    }
}

fn row_conflict_index_for_lines(
    old_line: Option<u32>,
    new_line: Option<u32>,
    ranges: &[(Range<u32>, Range<u32>)],
) -> (r: Option<usize>)
    ensures
        r == match row_conflict_spec(
            ranges_view(ranges@),
            old_line,
            new_line,
        ) {
            Some(k) => Some(k as usize),
            None => None,
        },
{
    let ghost rs = ranges_view(ranges@);
    let mut k: usize = 0;
    while k < ranges.len()
        invariant
            k <= ranges@.len(),
            rs.len() == ranges@.len(),
            rs == ranges_view(ranges@),
            row_conflict_spec(rs.take(k as int), old_line, new_line) is None,
        decreases ranges@.len() - k,
    {
        let ours = &ranges[k].0;
        let theirs = &ranges[k].1;
        let hit_old = match old_line {
            Some(line) => ours.start <= line && line < ours.end,
            None => false,
        };
        let hit_new = match new_line {
            Some(line) => theirs.start <= line && line < theirs.end,
            None => false,
        };
        assert(rs.take(k as int + 1).drop_last() =~= rs.take(k as int));
        if hit_old || hit_new {
            proof {
                lemma_row_conflict_prefix(rs, k as int + 1, old_line, new_line);
            }
            return Some(k);
        }
        k = k + 1;
    }
    assert(rs.take(k as int) =~= rs);
    None
}

/// Once a prefix has a hit, the whole sequence has the same first hit.
pub proof fn lemma_row_conflict_prefix(
    rs: Seq<(int, int, int, int)>,
    n: int,
    old_line: Option<u32>,
    new_line: Option<u32>,
)
    requires
        0 <= n <= rs.len(),
        row_conflict_spec(rs.take(n), old_line, new_line) is Some,
    ensures
        row_conflict_spec(rs, old_line, new_line) == row_conflict_spec(rs.take(n), old_line, new_line),
    decreases rs.len() - n,
{
    if n < rs.len() {
        assert(rs.take(n + 1).drop_last() =~= rs.take(n));
        lemma_row_conflict_prefix(rs, n + 1, old_line, new_line);
    } else {
        assert(rs.take(n) =~= rs);
    }
}

/// The first conflict (by two-way layout) that a row with these line numbers falls in.
pub open spec fn row_conflict_of(v: Seq<SegV>, old_line: Option<u32>, new_line: Option<u32>) -> Option<usize> {
    match row_conflict_spec(two_way_layout(v).0, old_line, new_line) {
        Some(k) => Some(k as usize),
        None => None,
    }
}

/// Build conflict-index maps for two-way split and inline rows.
///
/// Each output entry is `Some(conflict_index)` when the row belongs to a marker
/// conflict block, or `None` for non-conflict context rows.
pub fn map_two_way_rows_to_conflicts(
    segments: &[ConflictSegment],
    diff_rows: &[FileDiffRow],
    inline_rows: &[ConflictInlineRow],
) -> (out: (Vec<Option<usize>>, Vec<Option<usize>>))
    ensures
        out.0@.len() == diff_rows@.len(),
        forall|i: int|
            0 <= i < diff_rows@.len() ==> out.0@[i] == row_conflict_of(
                segs_view(segments@),
                diff_rows@[i].old_line,
                diff_rows@[i].new_line,
            ),
        out.1@.len() == inline_rows@.len(),
        forall|i: int|
            0 <= i < inline_rows@.len() ==> out.1@[i] == row_conflict_of(
                segs_view(segments@),
                inline_rows@[i].old_line,
                inline_rows@[i].new_line,
            ),
{
    let ranges = build_two_way_conflict_line_ranges(segments);
    let ghost v = segs_view(segments@);
    let ghost rs = ranges_view(ranges@);
    let mut split: Vec<Option<usize>> = Vec::new();
    let mut i: usize = 0;
    while i < diff_rows.len()
        invariant
            i <= diff_rows@.len(),
            rs == two_way_layout(v).0,
            v == segs_view(segments@),
            rs == ranges_view(ranges@),
            split@.len() == i,
            forall|j: int|
                0 <= j < i ==> split@[j] == row_conflict_of(
                    v,
                    diff_rows@[j].old_line,
                    diff_rows@[j].new_line,
                ),
        decreases diff_rows@.len() - i,
    {
        split.push(row_conflict_index_for_lines(diff_rows[i].old_line, diff_rows[i].new_line, &ranges));
        i = i + 1;
    }
    let mut inline: Vec<Option<usize>> = Vec::new();
    let mut i: usize = 0;
    while i < inline_rows.len()
        invariant
            i <= inline_rows@.len(),
            rs == two_way_layout(v).0,
            v == segs_view(segments@),
            rs == ranges_view(ranges@),
            inline@.len() == i,
            forall|j: int|
                0 <= j < i ==> inline@[j] == row_conflict_of(
                    v,
                    inline_rows@[j].old_line,
                    inline_rows@[j].new_line,
                ),
        decreases inline_rows@.len() - i,
    {
        inline.push(row_conflict_index_for_lines(inline_rows[i].old_line, inline_rows[i].new_line, &ranges));
        i = i + 1;
    }
    (split, inline)
}

} // verus!

verus! {

// ---------------------------------------------------------------------------
// Visible rows when resolved conflicts are hidden
// ---------------------------------------------------------------------------

/// A row mapped to conflict `ci` is hidden when that conflict is resolved.
pub open spec fn row_hidden(ci: Option<usize>, bs: Seq<BlockV>) -> bool {
    ci is Some && ci->0 < bs.len() && bs[ci->0 as int].resolved
}

fn resolved_flags(segments: &[ConflictSegment]) -> (flags: Vec<bool>)
    ensures
        flags@.len() == blocks_of(segs_view(segments@)).len(),
        forall|k: int|
            0 <= k < flags@.len() ==> flags@[k] == blocks_of(segs_view(segments@))[k].resolved,
{
    let mut flags: Vec<bool> = Vec::new();
    let mut i: usize = 0;
    while i < segments.len()
        invariant
            i <= segments@.len(),
            flags@.len() == blocks_of(segs_view(segments@).take(i as int)).len(),
            forall|k: int|
                0 <= k < flags@.len() ==> flags@[k] == blocks_of(
                    segs_view(segments@).take(i as int),
                )[k].resolved,
        decreases segments@.len() - i,
    {
        proof {
            lemma_take_step(segments@, i as int);
        }
        if let ConflictSegment::Block(b) = &segments[i] {
            flags.push(b.resolved);
        }
        i = i + 1;
    }
    proof {
        lemma_take_all(segments@);
    }
    flags
}

/// Row `ix` stays visible: hiding is off, or its conflict is not resolved.
pub open spec fn row_visible(map: Seq<Option<usize>>, bs: Seq<BlockV>, hide_resolved: bool, ix: int) -> bool {
    !(hide_resolved && row_hidden(map[ix], bs))
}

/// Build visible row indices for two-way views.
///
/// When `hide_resolved` is true, rows belonging to resolved conflict blocks are
/// removed from the visible list. Non-conflict rows are always kept visible.
pub fn build_two_way_visible_indices(
    row_conflict_map: &[Option<usize>],
    segments: &[ConflictSegment],
    hide_resolved: bool,
) -> (out: Vec<usize>)
    ensures
        forall|a: int, b: int| 0 <= a < b < out@.len() ==> out@[a] < out@[b],
        forall|a: int|
            0 <= a < out@.len() ==> out@[a] < row_conflict_map@.len() && row_visible(
                row_conflict_map@,
                blocks_of(segs_view(segments@)),
                hide_resolved,
                out@[a] as int,
            ),
        forall|ix: int|
            0 <= ix < row_conflict_map@.len() && #[trigger] row_visible(
                row_conflict_map@,
                blocks_of(segs_view(segments@)),
                hide_resolved,
                ix,
            ) ==> exists|a: int| 0 <= a < out@.len() && out@[a] == ix,
{
    let flags = resolved_flags(segments);
    let ghost bs = blocks_of(segs_view(segments@));
    let ghost map = row_conflict_map@;
    let mut out: Vec<usize> = Vec::new();
    let mut ix: usize = 0;
    while ix < row_conflict_map.len()
        invariant
            ix <= row_conflict_map@.len(),
            map == row_conflict_map@,
            bs == blocks_of(segs_view(segments@)),
            flags@.len() == bs.len(),
            forall|k: int| 0 <= k < flags@.len() ==> flags@[k] == bs[k].resolved,
            forall|a: int, b: int| 0 <= a < b < out@.len() ==> out@[a] < out@[b],
            forall|a: int|
                0 <= a < out@.len() ==> out@[a] < ix && row_visible(
                    map,
                    bs,
                    hide_resolved,
                    out@[a] as int,
                ),
            forall|j: int|
                0 <= j < ix && #[trigger] row_visible(map, bs, hide_resolved, j) ==> exists|a: int|
                    0 <= a < out@.len() && out@[a] == j,
        decreases row_conflict_map@.len() - ix,
    {
        let hidden = hide_resolved && match row_conflict_map[ix] {
            Some(ci) => ci < flags.len() && flags[ci],
            None => false,
        };
        assert(hidden == !row_visible(map, bs, hide_resolved, ix as int));
        let ghost before = out@;
        if !hidden {
            out.push(ix);
        }
        assert forall|j: int|
            0 <= j < ix + 1 && #[trigger] row_visible(map, bs, hide_resolved, j) implies exists|a: int|
                0 <= a < out@.len() && out@[a] == j by {
            if j < ix {
                let a = choose|a: int| 0 <= a < before.len() && before[a] == j;
                assert(out@[a] == j);
            } else {
                assert(out@[before.len() as int] == j);
            }
        }
        ix = ix + 1;
    }
    out
}

/// Represents a visible row in the three-way view when hide-resolved is active.
#[derive(Clone, Copy, Debug, PartialEq, Eq, Structural)]
pub enum ThreeWayVisibleItem {
    /// A normal line at the given index in the three-way data.
    Line(usize),
    /// A collapsed summary row for a resolved conflict block (by conflict index).
    CollapsedBlock(usize),
}

/// Range `r` contains `line`.
pub open spec fn range_has(r: Range<usize>, line: int) -> bool {
    r.start <= line < r.end
}

/// `k` is the first range that contains `line`.
pub open spec fn is_first_containing(rs: Seq<Range<usize>>, line: int, k: int) -> bool {
    0 <= k < rs.len() && range_has(rs[k], line) && forall|j: int| 0 <= j < k ==> !range_has(rs[j], line)
}

/// The first range that contains `line`, if any.
pub open spec fn first_containing(rs: Seq<Range<usize>>, line: int) -> Option<int> {
    if exists|k: int| is_first_containing(rs, line, k) {
        Some(choose|k: int| is_first_containing(rs, line, k))
    } else {
        None
    }
}

pub proof fn lemma_first_containing_unique(rs: Seq<Range<usize>>, line: int, k: int)
    requires
        is_first_containing(rs, line, k),
    ensures
        first_containing(rs, line) == Some(k),
{
    let c = choose|c: int| is_first_containing(rs, line, c);
    if c < k {
        assert(!range_has(rs[c], line));
    } else if c > k {
        assert(!range_has(rs[k], line));
    }
}

/// The visible rows of the three-way view from `line` on: a line inside a
/// resolved conflict's range (the first range that holds it) starts one
/// collapsed row for that conflict, which skips to the range's end.
pub open spec fn three_way_visible_from(
    total: int,
    rs: Seq<Range<usize>>,
    bs: Seq<BlockV>,
    line: int,
) -> Seq<ThreeWayVisibleItem>
    decreases total - line,
{
    if line < 0 || line >= total {
        Seq::empty()
    } else {
        match first_containing(rs, line) {
            Some(ri) => if 0 <= ri < rs.len() && ri < bs.len() && bs[ri].resolved && rs[ri].end
                > line {
                seq![ThreeWayVisibleItem::CollapsedBlock(ri as usize)] + three_way_visible_from(
                    total,
                    rs,
                    bs,
                    if rs[ri].end < total { rs[ri].end as int } else { total },
                )
            } else {
                seq![ThreeWayVisibleItem::Line(line as usize)] + three_way_visible_from(
                    total,
                    rs,
                    bs,
                    line + 1,
                )
            },
            None => seq![ThreeWayVisibleItem::Line(line as usize)] + three_way_visible_from(
                total,
                rs,
                bs,
                line + 1,
            ),
        }
    }
}

fn first_range_containing(rs: &[Range<usize>], line: usize) -> (r: Option<usize>)
    ensures
        match r {
            Some(k) => is_first_containing(rs@, line as int, k as int),
            None => forall|k: int| 0 <= k < rs@.len() ==> !range_has(rs@[k], line as int),
        },
        r == match first_containing(rs@, line as int) {
            Some(k) => Some(k as usize),
            None => None::<usize>,
        },
{
    let mut k: usize = 0;
    while k < rs.len()
        invariant
            k <= rs@.len(),
            forall|j: int| 0 <= j < k ==> !range_has(rs@[j], line as int),
        decreases rs@.len() - k,
    {
        if rs[k].start <= line && line < rs[k].end {
            proof {
                lemma_first_containing_unique(rs@, line as int, k as int);
            }
            return Some(k);
        }
        k = k + 1;
    }
    assert(!exists|k: int| is_first_containing(rs@, line as int, k));
    None
}

/// Build the mapping from visible row indices to actual three-way data items.
///
/// When `hide_resolved` is false, every line maps directly.
/// When true, resolved conflict ranges are collapsed to a single summary row.
pub fn build_three_way_visible_map(
    total_lines: usize,
    conflict_ranges: &[Range<usize>],
    segments: &[ConflictSegment],
    hide_resolved: bool,
) -> (out: Vec<ThreeWayVisibleItem>)
    ensures
        !hide_resolved ==> out@.len() == total_lines && forall|i: int|
            0 <= i < total_lines ==> out@[i] == ThreeWayVisibleItem::Line(i as usize),
        hide_resolved ==> out@ == three_way_visible_from(
            total_lines as int,
            conflict_ranges@,
            blocks_of(segs_view(segments@)),
            0,
        ),
{
    if !hide_resolved {
        let mut out: Vec<ThreeWayVisibleItem> = Vec::new();
        let mut i: usize = 0;
        while i < total_lines
            invariant
                i <= total_lines,
                out@.len() == i,
                forall|j: int| 0 <= j < i ==> out@[j] == ThreeWayVisibleItem::Line(j as usize),
            decreases total_lines - i,
        {
            out.push(ThreeWayVisibleItem::Line(i));
            i = i + 1;
        }
        return out;
    }
    let flags = resolved_flags(segments);
    let ghost bs = blocks_of(segs_view(segments@));
    let ghost rs = conflict_ranges@;
    let ghost total = total_lines as int;
    let mut visible: Vec<ThreeWayVisibleItem> = Vec::new();
    let mut line: usize = 0;
    while line < total_lines
        invariant
            line <= total_lines,
            bs == blocks_of(segs_view(segments@)),
            rs == conflict_ranges@,
            total == total_lines,
            flags@.len() == bs.len(),
            forall|k: int| 0 <= k < flags@.len() ==> flags@[k] == bs[k].resolved,
            visible@ + three_way_visible_from(total, rs, bs, line as int) == three_way_visible_from(
                total,
                rs,
                bs,
                0,
            ),
        decreases total_lines - line,
    {
        let ghost before = visible@;
        assert(line < total_lines);
        let found = first_range_containing(conflict_ranges, line);
        match found {
            Some(ri) => {
                if ri < flags.len() && flags[ri] {
                    visible.push(ThreeWayVisibleItem::CollapsedBlock(ri));
                    let end = conflict_ranges[ri].end;
                    let next = if end < total_lines { end } else { total_lines };
                    assert(visible@ + three_way_visible_from(total, rs, bs, next as int)
                        =~= before + three_way_visible_from(total, rs, bs, line as int));
                    line = next;
                    continue;
                }
            },
            None => {},
        }
        visible.push(ThreeWayVisibleItem::Line(line));
        assert(visible@ + three_way_visible_from(total, rs, bs, line as int + 1) =~= before
            + three_way_visible_from(total, rs, bs, line as int));
        line = line + 1;
    }
    assert(three_way_visible_from(total, rs, bs, line as int) =~= Seq::empty());
    assert(visible@ + Seq::<ThreeWayVisibleItem>::empty() =~= visible@);
    visible
}

/// The visible row shows conflict range `range_ix`: a line inside it, or its
/// collapsed row.
pub open spec fn shows_conflict(item: ThreeWayVisibleItem, r: Range<usize>, range_ix: int) -> bool {
    match item {
        ThreeWayVisibleItem::Line(ix) => range_has(r, ix as int),
        ThreeWayVisibleItem::CollapsedBlock(ci) => ci == range_ix,
    }
}

/// Find the visible index for the first line of a conflict range, or the
/// collapsed block entry. Returns `None` if the range is not visible.
pub fn visible_index_for_conflict(
    visible_map: &[ThreeWayVisibleItem],
    conflict_ranges: &[Range<usize>],
    range_ix: usize,
) -> (r: Option<usize>)
    ensures
        range_ix >= conflict_ranges@.len() ==> r is None,
        range_ix < conflict_ranges@.len() ==> match r {
            Some(p) => p < visible_map@.len() && shows_conflict(
                visible_map@[p as int],
                conflict_ranges@[range_ix as int],
                range_ix as int,
            ) && forall|q: int|
                0 <= q < p ==> !shows_conflict(
                    visible_map@[q],
                    conflict_ranges@[range_ix as int],
                    range_ix as int,
                ),
            None => forall|q: int|
                0 <= q < visible_map@.len() ==> !shows_conflict(
                    visible_map@[q],
                    conflict_ranges@[range_ix as int],
                    range_ix as int,
                ),
        },
{
    if range_ix >= conflict_ranges.len() {
        return None;
    }
    let range = &conflict_ranges[range_ix];
    let mut p: usize = 0;
    while p < visible_map.len()
        invariant
            p <= visible_map@.len(),
            range_ix < conflict_ranges@.len(),
            *range == conflict_ranges@[range_ix as int],
            forall|q: int|
                0 <= q < p ==> !shows_conflict(visible_map@[q], *range, range_ix as int),
        decreases visible_map@.len() - p,
    {
        let hit = match visible_map[p] {
            ThreeWayVisibleItem::Line(ix) => range.start <= ix && ix < range.end,
            ThreeWayVisibleItem::CollapsedBlock(ci) => ci == range_ix,
        };
        if hit {
            return Some(p);
        }
        p = p + 1;
    }
    None
}

// ---------------------------------------------------------------------------
// Picking lines into the output
// ---------------------------------------------------------------------------

/// The text a split-view pick yields: the row's old text for ours, new for
/// theirs; nothing when the row or that side is missing.
pub open spec fn split_pick(rows: Seq<FileDiffRow>, pick: (usize, ConflictPickSide)) -> Option<Seq<char>> {
    if pick.0 < rows.len() {
        let row = rows[pick.0 as int];
        match pick.1 {
            ConflictPickSide::Ours => match row.old {
                Some(t) => Some(t@),
                None => None,
            },
            ConflictPickSide::Theirs => match row.new {
                Some(t) => Some(t@),
                None => None,
            },
        }
    } else {
        None
    }
}

/// The texts of a sequence of split-view picks, skipping those that yield nothing.
pub open spec fn split_selection(rows: Seq<FileDiffRow>, picks: Seq<(usize, ConflictPickSide)>) -> Seq<Seq<char>>
    decreases picks.len(),
{
    if picks.len() == 0 {
        Seq::empty()
    } else {
        let prev = split_selection(rows, picks.drop_last());
        match split_pick(rows, picks.last()) {
            Some(t) => prev.push(t),
            None => prev,
        }
    }
}

pub open spec fn strings_view(v: Seq<String>) -> Seq<Seq<char>> {
    v.map_values(|s: String| s@)
}

/// Collect the texts of the selected (row, side) pairs of the split view, in
/// the order given (a `BTreeSet` hands them out in increasing order).
pub fn collect_split_selection(
    rows: &[FileDiffRow],
    selected: &[(usize, ConflictPickSide)],
) -> (out: Vec<String>)
    ensures
        strings_view(out@) == split_selection(rows@, selected@),
{
    let mut out: Vec<String> = Vec::new();
    let mut i: usize = 0;
    while i < selected.len()
        invariant
            i <= selected@.len(),
            strings_view(out@) == split_selection(rows@, selected@.take(i as int)),
        decreases selected@.len() - i,
    {
        let (row_ix, side) = selected[i];
        let ghost before = out@;
        assert(selected@.take(i as int + 1).drop_last() =~= selected@.take(i as int));
        if row_ix < rows.len() {
            let row = &rows[row_ix];
            match side {
                ConflictPickSide::Ours => {
                    if let Some(t) = &row.old {
                        out.push(t.clone());
                    }
                },
                ConflictPickSide::Theirs => {
                    if let Some(t) = &row.new {
                        out.push(t.clone());
                    }
                },
            }
        }
        assert(strings_view(out@) =~= match split_pick(rows@, selected@[i as int]) {
            Some(t) => strings_view(before).push(t),
            None => strings_view(before),
        });
        i = i + 1;
    }
    assert(selected@.take(selected@.len() as int) =~= selected@);
    out
}

/// The contents of the inline rows at the given indices, skipping indices past the end.
pub open spec fn inline_selection(rows: Seq<ConflictInlineRow>, ixs: Seq<usize>) -> Seq<Seq<char>>
    decreases ixs.len(),
{
    if ixs.len() == 0 {
        Seq::empty()
    } else {
        let prev = inline_selection(rows, ixs.drop_last());
        if ixs.last() < rows.len() {
            prev.push(rows[ixs.last() as int].content@)
        } else {
            prev
        }
    }
}

/// A `BTreeSet<usize>` hands out its elements in increasing order, each once.
pub proof fn lemma_btree_keys_sorted(selected: &std::collections::BTreeSet<usize>)
    ensures
        spec_btree_keys_iter(selected).remaining().unref().to_set() == selected@,
        forall|a: int, b: int|
            0 <= a < b < spec_btree_keys_iter(selected).remaining().len() ==> *spec_btree_keys_iter(
                selected,
            ).remaining()[a] < *spec_btree_keys_iter(selected).remaining()[b],
{
    broadcast use vstd::std_specs::btree::group_btree_axioms, vstd::laws_cmp::group_laws_cmp;

    let keys = spec_btree_keys_iter(selected).remaining();
    assert(keys.unref().to_set() == selected@);
    assert(obeys_cmp::<&usize>());
    assert(increasing_seq(keys));
    vstd::std_specs::btree::axiom_increasing_seq_meaning::<&usize>(keys);
    assert forall|a: int, b: int| 0 <= a < b < keys.len() implies *keys[a] < *keys[b] by {
        assert(OrdSpec::cmp_spec(&keys[a], &keys[b]) is Less);
    }
}

/// Collect the contents of the selected inline rows, in increasing row order.
pub fn collect_inline_selection(
    rows: &[ConflictInlineRow],
    selected: &std::collections::BTreeSet<usize>,
) -> (out: Vec<String>)
    ensures
        exists|ixs: Seq<usize>|
            {
                &&& forall|a: int, b: int| 0 <= a < b < ixs.len() ==> ixs[a] < ixs[b]
                &&& ixs.to_set() == selected@
                &&& strings_view(out@) == inline_selection(rows@, ixs)
            },
{
    proof {
        lemma_btree_keys_sorted(selected);
    }
    let mut out: Vec<String> = Vec::new();
    let ghost mut ixs: Seq<usize> = Seq::empty();
    for ix in it: selected.iter()
        invariant
            ixs == it.seq().take(it.index() as int).map_values(|r: &usize| *r),
            it.seq() == spec_btree_keys_iter(selected).remaining(),
            strings_view(out@) == inline_selection(rows@, ixs),
    {
        let ghost before = out@;
        if *ix < rows.len() {
            out.push(rows[*ix].content.clone());
        }
        proof {
            let nixs = ixs.push(*ix);
            assert(nixs.drop_last() =~= ixs);
            assert(strings_view(out@) =~= inline_selection(rows@, nixs));
            ixs = nixs;
        }
        assert(ixs =~= it.seq().take(it.index() as int + 1).map_values(|r: &usize| *r));
    }
    proof {
        let keys = spec_btree_keys_iter(selected).remaining().unref();
        assert(ixs =~= keys);
    }
    out
}

} // verus!
