use vstd::prelude::*;
use crate::conflict_rows::{opt_text, DiffLineKind, FileDiffRow};
use crate::diff_patch::{
    content_text, diff_content_text, header_path, hunk_header, is_file_header,
    line_is_file_header, parse_diff_git_header_path, parse_unified_hunk_header_for_display,
    AnnotatedDiffLine,
};
use crate::diff_view::{DiffTextPos, DiffTextRegion, DiffViewMode};
use crate::text_selection::{
    combined_offset, diff_text_combined_offset, normalized, pos_le, rows_range, select_all_region,
    select_diff_text_rows_range, DiffTextSelection,
};
use crate::row_nav::{
    clamp_row, diff_next_boundary_visible_ix, inline_block_end, split_block_end,
    split_next_boundary_visible_ix,
};
use crate::patch_rows::{DiffClickKind, PatchSplitRow};
use crate::text::{chars_to_string, extend_chars, str_to_chars};
use crate::word_diff::{byte_offset, char_boundary, utf8_width};

verus! {

/// The text with every tab replaced by four spaces.
pub open spec fn tabs_expanded(s: Seq<char>) -> Seq<char>
    decreases s.len(),
{
    if s.len() == 0 {
        s
    } else {
        tabs_expanded(s.drop_last()) + if s.last() == '\t' {
            seq![' ', ' ', ' ', ' ']
        } else {
            seq![s.last()]
        }
    }
}

/// A hunk header as the diff view shows it: its old and new ranges, then its heading after
/// two spaces when it has one; the text as it is when it is no hunk header.
pub open spec fn hunk_display(t: Seq<char>) -> Seq<char> {
    match hunk_header(t) {
        Some((old, new, heading)) => {
            let h = match heading {
                Some(x) => x,
                None => Seq::empty(),
            };
            if h.len() == 0 {
                old + seq![' '] + new
            } else {
                old + seq![' '] + new + seq![' ', ' '] + h
            }
        },
        None => t,
    }
}

/// A file header as the diff view shows it: the path it names, or the text as it is.
pub open spec fn file_display(t: Seq<char>) -> Seq<char> {
    match header_path(t) {
        Some(p) => p,
        None => t,
    }
}

/// A line of the inline patch view as shown: hunk and file headers shortened.
pub open spec fn patch_line_display(l: AnnotatedDiffLine) -> Seq<char> {
    if l.kind == DiffLineKind::Hunk {
        hunk_display(l.text@)
    } else if is_file_header(l) {
        file_display(l.text@)
    } else {
        l.text@
    }
}

/// A raw row of the side-by-side patch view as shown, by what a click on it selects.
pub open spec fn raw_display(l: AnnotatedDiffLine, kind: DiffClickKind) -> Seq<char> {
    match kind {
        DiffClickKind::HunkHeader => hunk_display(l.text@),
        DiffClickKind::FileHeader => file_display(l.text@),
        DiffClickKind::Line => l.text@,
    }
}

/// The text of one side of a side-by-side row.
pub open spec fn side_text(row: FileDiffRow, region: DiffTextRegion) -> Seq<char> {
    if region == DiffTextRegion::SplitLeft {
        opt_text(row.old)
    } else {
        opt_text(row.new)
    }
}

/// What the diff view shows: a file preview (its lines, once loaded), or the rows listed in
/// `visible` of a whole-file diff (`file_lines` inline, `file_rows` side by side) or of a
/// patch (`diff` inline, `split_rows` side by side).
pub struct DiffTextSource {
    pub preview_active: bool,
    pub preview_lines: Option<Vec<String>>,
    pub visible: Vec<usize>,
    pub mode: DiffViewMode,
    pub is_file_view: bool,
    pub diff: Vec<AnnotatedDiffLine>,
    pub file_lines: Vec<AnnotatedDiffLine>,
    pub file_rows: Vec<FileDiffRow>,
    pub split_rows: Vec<PatchSplitRow>,
}

/// The text shown in listed row `v`, column `region`, tabs expanded; empty where the view
/// has no such text.
pub open spec fn line_text(src: DiffTextSource, v: int, region: DiffTextRegion) -> Seq<char> {
    if src.preview_active {
        if region != DiffTextRegion::Inline {
            Seq::empty()
        } else {
            match src.preview_lines {
                Some(ls) => if 0 <= v < ls.len() {
                    tabs_expanded(ls[v]@)
                } else {
                    Seq::empty()
                },
                None => Seq::empty(),
            }
        }
    } else if !(0 <= v < src.visible.len()) {
        Seq::empty()
    } else {
        let ix = src.visible[v] as int;
        match src.mode {
            DiffViewMode::Inline => if region != DiffTextRegion::Inline {
                Seq::empty()
            } else if src.is_file_view {
                if ix < src.file_lines.len() {
                    tabs_expanded(content_text(src.file_lines[ix]))
                } else {
                    Seq::empty()
                }
            } else if ix < src.diff.len() {
                tabs_expanded(patch_line_display(src.diff[ix]))
            } else {
                Seq::empty()
            },
            DiffViewMode::Split => if region == DiffTextRegion::Inline {
                Seq::empty()
            } else if src.is_file_view {
                if ix < src.file_rows.len() {
                    tabs_expanded(side_text(src.file_rows[ix], region))
                } else {
                    Seq::empty()
                }
            } else if ix < src.split_rows.len() {
                match src.split_rows[ix] {
                    PatchSplitRow::Raw { src_ix, click_kind } => if src_ix < src.diff.len() {
                        tabs_expanded(raw_display(src.diff[src_ix as int], click_kind))
                    } else {
                        Seq::empty()
                    },
                    PatchSplitRow::Aligned { row, .. } => tabs_expanded(side_text(row, region)),
                }
            } else {
                Seq::empty()
            },
        }
    }
}

/// `s` with every tab replaced by four spaces.
pub fn expand_tabs(s: &str) -> (out: String)
    ensures
        out@ == tabs_expanded(s@),
{
    let cs = str_to_chars(s);
    let mut out: Vec<char> = Vec::new();
    let mut i: usize = 0;
    while i < cs.len()
        invariant
            i <= cs@.len(),
            cs@ == s@,
            out@ == tabs_expanded(cs@.take(i as int)),
        decreases cs@.len() - i,
    {
        let c = cs[i];
        if c == '\t' {
            out.push(' ');
            out.push(' ');
            out.push(' ');
            out.push(' ');
        } else {
            out.push(c);
        }
        assert(cs@.take(i + 1).drop_last() =~= cs@.take(i as int));
        assert(out@ =~= tabs_expanded(cs@.take(i + 1)));
        i = i + 1;
    }
    assert(cs@.take(i as int) =~= cs@);
    chars_to_string(&out)
}

/// The display text of a hunk header line (see `hunk_display`).
pub fn hunk_header_display(text: &str) -> (out: String)
    ensures
        out@ == hunk_display(text@),
{
    match parse_unified_hunk_header_for_display(text) {
        Some(p) => {
            let mut v = str_to_chars(p.old.as_str());
            v.push(' ');
            let n = str_to_chars(p.new.as_str());
            extend_chars(&mut v, &n);
            let h = match &p.heading {
                Some(x) => str_to_chars(x.as_str()),
                None => Vec::new(),
            };
            if h.len() > 0 {
                v.push(' ');
                v.push(' ');
                extend_chars(&mut v, &h);
            }
            proof {
                let hv = match p.heading {
                    Some(x) => x@,
                    None => Seq::<char>::empty(),
                };
                assert(h@ == hv);
                if h@.len() == 0 {
                    assert(v@ =~= p.old@ + seq![' '] + p.new@);
                } else {
                    assert(v@ =~= p.old@ + seq![' '] + p.new@ + seq![' ', ' '] + hv);
                }
            }
            chars_to_string(&v)
        },
        None => {
            let v = str_to_chars(text);
            chars_to_string(&v)
        },
    }
}

/// The display text of a file header line (see `file_display`).
pub fn file_header_display(text: &str) -> (out: String)
    ensures
        out@ == file_display(text@),
{
    match parse_diff_git_header_path(text) {
        Some(p) => p,
        None => {
            let v = str_to_chars(text);
            chars_to_string(&v)
        },
    }
}

fn patch_line_display_exec(l: &AnnotatedDiffLine) -> (out: String)
    ensures
        out@ == patch_line_display(*l),
{
    match l.kind {
        DiffLineKind::Hunk => hunk_header_display(l.text.as_str()),
        _ => {
            if line_is_file_header(l) {
                file_header_display(l.text.as_str())
            } else {
                let v = str_to_chars(l.text.as_str());
                chars_to_string(&v)
            }
        },
    }
}

fn raw_display_exec(l: &AnnotatedDiffLine, kind: DiffClickKind) -> (out: String)
    ensures
        out@ == raw_display(*l, kind),
{
    match kind {
        DiffClickKind::HunkHeader => hunk_header_display(l.text.as_str()),
        DiffClickKind::FileHeader => file_header_display(l.text.as_str()),
        DiffClickKind::Line => {
            let v = str_to_chars(l.text.as_str());
            chars_to_string(&v)
        },
    }
}

fn side_text_exec(row: &FileDiffRow, region: DiffTextRegion) -> (out: String)
    ensures
        out@ == tabs_expanded(side_text(*row, region)),
{
    if region == DiffTextRegion::SplitLeft {
        match &row.old {
            Some(s) => expand_tabs(s.as_str()),
            None => String::new(),
        }
    } else {
        match &row.new {
            Some(s) => expand_tabs(s.as_str()),
            None => String::new(),
        }
    }
}

/// The text shown in listed row `visible_ix`, column `region` (see `line_text`).
pub fn diff_text_line_for_region(src: &DiffTextSource, visible_ix: usize, region: DiffTextRegion) -> (out: String)
    ensures
        out@ == line_text(*src, visible_ix as int, region),
{
    let empty = String::new();
    if src.preview_active {
        if region != DiffTextRegion::Inline {
            return empty;
        }
        return match &src.preview_lines {
            Some(ls) => if visible_ix < ls.len() {
                expand_tabs(ls[visible_ix].as_str())
            } else {
                empty
            },
            None => empty,
        };
    }
    if visible_ix >= src.visible.len() {
        return empty;
    }
    let ix = src.visible[visible_ix];
    match src.mode {
        DiffViewMode::Inline => {
            if region != DiffTextRegion::Inline {
                return empty;
            }
            if src.is_file_view {
                if ix < src.file_lines.len() {
                    let t = diff_content_text(&src.file_lines[ix]);
                    expand_tabs(t.as_str())
                } else {
                    empty
                }
            } else if ix < src.diff.len() {
                let t = patch_line_display_exec(&src.diff[ix]);
                expand_tabs(t.as_str())
            } else {
                empty
            }
        },
        DiffViewMode::Split => {
            if region == DiffTextRegion::Inline {
                return empty;
            }
            if src.is_file_view {
                if ix < src.file_rows.len() {
                    side_text_exec(&src.file_rows[ix], region)
                } else {
                    empty
                }
            } else if ix < src.split_rows.len() {
                match &src.split_rows[ix] {
                    PatchSplitRow::Raw { src_ix, click_kind } => {
                        if *src_ix < src.diff.len() {
                            let t = raw_display_exec(&src.diff[*src_ix], *click_kind);
                            expand_tabs(t.as_str())
                        } else {
                            empty
                        }
                    },
                    PatchSplitRow::Aligned { row, .. } => side_text_exec(row, region),
                }
            } else {
                empty
            }
        },
    }
}

} // verus!

verus! {

/// `str::len`: the length of the text in bytes, each character counting as many bytes as
/// its UTF-8 encoding takes.
#[verifier::external_body]
pub(crate) fn str_byte_len(s: &str) -> (n: usize)
    ensures
        n == byte_offset(s@, s@.len() as int),
{
    s.len()
}

/// The length of `cs` in bytes.
pub open spec fn byte_len_of(cs: Seq<char>) -> int {
    byte_offset(cs, cs.len() as int) as int
}

/// The character position where byte offset `b` of `cs` falls.
pub open spec fn char_at_byte(cs: Seq<char>, b: int) -> int {
    choose|k: int| 0 <= k <= cs.len() && byte_offset(cs, k) == b
}

/// The characters of `cs` between byte offsets `a` and `b`.
pub open spec fn byte_sub(cs: Seq<char>, a: int, b: int) -> Seq<char> {
    cs.subrange(char_at_byte(cs, a), char_at_byte(cs, b))
}

proof fn lemma_byte_offset_strict(cs: Seq<char>, a: int, b: int)
    requires
        0 <= a < b <= cs.len(),
    ensures
        byte_offset(cs, a) < byte_offset(cs, b),
    decreases b - a,
{
    if a + 1 < b {
        lemma_byte_offset_strict(cs, a, b - 1);
    }
}

proof fn lemma_char_at_byte(cs: Seq<char>, k: int)
    requires
        0 <= k <= cs.len(),
    ensures
        char_at_byte(cs, byte_offset(cs, k) as int) == k,
{
    let b = byte_offset(cs, k) as int;
    assert(char_boundary(cs, b));
    let j = char_at_byte(cs, b);
    if j < k {
        lemma_byte_offset_strict(cs, j, k);
    } else if j > k {
        lemma_byte_offset_strict(cs, k, j);
    }
}

/// The character position of byte offset `b`, a character boundary of `cs`.
fn char_index_at_byte(cs: &Vec<char>, b: usize) -> (k: usize)
    requires
        char_boundary(cs@, b as int),
    ensures
        k <= cs@.len(),
        byte_offset(cs@, k as int) == b,
        char_at_byte(cs@, b as int) == k,
{
    let ghost kb = choose|k: int| 0 <= k <= cs@.len() && byte_offset(cs@, k) == b;
    let n = cs.len();
    let mut k: usize = 0;
    let mut acc: usize = 0;
    while acc < b
        invariant
            n == cs@.len(),
            0 <= kb <= cs@.len(),
            byte_offset(cs@, kb) == b,
            k <= kb,
            acc == byte_offset(cs@, k as int),
        decreases kb - k,
    {
        proof {
            assert(k < kb);
            if k + 1 < kb {
                lemma_byte_offset_strict(cs@, k + 1, kb);
            }
        }
        acc = acc + utf8_width_of(cs[k]);
        k = k + 1;
    }
    proof {
        if k < kb {
            lemma_byte_offset_strict(cs@, k as int, kb);
        }
        lemma_char_at_byte(cs@, k as int);
    }
    k
}

fn utf8_width_of(c: char) -> (w: usize)
    ensures
        w == utf8_width(c),
{
    let u = c as u32;
    if u < 0x80 {
        1
    } else if u < 0x800 {
        2
    } else if u < 0x10000 {
        3
    } else {
        4
    }
}

} // verus!

verus! {

/// `x` kept at most `len`.
pub open spec fn min_int(x: int, len: int) -> int {
    if x < len {
        x
    } else {
        len
    }
}

/// What row `v` contributes to the copied selection from `start` to `end`: its text and the
/// byte range taken from it. Inline (and in a file preview) the row's single text; within
/// one side of the side-by-side view that side's text; across both sides the left text, a
/// tab and the right text.
pub open spec fn row_piece(src: DiffTextSource, start: DiffTextPos, end: DiffTextPos, v: int) -> (
    Seq<char>,
    int,
    int,
) {
    if src.preview_active || src.mode == DiffViewMode::Inline {
        let t = line_text(src, v, DiffTextRegion::Inline);
        let len = byte_len_of(t);
        (
            t,
            if v == start.visible_ix {
                min_int(start.offset as int, len)
            } else {
                0
            },
            if v == end.visible_ix {
                min_int(end.offset as int, len)
            } else {
                len
            },
        )
    } else if start.region == end.region && (start.region == DiffTextRegion::SplitLeft
        || start.region == DiffTextRegion::SplitRight) {
        let t = line_text(src, v, start.region);
        let len = byte_len_of(t);
        (
            t,
            if v == start.visible_ix {
                min_int(start.offset as int, len)
            } else {
                0
            },
            if v == end.visible_ix {
                min_int(end.offset as int, len)
            } else {
                len
            },
        )
    } else {
        let l = line_text(src, v, DiffTextRegion::SplitLeft);
        let r = line_text(src, v, DiffTextRegion::SplitRight);
        let c = l + seq!['\t'] + r;
        let ll = byte_len_of(l) as usize;
        let len = byte_len_of(c);
        (
            c,
            if v == start.visible_ix {
                min_int(combined_offset(start, src.mode, ll) as int, len)
            } else {
                0
            },
            if v == end.visible_ix {
                min_int(combined_offset(end, src.mode, ll) as int, len)
            } else {
                len
            },
        )
    }
}

/// The copied text so far, `out`, with the part of a row appended: on a new line unless
/// nothing was copied yet.
pub open spec fn append_piece(out: Seq<char>, p: (Seq<char>, int, int)) -> Seq<char> {
    (if out.len() > 0 {
        out.push('\n')
    } else {
        out
    }) + if p.1 < p.2 {
        byte_sub(p.0, p.1, p.2)
    } else {
        Seq::empty()
    }
}

/// The copied text of the first `n` rows of the selection from `start` to `end`.
pub open spec fn copied_rows(src: DiffTextSource, start: DiffTextPos, end: DiffTextPos, n: int) -> Seq<
    char,
>
    decreases n,
{
    if n <= 0 {
        Seq::empty()
    } else {
        append_piece(
            copied_rows(src, start, end, n - 1),
            row_piece(src, start, end, start.visible_ix + n - 1),
        )
    }
}

/// The text that copying the selection gives: nothing without a selection or for an empty
/// one, else the selected part of each selected row, one row per line, when that is not
/// empty.
pub open spec fn copied_text(src: DiffTextSource, sel: DiffTextSelection) -> Option<Seq<char>> {
    match normalized(sel.anchor, sel.head) {
        None => None,
        Some((start, end)) => if start == end {
            None
        } else {
            let out = copied_rows(src, start, end, end.visible_ix - start.visible_ix + 1);
            if out.len() == 0 {
                None
            } else {
                Some(out)
            }
        },
    }
}

/// The byte ranges cut from the selected rows fall on character boundaries.
pub open spec fn cuts_on_boundaries(src: DiffTextSource, sel: DiffTextSelection) -> bool {
    match normalized(sel.anchor, sel.head) {
        None => true,
        Some((start, end)) => forall|v: int|
            start.visible_ix <= v <= end.visible_ix ==> {
                let p = #[trigger] row_piece(src, start, end, v);
                p.1 < p.2 ==> char_boundary(p.0, p.1) && char_boundary(p.0, p.2)
            },
    }
}

fn piece_exec(src: &DiffTextSource, start: DiffTextPos, end: DiffTextPos, v: usize) -> (r: (Vec<char>, usize, usize))
    ensures
        (r.0@, r.1 as int, r.2 as int) == row_piece(*src, start, end, v as int),
{
    if src.preview_active || src.mode == DiffViewMode::Inline {
        let t = diff_text_line_for_region(src, v, DiffTextRegion::Inline);
        let len = str_byte_len(t.as_str());
        let a = if v == start.visible_ix {
            if start.offset < len {
                start.offset
            } else {
                len
            }
        } else {
            0
        };
        let b = if v == end.visible_ix {
            if end.offset < len {
                end.offset
            } else {
                len
            }
        } else {
            len
        };
        (str_to_chars(t.as_str()), a, b)
    } else if start.region == end.region && (start.region == DiffTextRegion::SplitLeft
        || start.region == DiffTextRegion::SplitRight) {
        let t = diff_text_line_for_region(src, v, start.region);
        let len = str_byte_len(t.as_str());
        let a = if v == start.visible_ix {
            if start.offset < len {
                start.offset
            } else {
                len
            }
        } else {
            0
        };
        let b = if v == end.visible_ix {
            if end.offset < len {
                end.offset
            } else {
                len
            }
        } else {
            len
        };
        (str_to_chars(t.as_str()), a, b)
    } else {
        let l = diff_text_line_for_region(src, v, DiffTextRegion::SplitLeft);
        let r = diff_text_line_for_region(src, v, DiffTextRegion::SplitRight);
        let mut c = l.clone();
        crate::text::push_char(&mut c, '\t');
        crate::text::push_str(&mut c, r.as_str());
        let ll = str_byte_len(l.as_str());
        let len = str_byte_len(c.as_str());
        proof {
            assert(c@ == l@ + seq!['\t'] + r@);
        }
        let a = if v == start.visible_ix {
            let o = diff_text_combined_offset(start, src.mode, ll);
            if o < len {
                o
            } else {
                len
            }
        } else {
            0
        };
        let b = if v == end.visible_ix {
            let o = diff_text_combined_offset(end, src.mode, ll);
            if o < len {
                o
            } else {
                len
            }
        } else {
            len
        };
        (str_to_chars(c.as_str()), a, b)
    }
}

/// The text that copying the selection gives (see `copied_text`).
pub fn selected_diff_text_string(src: &DiffTextSource, sel: &DiffTextSelection) -> (r: Option<String>)
    requires
        cuts_on_boundaries(*src, *sel),
    ensures
        match r {
            Some(s) => copied_text(*src, *sel) == Some(s@),
            None => copied_text(*src, *sel) is None,
        },
{
    let (start, end) = match sel.diff_text_normalized_selection() {
        Some(p) => p,
        None => {
            return None;
        },
    };
    if start == end {
        return None;
    }
    assert(pos_le(start, end));
    let mut out: Vec<char> = Vec::new();
    let mut v: usize = start.visible_ix;
    loop
        invariant_except_break
            out@ == copied_rows(*src, start, end, v - start.visible_ix),
        invariant
            normalized(sel.anchor, sel.head) == Some((start, end)),
            cuts_on_boundaries(*src, *sel),
            start.visible_ix <= v <= end.visible_ix,
        ensures
            out@ == copied_rows(*src, start, end, end.visible_ix - start.visible_ix + 1),
        decreases end.visible_ix - v,
    {
        let (t, a, b) = piece_exec(src, start, end, v);
        let ghost before = out@;
        if out.len() > 0 {
            out.push('\n');
        }
        if a < b {
            let ghost p = row_piece(*src, start, end, v as int);
            assert(p.1 < p.2 ==> char_boundary(p.0, p.1) && char_boundary(p.0, p.2));
            let ka = char_index_at_byte(&t, a);
            let kb = char_index_at_byte(&t, b);
            proof {
                if kb < ka {
                    lemma_byte_offset_strict(t@, kb as int, ka as int);
                }
            }
            let piece = crate::text::sub_chars(&t, ka, kb);
            extend_chars(&mut out, &piece);
        }
        assert(out@ =~= append_piece(before, row_piece(*src, start, end, v as int)));
        assert(copied_rows(*src, start, end, v - start.visible_ix + 1) == append_piece(
            copied_rows(*src, start, end, v - start.visible_ix),
            row_piece(*src, start, end, v as int),
        ));
        if v == end.visible_ix {
            break;
        }
        v = v + 1;
    }
    if out.len() == 0 {
        None
    } else {
        Some(chars_to_string(&out))
    }
}

} // verus!

verus! {

/// The selection after selecting whole rows `start` to `end` of column `region` (see
/// `rows_range`): up to the end of the last row's text, with the two clicks of the double
/// click that asked for it ignored. Nothing changes in an empty list.
pub open spec fn rows_selected(
    sel: DiffTextSelection,
    src: DiffTextSource,
    start: usize,
    end: usize,
    region: DiffTextRegion,
) -> DiffTextSelection {
    match rows_range(src.visible.len() as usize, start, end, region, src.mode) {
        None => sel,
        Some((a, b, r)) => DiffTextSelection {
            selecting: false,
            anchor: Some(DiffTextPos { visible_ix: a, region: r, offset: 0 }),
            head: Some(
                DiffTextPos {
                    visible_ix: b,
                    region: r,
                    offset: byte_len_of(line_text(src, b as int, r)) as usize,
                },
            ),
            suppress_clicks_remaining: 2,
        },
    }
}

/// The text a copy takes: the selected text when some is selected (see `copied_text`);
/// else the text of row `visible_ix` in `region`, unless it is empty.
pub open spec fn text_to_copy(
    src: DiffTextSource,
    sel: DiffTextSelection,
    visible_ix: int,
    region: DiffTextRegion,
) -> Option<Seq<char>> {
    let has = match normalized(sel.anchor, sel.head) {
        Some((a, b)) => a != b,
        None => false,
    };
    if has {
        copied_text(src, sel)
    } else if line_text(src, visible_ix, region).len() == 0 {
        None
    } else {
        Some(line_text(src, visible_ix, region))
    }
}

/// The text to put on the clipboard for a copy on row `visible_ix` in `region` (see
/// `text_to_copy`).
pub fn copy_diff_text_selection_or_region_line(
    src: &DiffTextSource,
    sel: &DiffTextSelection,
    visible_ix: usize,
    region: DiffTextRegion,
) -> (r: Option<String>)
    requires
        cuts_on_boundaries(*src, *sel),
    ensures
        match r {
            Some(s) => text_to_copy(*src, *sel, visible_ix as int, region) == Some(s@),
            None => text_to_copy(*src, *sel, visible_ix as int, region) is None,
        },
{
    if sel.diff_text_has_selection() {
        return selected_diff_text_string(src, sel);
    }
    let t = diff_text_line_for_region(src, visible_ix, region);
    let cs = str_to_chars(t.as_str());
    if cs.len() == 0 {
        None
    } else {
        Some(t)
    }
}

/// Selects whole listed rows `start` to `end` of column `region` (see `rows_selected`).
pub fn select_diff_text_rows(
    sel: &mut DiffTextSelection,
    src: &DiffTextSource,
    start: usize,
    end: usize,
    region: DiffTextRegion,
)
    ensures
        *final(sel) == rows_selected(*old(sel), *src, start, end, region),
{
    match select_diff_text_rows_range(src.visible.len(), start, end, region, src.mode) {
        None => {},
        Some((a, b, r)) => {
            let t = diff_text_line_for_region(src, b, r);
            let len = str_byte_len(t.as_str());
            sel.set_diff_text_rows_selection(a, b, r, len);
        },
    }
}

/// The selection after selecting everything: all lines of a loaded file preview, or all
/// listed rows in the column `select_all_region` picks, up to the end of the last row's
/// text. Nothing changes when there is nothing to select.
pub open spec fn all_selected(sel: DiffTextSelection, src: DiffTextSource) -> DiffTextSelection {
    if src.preview_active {
        match src.preview_lines {
            None => sel,
            Some(ls) => if ls.len() == 0 {
                sel
            } else {
                let last = (ls.len() - 1) as usize;
                DiffTextSelection {
                    selecting: false,
                    anchor: Some(DiffTextPos { visible_ix: 0, region: DiffTextRegion::Inline, offset: 0 }),
                    head: Some(
                        DiffTextPos {
                            visible_ix: last,
                            region: DiffTextRegion::Inline,
                            offset: byte_len_of(line_text(src, last as int, DiffTextRegion::Inline)) as usize,
                        },
                    ),
                    ..sel
                }
            },
        }
    } else if src.visible.len() == 0 {
        sel
    } else {
        let r = select_all_region(sel, src.mode);
        let last = (src.visible.len() - 1) as usize;
        DiffTextSelection {
            selecting: false,
            anchor: Some(DiffTextPos { visible_ix: 0, region: r, offset: 0 }),
            head: Some(
                DiffTextPos {
                    visible_ix: last,
                    region: r,
                    offset: byte_len_of(line_text(src, last as int, r)) as usize,
                },
            ),
            ..sel
        }
    }
}

/// Selects everything the diff view shows (see `all_selected`).
pub fn select_all_diff_text(sel: &mut DiffTextSelection, src: &DiffTextSource)
    ensures
        *final(sel) == all_selected(*old(sel), *src),
{
    if src.preview_active {
        let count = match &src.preview_lines {
            Some(ls) => ls.len(),
            None => {
                return;
            },
        };
        if count == 0 {
            return;
        }
        let t = diff_text_line_for_region(src, count - 1, DiffTextRegion::Inline);
        let len = str_byte_len(t.as_str());
        sel.set_all_selected(count - 1, DiffTextRegion::Inline, len);
        return;
    }
    if src.visible.len() == 0 {
        return;
    }
    let r = sel.select_all_region(src.mode);
    let last = src.visible.len() - 1;
    let t = diff_text_line_for_region(src, last, r);
    let len = str_byte_len(t.as_str());
    sel.set_all_selected(last, r, len);
}

/// The selection after a double click on listed row `visible_ix` (kept within the list),
/// column `region`: in a loaded file preview the row's whole line; in a whole-file diff the
/// row; in a patch the block a click of `kind` selects (the row, its hunk, or its file).
pub open spec fn double_click_selected(
    sel: DiffTextSelection,
    src: DiffTextSource,
    visible_ix: usize,
    region: DiffTextRegion,
    kind: DiffClickKind,
) -> DiffTextSelection {
    if src.preview_active {
        match src.preview_lines {
            None => sel,
            Some(ls) => if ls.len() == 0 {
                sel
            } else {
                let v = clamp_row(visible_ix as nat, ls@.len()) as usize;
                DiffTextSelection {
                    selecting: false,
                    anchor: Some(DiffTextPos { visible_ix: v, region: DiffTextRegion::Inline, offset: 0 }),
                    head: Some(
                        DiffTextPos {
                            visible_ix: v,
                            region: DiffTextRegion::Inline,
                            offset: byte_len_of(line_text(src, v as int, DiffTextRegion::Inline)) as usize,
                        },
                    ),
                    suppress_clicks_remaining: 2,
                }
            },
        }
    } else if src.visible.len() == 0 {
        sel
    } else {
        let v = clamp_row(visible_ix as nat, src.visible@.len());
        if src.is_file_view {
            rows_selected(sel, src, v as usize, v as usize, region)
        } else {
            let e = match src.mode {
                DiffViewMode::Inline => inline_block_end(src.visible@, src.diff@, v, kind),
                DiffViewMode::Split => split_block_end(src.visible@, src.split_rows@, v, kind),
            };
            rows_selected(sel, src, v as usize, e as usize, region)
        }
    }
}

/// A double click on the diff text (see `double_click_selected`).
pub fn double_click_select_diff_text(
    sel: &mut DiffTextSelection,
    src: &DiffTextSource,
    visible_ix: usize,
    region: DiffTextRegion,
    kind: DiffClickKind,
)
    requires
        !src.preview_active && !src.is_file_view && src.mode == DiffViewMode::Inline ==> forall|i: int|
            0 <= i < src.visible@.len() ==> #[trigger] src.visible@[i] < src.diff@.len(),
    ensures
        *final(sel) == double_click_selected(*old(sel), *src, visible_ix, region, kind),
{
    if src.preview_active {
        let count = match &src.preview_lines {
            Some(ls) => ls.len(),
            None => {
                return;
            },
        };
        if count == 0 {
            return;
        }
        let v = if visible_ix < count {
            visible_ix
        } else {
            count - 1
        };
        let t = diff_text_line_for_region(src, v, DiffTextRegion::Inline);
        let len = str_byte_len(t.as_str());
        sel.set_diff_text_rows_selection(v, v, DiffTextRegion::Inline, len);
        return;
    }
    let list_len = src.visible.len();
    if list_len == 0 {
        return;
    }
    let v = if visible_ix < list_len {
        visible_ix
    } else {
        list_len - 1
    };
    if src.is_file_view {
        select_diff_text_rows(sel, src, v, v, region);
        return;
    }
    let end = match src.mode {
        DiffViewMode::Inline => match kind {
            DiffClickKind::Line => v,
            _ => match diff_next_boundary_visible_ix(src.visible.as_slice(), src.diff.as_slice(), v, kind) {
                Some(e) => e,
                None => list_len - 1,
            },
        },
        DiffViewMode::Split => match kind {
            DiffClickKind::Line => v,
            _ => match split_next_boundary_visible_ix(
                src.visible.as_slice(),
                src.split_rows.as_slice(),
                v,
                kind,
            ) {
                Some(e) => e,
                None => list_len - 1,
            },
        },
    };
    select_diff_text_rows(sel, src, v, end, region);
}

} // verus!

verus! {

/// Byte offsets grow strictly with the character position.
pub proof fn lemma_byte_offset_strict_pub(cs: Seq<char>, a: int, b: int)
    requires
        0 <= a < b <= cs.len(),
    ensures
        byte_offset(cs, a) < byte_offset(cs, b),
{
    lemma_byte_offset_strict(cs, a, b);
}

/// The character position of the byte offset of character `k` is `k`.
pub proof fn lemma_char_at_byte_pub(cs: Seq<char>, k: int)
    requires
        0 <= k <= cs.len(),
    ensures
        char_at_byte(cs, byte_offset(cs, k) as int) == k,
{
    lemma_char_at_byte(cs, k);
}

} // verus!
