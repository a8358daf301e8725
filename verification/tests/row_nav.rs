use gitgpui_view::conflict_rows::{DiffLineKind, FileDiffRow, FileDiffRowKind};
use gitgpui_view::diff_patch::AnnotatedDiffLine;
use gitgpui_view::diff_view::DiffViewMode;
use gitgpui_view::patch_rows::{DiffClickKind, PatchSplitRow};
use gitgpui_view::diff_view::scrollbar_markers_for_flags;
use gitgpui_view::row_nav::{
    all_row_indices, compute_diff_scrollbar_markers, diff_scrollbar_flags, autoscroll_to_first_change, diff_jump_next, diff_jump_prev,
    diff_nav_entries, diff_next_boundary_visible_ix, ensure_diff_visible_indices,
    file_change_visible_indices, handle_diff_row_click, handle_file_diff_row_click,
    handle_patch_row_click, handle_split_row_click, patch_hunk_entries, patch_visible_indices,
    split_next_boundary_visible_ix, RowSelection, VisibleRows,
};

fn line(kind: DiffLineKind, text: &str) -> AnnotatedDiffLine {
    AnnotatedDiffLine { kind, text: text.to_string(), old_line: None, new_line: None }
}

fn patch() -> Vec<AnnotatedDiffLine> {
    vec![
        line(DiffLineKind::Header, "diff --git a/f b/f"),
        line(DiffLineKind::Header, "index 123..456 100644"),
        line(DiffLineKind::Header, "--- a/f"),
        line(DiffLineKind::Header, "+++ b/f"),
        line(DiffLineKind::Hunk, "@@ -1,2 +1,2 @@"),
        line(DiffLineKind::Context, " a"),
        line(DiffLineKind::Remove, "-b"),
        line(DiffLineKind::Add, "+c"),
        line(DiffLineKind::Hunk, "@@ -10 +10 @@"),
        line(DiffLineKind::Add, "+d"),
        line(DiffLineKind::Header, "diff --git a/g b/g"),
        line(DiffLineKind::Hunk, "@@ -1 +1 @@"),
        line(DiffLineKind::Remove, "-x"),
    ]
}

fn file_row(kind: FileDiffRowKind) -> FileDiffRow {
    FileDiffRow { kind, old_line: None, new_line: None, old: None, new: None }
}

fn aligned(kind: FileDiffRowKind) -> PatchSplitRow {
    PatchSplitRow::Aligned { row: file_row(kind), old_src_ix: None, new_src_ix: None }
}

fn split_rows() -> Vec<PatchSplitRow> {
    vec![
        PatchSplitRow::Raw { src_ix: 0, click_kind: DiffClickKind::FileHeader },
        PatchSplitRow::Raw { src_ix: 1, click_kind: DiffClickKind::Line },
        PatchSplitRow::Raw { src_ix: 4, click_kind: DiffClickKind::HunkHeader },
        aligned(FileDiffRowKind::Context),
        aligned(FileDiffRowKind::Modify),
        PatchSplitRow::Raw { src_ix: 8, click_kind: DiffClickKind::HunkHeader },
        aligned(FileDiffRowKind::Add),
        PatchSplitRow::Raw { src_ix: 10, click_kind: DiffClickKind::FileHeader },
        PatchSplitRow::Raw { src_ix: 11, click_kind: DiffClickKind::HunkHeader },
        aligned(FileDiffRowKind::Remove),
    ]
}

#[test]
fn inline_view_hides_index_and_file_name_headers() {
    let diff = patch();
    let visible = patch_visible_indices(DiffViewMode::Inline, &diff, &[]);
    assert_eq!(visible, vec![0, 4, 5, 6, 7, 8, 9, 10, 11, 12]);
    assert_eq!(all_row_indices(3), vec![0, 1, 2]);
}

#[test]
fn split_view_lists_aligned_rows_and_shown_raw_rows() {
    let diff = patch();
    let visible = patch_visible_indices(DiffViewMode::Split, &diff, &split_rows());
    assert_eq!(visible, vec![0, 2, 3, 4, 5, 6, 7, 8, 9]);
}

#[test]
fn visible_rows_are_recomputed_only_when_their_inputs_change() {
    let diff = patch();
    let mut cache = VisibleRows {
        source_len: 0,
        view: DiffViewMode::Inline,
        is_file_view: false,
        indices: Vec::new(),
    };
    assert!(ensure_diff_visible_indices(&mut cache, false, DiffViewMode::Inline, &diff, &[], 0));
    assert_eq!(cache.indices.len(), 10);
    assert!(!ensure_diff_visible_indices(&mut cache, false, DiffViewMode::Inline, &diff, &[], 0));
    assert!(ensure_diff_visible_indices(&mut cache, true, DiffViewMode::Inline, &diff, &[], 4));
    assert_eq!(cache.indices, vec![0, 1, 2, 3]);
    assert_eq!(cache.source_len, 4);
}

#[test]
fn clicks_on_headers_select_their_hunk_or_file() {
    let diff = patch();
    let visible = patch_visible_indices(DiffViewMode::Inline, &diff, &[]);
    let mut sel = RowSelection { anchor: None, range: None };

    handle_diff_row_click(&mut sel, &visible, &diff, 1, DiffClickKind::HunkHeader, false);
    assert_eq!(sel, RowSelection { anchor: Some(1), range: Some((1, 4)) });

    handle_diff_row_click(&mut sel, &visible, &diff, 0, DiffClickKind::FileHeader, false);
    assert_eq!(sel.range, Some((0, 6)));

    handle_diff_row_click(&mut sel, &visible, &diff, 7, DiffClickKind::FileHeader, false);
    assert_eq!(sel.range, Some((7, 9)));

    handle_diff_row_click(&mut sel, &visible, &diff, 2, DiffClickKind::Line, true);
    assert_eq!(sel, RowSelection { anchor: Some(7), range: Some((2, 7)) });

    handle_diff_row_click(&mut sel, &visible, &diff, 100, DiffClickKind::Line, false);
    assert_eq!(sel, RowSelection { anchor: Some(9), range: Some((9, 9)) });

    handle_diff_row_click(&mut sel, &[], &diff, 0, DiffClickKind::Line, false);
    assert_eq!(sel, RowSelection { anchor: None, range: None });

    assert_eq!(diff_next_boundary_visible_ix(&visible, &diff, 1, DiffClickKind::HunkHeader), Some(4));
    assert_eq!(diff_next_boundary_visible_ix(&visible, &diff, 8, DiffClickKind::HunkHeader), None);
}

#[test]
fn split_clicks_select_up_to_the_next_raw_boundary() {
    let diff = patch();
    let rows = split_rows();
    let visible = patch_visible_indices(DiffViewMode::Split, &diff, &rows);
    let mut sel = RowSelection { anchor: None, range: None };
    handle_split_row_click(&mut sel, &visible, &rows, 1, DiffClickKind::HunkHeader, false);
    assert_eq!(sel.range, Some((1, 3)));
    handle_split_row_click(&mut sel, &visible, &rows, 0, DiffClickKind::FileHeader, false);
    assert_eq!(sel.range, Some((0, 5)));
    assert_eq!(split_next_boundary_visible_ix(&[0, 50, 2], &rows, 0, DiffClickKind::HunkHeader), None);
}

#[test]
fn file_diff_clicks_select_single_rows_or_extend_with_shift() {
    let mut sel = RowSelection { anchor: None, range: None };
    handle_file_diff_row_click(&mut sel, 5, 3, true);
    assert_eq!(sel, RowSelection { anchor: Some(3), range: Some((3, 3)) });
    handle_file_diff_row_click(&mut sel, 5, 1, true);
    assert_eq!(sel, RowSelection { anchor: Some(3), range: Some((1, 3)) });
    handle_file_diff_row_click(&mut sel, 0, 1, false);
    assert_eq!(sel, RowSelection { anchor: None, range: None });
}

#[test]
fn hunk_entries_and_navigation() {
    let diff = patch();
    let visible = patch_visible_indices(DiffViewMode::Inline, &diff, &[]);
    assert_eq!(patch_hunk_entries(DiffViewMode::Inline, &visible, &diff, &[]), vec![(1, 4), (5, 8), (8, 11)]);
    let rows = split_rows();
    let split_visible = patch_visible_indices(DiffViewMode::Split, &diff, &rows);
    assert_eq!(
        patch_hunk_entries(DiffViewMode::Split, &split_visible, &diff, &rows),
        vec![(1, 4), (4, 8), (7, 11)]
    );

    let entries = diff_nav_entries(false, DiffViewMode::Inline, &visible, &diff, &[], &[], &[]);
    assert_eq!(entries, vec![1, 5, 8]);

    let mut sel = RowSelection { anchor: None, range: None };
    assert_eq!(diff_jump_prev(&mut sel, &entries), None);
    assert_eq!(sel, RowSelection { anchor: None, range: None });
    assert_eq!(diff_jump_next(&mut sel, &entries), Some(1));
    assert_eq!(diff_jump_next(&mut sel, &entries), Some(5));
    assert_eq!(diff_jump_next(&mut sel, &entries), Some(8));
    assert_eq!(diff_jump_next(&mut sel, &entries), None);
    assert_eq!(sel, RowSelection { anchor: Some(8), range: Some((8, 8)) });
    assert_eq!(diff_jump_prev(&mut sel, &entries), Some(5));
    assert_eq!(diff_jump_next(&mut sel, &[]), None);
}

#[test]
fn file_changes_start_where_runs_of_changed_rows_begin() {
    let lines = vec![
        line(DiffLineKind::Context, "a"),
        line(DiffLineKind::Add, "b"),
        line(DiffLineKind::Add, "c"),
        line(DiffLineKind::Context, "d"),
        line(DiffLineKind::Remove, "e"),
        line(DiffLineKind::Context, "f"),
    ];
    let visible = all_row_indices(lines.len());
    assert_eq!(file_change_visible_indices(true, DiffViewMode::Inline, &visible, &lines, &[]), vec![1, 4]);
    assert!(file_change_visible_indices(false, DiffViewMode::Inline, &visible, &lines, &[]).is_empty());
    let rows = vec![
        file_row(FileDiffRowKind::Context),
        file_row(FileDiffRowKind::Modify),
        file_row(FileDiffRowKind::Add),
        file_row(FileDiffRowKind::Context),
    ];
    let visible = all_row_indices(rows.len());
    assert_eq!(file_change_visible_indices(true, DiffViewMode::Split, &visible, &[], &rows), vec![1]);
    assert_eq!(diff_nav_entries(true, DiffViewMode::Split, &visible, &[], &[], &[], &rows), vec![1]);
}

#[test]
fn autoscroll_selects_the_first_change_once() {
    let mut sel = RowSelection { anchor: None, range: None };
    let mut pending = true;
    assert_eq!(autoscroll_to_first_change(&mut sel, &mut pending, 10, &[4, 7]), Some(4));
    assert!(!pending);
    assert_eq!(sel, RowSelection { anchor: Some(4), range: Some((4, 4)) });
    assert_eq!(autoscroll_to_first_change(&mut sel, &mut pending, 10, &[7]), None);
    let mut pending = true;
    assert_eq!(autoscroll_to_first_change(&mut sel, &mut pending, 0, &[]), None);
    assert!(pending);
    assert_eq!(autoscroll_to_first_change(&mut sel, &mut pending, 3, &[]), Some(0));
}

#[test]
fn scrollbar_flags_mark_added_removed_and_modified_rows() {
    let diff = patch();
    let visible = patch_visible_indices(DiffViewMode::Inline, &diff, &[]);
    let flags = diff_scrollbar_flags(false, DiffViewMode::Inline, &visible, &diff, &[], &[], &[]);
    assert_eq!(flags, vec![0, 0, 0, 2, 1, 0, 1, 0, 0, 2]);
    let markers = compute_diff_scrollbar_markers(false, DiffViewMode::Inline, &visible, &diff, &[], &[], &[]);
    assert_eq!(markers, scrollbar_markers_for_flags(&flags));
    assert_eq!(markers.bucket_count, 10);

    let rows = split_rows();
    let split_visible = patch_visible_indices(DiffViewMode::Split, &diff, &rows);
    let flags = diff_scrollbar_flags(false, DiffViewMode::Split, &split_visible, &diff, &rows, &[], &[]);
    assert_eq!(flags, vec![0, 0, 0, 3, 0, 1, 0, 0, 2]);

    let file_rows = vec![file_row(FileDiffRowKind::Modify), file_row(FileDiffRowKind::Context)];
    let flags = diff_scrollbar_flags(true, DiffViewMode::Split, &[1, 0, 7], &[], &[], &[], &file_rows);
    assert_eq!(flags, vec![0, 3, 0]);
}

#[test]
fn patch_row_clicks_follow_the_shown_view() {
    let diff = patch();
    let rows = split_rows();
    let visible = patch_visible_indices(DiffViewMode::Inline, &diff, &rows);
    let mut a = RowSelection { anchor: None, range: None };
    let mut b = RowSelection { anchor: None, range: None };
    handle_patch_row_click(&mut a, false, DiffViewMode::Inline, &visible, &diff, &rows, 1, DiffClickKind::HunkHeader, false);
    handle_diff_row_click(&mut b, &visible, &diff, 1, DiffClickKind::HunkHeader, false);
    assert_eq!(a, b);
    // In the whole-file view a click selects only its row, whatever it is.
    let mut c = RowSelection { anchor: None, range: None };
    handle_patch_row_click(&mut c, true, DiffViewMode::Inline, &visible, &diff, &rows, 1, DiffClickKind::HunkHeader, false);
    assert_eq!(c, RowSelection { anchor: Some(1), range: Some((1, 1)) });
    let split_visible = patch_visible_indices(DiffViewMode::Split, &diff, &rows);
    let mut d = RowSelection { anchor: None, range: None };
    let mut e = RowSelection { anchor: None, range: None };
    handle_patch_row_click(&mut d, false, DiffViewMode::Split, &split_visible, &diff, &rows, 1, DiffClickKind::HunkHeader, false);
    handle_split_row_click(&mut e, &split_visible, &rows, 1, DiffClickKind::HunkHeader, false);
    assert_eq!(d, e);
}
