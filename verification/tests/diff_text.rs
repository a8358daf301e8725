use gitgpui_view::conflict_rows::{DiffLineKind, FileDiffRow, FileDiffRowKind};
use gitgpui_view::diff_patch::AnnotatedDiffLine;
use gitgpui_view::diff_text::{
    copy_diff_text_selection_or_region_line, diff_text_line_for_region, double_click_select_diff_text, expand_tabs, file_header_display,
    hunk_header_display, select_all_diff_text, select_diff_text_rows, selected_diff_text_string,
    DiffTextSource,
};
use gitgpui_view::diff_view::{DiffTextPos, DiffTextRegion, DiffViewMode};
use gitgpui_view::patch_rows::{DiffClickKind, PatchSplitRow};
use gitgpui_view::row_nav::patch_visible_indices;
use gitgpui_view::text_selection::DiffTextSelection;

fn line(kind: DiffLineKind, text: &str) -> AnnotatedDiffLine {
    AnnotatedDiffLine { kind, text: text.to_string(), old_line: None, new_line: None }
}

fn pos(visible_ix: usize, region: DiffTextRegion, offset: usize) -> DiffTextPos {
    DiffTextPos { visible_ix, region, offset }
}

fn no_selection() -> DiffTextSelection {
    DiffTextSelection { selecting: false, anchor: None, head: None, suppress_clicks_remaining: 0 }
}

fn selection(a: DiffTextPos, b: DiffTextPos) -> DiffTextSelection {
    DiffTextSelection { selecting: false, anchor: Some(a), head: Some(b), suppress_clicks_remaining: 0 }
}

fn patch_source(mode: DiffViewMode) -> DiffTextSource {
    let diff = vec![
        line(DiffLineKind::Header, "diff --git a/src/x.rs b/src/x.rs"),
        line(DiffLineKind::Header, "index 1..2"),
        line(DiffLineKind::Hunk, "@@ -1,2 +1,2 @@ fn main()"),
        line(DiffLineKind::Context, " let a\t= 1;"),
        line(DiffLineKind::Remove, "-é"),
        line(DiffLineKind::Add, "+ê"),
        line(DiffLineKind::Hunk, "@@ -9 +9 @@"),
    ];
    let split_rows = vec![
        PatchSplitRow::Raw { src_ix: 0, click_kind: DiffClickKind::FileHeader },
        PatchSplitRow::Raw { src_ix: 2, click_kind: DiffClickKind::HunkHeader },
        PatchSplitRow::Aligned {
            row: FileDiffRow {
                kind: FileDiffRowKind::Modify,
                old_line: Some(2),
                new_line: Some(2),
                old: Some("é".to_string()),
                new: Some("ê".to_string()),
            },
            old_src_ix: Some(4),
            new_src_ix: Some(5),
        },
        PatchSplitRow::Raw { src_ix: 6, click_kind: DiffClickKind::HunkHeader },
    ];
    let visible = patch_visible_indices(mode, &diff, &split_rows);
    DiffTextSource {
        preview_active: false,
        preview_lines: None,
        visible,
        mode,
        is_file_view: false,
        diff,
        file_lines: Vec::new(),
        file_rows: Vec::new(),
        split_rows,
    }
}

#[test]
fn tabs_become_four_spaces() {
    assert_eq!(expand_tabs("a\tb\t"), "a    b    ");
    assert_eq!(expand_tabs("plain"), "plain");
}

#[test]
fn headers_are_shown_shortened() {
    assert_eq!(hunk_header_display("@@ -1,3 +1,4 @@ fn main() "), "-1,3 +1,4  fn main()");
    assert_eq!(hunk_header_display("@@ -1 +1 @@"), "-1 +1");
    assert_eq!(hunk_header_display("not a hunk"), "not a hunk");
    assert_eq!(file_header_display("diff --git a/x.rs b/y.rs"), "y.rs");
    assert_eq!(file_header_display("index 123"), "index 123");
}

#[test]
fn rows_show_their_display_text() {
    let src = patch_source(DiffViewMode::Inline);
    assert_eq!(src.visible, vec![0, 2, 3, 4, 5, 6]);
    assert_eq!(diff_text_line_for_region(&src, 0, DiffTextRegion::Inline), "src/x.rs");
    assert_eq!(diff_text_line_for_region(&src, 1, DiffTextRegion::Inline), "-1,2 +1,2  fn main()");
    assert_eq!(diff_text_line_for_region(&src, 2, DiffTextRegion::Inline), " let a    = 1;");
    assert_eq!(diff_text_line_for_region(&src, 2, DiffTextRegion::SplitLeft), "");
    assert_eq!(diff_text_line_for_region(&src, 99, DiffTextRegion::Inline), "");

    let split = patch_source(DiffViewMode::Split);
    assert_eq!(diff_text_line_for_region(&split, 2, DiffTextRegion::SplitLeft), "é");
    assert_eq!(diff_text_line_for_region(&split, 2, DiffTextRegion::SplitRight), "ê");
    assert_eq!(diff_text_line_for_region(&split, 1, DiffTextRegion::SplitRight), "-1,2 +1,2  fn main()");
    assert_eq!(diff_text_line_for_region(&split, 1, DiffTextRegion::Inline), "");
}

#[test]
fn file_preview_and_whole_file_rows() {
    let preview = DiffTextSource {
        preview_active: true,
        preview_lines: Some(vec!["one\ttwo".to_string(), "three".to_string()]),
        visible: Vec::new(),
        mode: DiffViewMode::Split,
        is_file_view: false,
        diff: Vec::new(),
        file_lines: Vec::new(),
        file_rows: Vec::new(),
        split_rows: Vec::new(),
    };
    assert_eq!(diff_text_line_for_region(&preview, 0, DiffTextRegion::Inline), "one    two");
    assert_eq!(diff_text_line_for_region(&preview, 0, DiffTextRegion::SplitLeft), "");

    let file = DiffTextSource {
        preview_active: false,
        preview_lines: None,
        visible: vec![0, 1],
        mode: DiffViewMode::Inline,
        is_file_view: true,
        diff: Vec::new(),
        file_lines: vec![line(DiffLineKind::Add, "+new"), line(DiffLineKind::Context, " same")],
        file_rows: Vec::new(),
        split_rows: Vec::new(),
    };
    assert_eq!(diff_text_line_for_region(&file, 0, DiffTextRegion::Inline), "new");
    assert_eq!(diff_text_line_for_region(&file, 1, DiffTextRegion::Inline), "same");
}

#[test]
fn copying_joins_the_selected_parts_of_rows() {
    let src = patch_source(DiffViewMode::Inline);
    let sel = selection(pos(3, DiffTextRegion::Inline, 3), pos(2, DiffTextRegion::Inline, 5));
    assert_eq!(selected_diff_text_string(&src, &sel).as_deref(), Some("a    = 1;\n-é"));
    let none = selection(pos(1, DiffTextRegion::Inline, 2), pos(1, DiffTextRegion::Inline, 2));
    assert_eq!(selected_diff_text_string(&src, &none), None);
    assert_eq!(selected_diff_text_string(&src, &no_selection()), None);

    let split = patch_source(DiffViewMode::Split);
    let across = selection(pos(2, DiffTextRegion::SplitLeft, 0), pos(2, DiffTextRegion::SplitRight, 2));
    assert_eq!(selected_diff_text_string(&split, &across).as_deref(), Some("é\tê"));
    let one_side = selection(pos(1, DiffTextRegion::SplitRight, 0), pos(2, DiffTextRegion::SplitRight, 2));
    assert_eq!(selected_diff_text_string(&split, &one_side).as_deref(), Some("-1,2 +1,2  fn main()\nê"));
}

#[test]
fn select_all_and_double_click_select_whole_rows() {
    let src = patch_source(DiffViewMode::Inline);
    let mut sel = no_selection();
    select_all_diff_text(&mut sel, &src);
    assert_eq!(sel.anchor, Some(pos(0, DiffTextRegion::Inline, 0)));
    assert_eq!(sel.head, Some(pos(5, DiffTextRegion::Inline, 5)));

    let mut sel = no_selection();
    double_click_select_diff_text(&mut sel, &src, 1, DiffTextRegion::Inline, DiffClickKind::HunkHeader);
    assert_eq!(sel.anchor, Some(pos(1, DiffTextRegion::Inline, 0)));
    assert_eq!(sel.head, Some(pos(4, DiffTextRegion::Inline, 3)));
    assert_eq!(sel.suppress_clicks_remaining, 2);

    let mut sel = no_selection();
    select_diff_text_rows(&mut sel, &src, 9, 2, DiffTextRegion::SplitLeft);
    assert_eq!(sel.anchor, Some(pos(2, DiffTextRegion::Inline, 0)));
    assert_eq!(sel.head, Some(pos(5, DiffTextRegion::Inline, 5)));

    let split = patch_source(DiffViewMode::Split);
    let mut sel = no_selection();
    double_click_select_diff_text(&mut sel, &split, 0, DiffTextRegion::SplitRight, DiffClickKind::FileHeader);
    assert_eq!(sel.anchor, Some(pos(0, DiffTextRegion::SplitRight, 0)));
    assert_eq!(sel.head, Some(pos(3, DiffTextRegion::SplitRight, 5)));
}

#[test]
fn copying_takes_the_selection_or_else_the_row() {
    let src = patch_source(DiffViewMode::Inline);
    // Nothing selected: the row's own text.
    let row = diff_text_line_for_region(&src, 2, DiffTextRegion::Inline);
    assert_eq!(
        copy_diff_text_selection_or_region_line(&src, &no_selection(), 2, DiffTextRegion::Inline),
        Some(row)
    );
    // A selection wins over the row.
    let sel = selection(pos(1, DiffTextRegion::Inline, 0), pos(1, DiffTextRegion::Inline, 3));
    assert_eq!(
        copy_diff_text_selection_or_region_line(&src, &sel, 2, DiffTextRegion::Inline),
        selected_diff_text_string(&src, &sel)
    );
    // An empty selection does not count, and an empty row copies nothing.
    let empty = selection(pos(1, DiffTextRegion::Inline, 2), pos(1, DiffTextRegion::Inline, 2));
    assert_eq!(
        copy_diff_text_selection_or_region_line(&src, &empty, 100, DiffTextRegion::Inline),
        None
    );
}
