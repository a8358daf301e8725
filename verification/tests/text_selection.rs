use gitgpui_view::diff_view::{DiffTextPos, DiffTextRegion, DiffViewMode};
use gitgpui_view::text_selection::{
    diff_text_combined_offset, select_diff_text_rows_range, DiffTextSelection,
};

fn pos(visible_ix: usize, region: DiffTextRegion, offset: usize) -> DiffTextPos {
    DiffTextPos { visible_ix, region, offset }
}

fn sel(anchor: DiffTextPos, head: DiffTextPos) -> DiffTextSelection {
    DiffTextSelection { selecting: false, anchor: Some(anchor), head: Some(head), suppress_clicks_remaining: 0 }
}

#[test]
fn selection_is_put_in_text_order() {
    let s = sel(pos(2, DiffTextRegion::Inline, 3), pos(0, DiffTextRegion::Inline, 1));
    assert_eq!(
        s.diff_text_normalized_selection(),
        Some((pos(0, DiffTextRegion::Inline, 1), pos(2, DiffTextRegion::Inline, 3)))
    );
    assert!(s.diff_text_has_selection());
    let one = sel(pos(1, DiffTextRegion::Inline, 3), pos(1, DiffTextRegion::Inline, 3));
    assert!(!one.diff_text_has_selection());
    let none = DiffTextSelection { selecting: false, anchor: None, head: None, suppress_clicks_remaining: 0 };
    assert_eq!(none.diff_text_normalized_selection(), None);
}

#[test]
fn local_ranges_cover_the_selected_part_of_each_row() {
    let s = sel(pos(2, DiffTextRegion::Inline, 3), pos(0, DiffTextRegion::Inline, 1));
    let m = DiffViewMode::Inline;
    assert_eq!(s.diff_text_local_selection_range(m, 0, DiffTextRegion::Inline, 10), Some(1..10));
    assert_eq!(s.diff_text_local_selection_range(m, 1, DiffTextRegion::Inline, 5), Some(0..5));
    assert_eq!(s.diff_text_local_selection_range(m, 2, DiffTextRegion::Inline, 10), Some(0..3));
    assert_eq!(s.diff_text_local_selection_range(m, 2, DiffTextRegion::Inline, 2), Some(0..2));
    assert_eq!(s.diff_text_local_selection_range(m, 3, DiffTextRegion::Inline, 10), None);
    assert_eq!(s.diff_text_local_selection_range(m, 0, DiffTextRegion::Inline, 1), None);
}

#[test]
fn split_selections_stay_in_their_side() {
    let m = DiffViewMode::Split;
    let s = sel(pos(1, DiffTextRegion::SplitLeft, 2), pos(3, DiffTextRegion::SplitLeft, 4));
    assert_eq!(s.diff_text_local_selection_range(m, 2, DiffTextRegion::SplitRight, 6), None);
    assert_eq!(s.diff_text_local_selection_range(m, 2, DiffTextRegion::SplitLeft, 6), Some(0..6));
    let across = sel(pos(1, DiffTextRegion::SplitLeft, 2), pos(1, DiffTextRegion::SplitRight, 3));
    assert_eq!(across.diff_text_local_selection_range(m, 1, DiffTextRegion::SplitLeft, 5), Some(2..5));
    assert_eq!(across.diff_text_local_selection_range(m, 1, DiffTextRegion::SplitRight, 5), Some(0..3));
    let backwards = sel(pos(1, DiffTextRegion::SplitRight, 2), pos(2, DiffTextRegion::SplitLeft, 3));
    assert_eq!(backwards.diff_text_local_selection_range(m, 1, DiffTextRegion::SplitLeft, 5), None);
    assert_eq!(backwards.diff_text_local_selection_range(m, 2, DiffTextRegion::SplitRight, 5), None);
}

#[test]
fn dragging_selects_and_suppresses_the_final_click() {
    let mut s = DiffTextSelection { selecting: false, anchor: None, head: None, suppress_clicks_remaining: 2 };
    s.update_diff_text_selection_from_mouse(Some(pos(0, DiffTextRegion::Inline, 1)));
    assert_eq!(s.head, None);
    s.begin_diff_text_selection(Some(pos(0, DiffTextRegion::Inline, 1)));
    assert!(s.selecting);
    assert_eq!(s.suppress_clicks_remaining, 0);
    s.update_diff_text_selection_from_mouse(Some(pos(0, DiffTextRegion::Inline, 1)));
    assert_eq!(s.suppress_clicks_remaining, 0);
    s.update_diff_text_selection_from_mouse(Some(pos(1, DiffTextRegion::Inline, 4)));
    assert_eq!(s.head, Some(pos(1, DiffTextRegion::Inline, 4)));
    assert_eq!(s.suppress_clicks_remaining, 1);
    s.end_diff_text_selection();
    assert!(!s.selecting);
    assert!(s.consume_suppress_click_after_drag());
    assert!(!s.consume_suppress_click_after_drag());
    s.begin_diff_text_selection(None);
    assert!(!s.selecting);
}

#[test]
fn rows_selection_orders_clamps_and_picks_the_column() {
    assert_eq!(
        select_diff_text_rows_range(10, 12, 3, DiffTextRegion::SplitRight, DiffViewMode::Split),
        Some((3, 9, DiffTextRegion::SplitRight))
    );
    assert_eq!(
        select_diff_text_rows_range(10, 2, 4, DiffTextRegion::Inline, DiffViewMode::Split),
        Some((2, 4, DiffTextRegion::SplitLeft))
    );
    assert_eq!(
        select_diff_text_rows_range(10, 2, 4, DiffTextRegion::SplitRight, DiffViewMode::Inline),
        Some((2, 4, DiffTextRegion::Inline))
    );
    assert_eq!(select_diff_text_rows_range(0, 2, 4, DiffTextRegion::Inline, DiffViewMode::Inline), None);

    let mut s = DiffTextSelection { selecting: true, anchor: None, head: None, suppress_clicks_remaining: 0 };
    s.set_diff_text_rows_selection(3, 9, DiffTextRegion::SplitRight, 7);
    assert_eq!(s.anchor, Some(pos(3, DiffTextRegion::SplitRight, 0)));
    assert_eq!(s.head, Some(pos(9, DiffTextRegion::SplitRight, 7)));
    assert_eq!(s.suppress_clicks_remaining, 2);
    assert!(!s.selecting);
}

#[test]
fn select_all_uses_the_side_of_the_current_selection() {
    let s = DiffTextSelection {
        selecting: false,
        anchor: Some(pos(0, DiffTextRegion::SplitRight, 0)),
        head: None,
        suppress_clicks_remaining: 0,
    };
    assert_eq!(s.select_all_region(DiffViewMode::Split), DiffTextRegion::SplitRight);
    assert_eq!(s.select_all_region(DiffViewMode::Inline), DiffTextRegion::Inline);
    let t = sel(pos(0, DiffTextRegion::Inline, 0), pos(0, DiffTextRegion::Inline, 0));
    assert_eq!(t.select_all_region(DiffViewMode::Split), DiffTextRegion::SplitLeft);
    let mut u = t;
    u.set_all_selected(5, DiffTextRegion::SplitLeft, 3);
    assert_eq!(u.anchor, Some(pos(0, DiffTextRegion::SplitLeft, 0)));
    assert_eq!(u.head, Some(pos(5, DiffTextRegion::SplitLeft, 3)));
}

#[test]
fn combined_offsets_count_the_left_text_and_the_tab() {
    let p = pos(0, DiffTextRegion::SplitRight, 2);
    assert_eq!(diff_text_combined_offset(p, DiffViewMode::Split, 5), 8);
    assert_eq!(diff_text_combined_offset(p, DiffViewMode::Inline, 5), 2);
    assert_eq!(diff_text_combined_offset(p, DiffViewMode::Split, usize::MAX), usize::MAX);
    assert_eq!(diff_text_combined_offset(pos(0, DiffTextRegion::SplitLeft, 4), DiffViewMode::Split, 5), 4);
}
