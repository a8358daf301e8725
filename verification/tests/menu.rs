use gitgpui_view::menu::{
    commit_details_file_counts, cursor_style_for_resize_edge, ContextMenuItem, ContextMenuModel,
    CursorStyle, ResizeEdge, COMMIT_DETAILS_FILES_RENDER_LIMIT,
};

fn entry(label: &str, disabled: bool) -> ContextMenuItem<u32> {
    ContextMenuItem::Entry { label: label.to_string(), icon: None, shortcut: None, disabled, action: 0 }
}

#[test]
fn commit_details_large_file_list_is_truncated() {
    let total_files = 12 + 15762;
    let (shown, omitted) = commit_details_file_counts(total_files);

    assert_eq!(shown, COMMIT_DETAILS_FILES_RENDER_LIMIT);
    assert_eq!(omitted, total_files - COMMIT_DETAILS_FILES_RENDER_LIMIT);
    assert_eq!(commit_details_file_counts(3), (3, 0));
}

#[test]
fn cursor_style_matches_resize_edge() {
    assert_eq!(cursor_style_for_resize_edge(ResizeEdge::Top), CursorStyle::ResizeUpDown);
    assert_eq!(cursor_style_for_resize_edge(ResizeEdge::Left), CursorStyle::ResizeLeftRight);
    assert_eq!(cursor_style_for_resize_edge(ResizeEdge::TopLeft), CursorStyle::ResizeUpLeftDownRight);
    assert_eq!(cursor_style_for_resize_edge(ResizeEdge::TopRight), CursorStyle::ResizeUpRightDownLeft);
}

#[test]
fn menu_navigation_skips_disabled_and_non_entries() {
    let menu = ContextMenuModel::new(vec![
        ContextMenuItem::Header("h".to_string()),
        entry("a", false),
        ContextMenuItem::Separator,
        entry("b", true),
        entry("c", false),
        ContextMenuItem::Label("l".to_string()),
    ]);
    assert!(!menu.is_selectable(0));
    assert!(menu.is_selectable(1));
    assert!(!menu.is_selectable(3));
    assert!(!menu.is_selectable(99));
    assert_eq!(menu.first_selectable(), Some(1));
    assert_eq!(menu.last_selectable(), Some(4));
    assert_eq!(menu.next_selectable(None, 1), Some(1));
    assert_eq!(menu.next_selectable(None, -1), Some(4));
    assert_eq!(menu.next_selectable(Some(1), 1), Some(4));
    assert_eq!(menu.next_selectable(Some(4), 1), Some(1));
    assert_eq!(menu.next_selectable(Some(1), -1), Some(4));
    assert_eq!(menu.next_selectable(Some(4), -1), Some(1));
}

#[test]
fn menu_without_selectable_items_goes_nowhere() {
    let menu = ContextMenuModel::new(vec![ContextMenuItem::<u32>::Separator, entry("x", true)]);
    assert_eq!(menu.next_selectable(Some(0), 1), None);
    assert_eq!(menu.next_selectable(None, 1), None);
    let empty: ContextMenuModel<u32> = ContextMenuModel::new(vec![]);
    assert_eq!(empty.next_selectable(Some(3), 1), None);
}
