use gitgpui_view::conflict::ConflictPickSide;
use gitgpui_view::conflict_rows::{
    ConflictInlineRow, DiffLineKind as DK, FileDiffRow, FileDiffRowKind as K,
};
use gitgpui_view::diff_nav::{
    change_block_entries, conflict_nav_entries_for_inline, conflict_nav_entries_for_split,
    diff_nav_next_target, diff_nav_prev_target,
};

fn split(kind: K, old_line: Option<u32>, new_line: Option<u32>, old: Option<&str>, new: Option<&str>) -> FileDiffRow {
    FileDiffRow {
        kind,
        old_line,
        new_line,
        old: old.map(|s| s.to_string()),
        new: new.map(|s| s.to_string()),
    }
}

fn inline(side: ConflictPickSide, kind: DK, old_line: Option<u32>, new_line: Option<u32>, content: &str) -> ConflictInlineRow {
    ConflictInlineRow { side, kind, old_line, new_line, content: content.to_string() }
}

#[test]
fn diff_navigation_diff_nav_prev_next_targets_do_not_wrap() {
    let entries = vec![10, 20, 30];

    assert_eq!(diff_nav_prev_target(&entries, 10), None);
    assert_eq!(diff_nav_next_target(&entries, 30), None);

    assert_eq!(diff_nav_prev_target(&entries, 25), Some(20));
    assert_eq!(diff_nav_next_target(&entries, 25), Some(30));

    assert_eq!(diff_nav_next_target(&entries, 0), Some(10));
    assert_eq!(diff_nav_prev_target(&entries, 100), Some(30));
}

#[test]
fn mod_diff_nav_prev_next_targets_do_not_wrap() {
    let entries = vec![10, 20, 30];

    assert_eq!(diff_nav_prev_target(&entries, 10), None);
    assert_eq!(diff_nav_next_target(&entries, 30), None);

    assert_eq!(diff_nav_prev_target(&entries, 25), Some(20));
    assert_eq!(diff_nav_next_target(&entries, 25), Some(30));

    assert_eq!(diff_nav_next_target(&entries, 0), Some(10));
    assert_eq!(diff_nav_prev_target(&entries, 100), Some(30));
}

#[test]
fn conflict_nav_entries_group_contiguous_changes() {
    let split_rows = vec![
        split(K::Context, Some(1), Some(1), Some("a"), Some("a")),
        split(K::Remove, Some(2), None, Some("b"), None),
        split(K::Add, None, Some(2), None, Some("b2")),
        split(K::Context, Some(3), Some(3), Some("c"), Some("c")),
        split(K::Modify, Some(4), Some(4), Some("d"), Some("d2")),
        split(K::Context, Some(5), Some(5), Some("e"), Some("e")),
    ];
    assert_eq!(conflict_nav_entries_for_split(&split_rows), vec![1, 4]);

    let inline_rows = vec![
        inline(ConflictPickSide::Ours, DK::Context, Some(1), Some(1), "a"),
        inline(ConflictPickSide::Ours, DK::Remove, Some(2), None, "b"),
        inline(ConflictPickSide::Theirs, DK::Add, None, Some(2), "b2"),
        inline(ConflictPickSide::Ours, DK::Context, Some(3), Some(3), "c"),
        inline(ConflictPickSide::Theirs, DK::Add, None, Some(4), "d2"),
    ];
    assert_eq!(conflict_nav_entries_for_inline(&inline_rows), vec![1, 4]);
}

#[test]
fn change_block_entries_start_each_run() {
    let flags = [true, true, false, true, false, false, true];
    assert_eq!(change_block_entries(flags.len(), |ix| flags[ix]), vec![0, 3, 6]);
    assert_eq!(change_block_entries(0, |_| true), Vec::<usize>::new());
    assert_eq!(change_block_entries(3, |_| false), Vec::<usize>::new());
}

#[test]
fn nav_targets_on_empty_entries_are_none() {
    let entries: Vec<usize> = Vec::new();
    assert_eq!(diff_nav_prev_target(&entries, 5), None);
    assert_eq!(diff_nav_next_target(&entries, 5), None);
}
