use gitgpui_view::branch_sidebar::Loadable;
use gitgpui_view::conflict_rows::DiffLineKind;
use gitgpui_view::diff_cache::{rebuild_diff_cache, DiffRepo};
use gitgpui_view::diff_patch::AnnotatedDiffLine;
use gitgpui_view::diff_target::{DiffArea, DiffTarget};
use gitgpui_view::row_nav::RowSelection;
use gitgpui_view::worktree_preview::WorktreePreview;

fn line(kind: DiffLineKind, text: &str) -> AnnotatedDiffLine {
    AnnotatedDiffLine { kind, text: text.to_string(), old_line: None, new_line: None }
}

fn target() -> Option<DiffTarget> {
    Some(DiffTarget::WorkingTree { path: "n.txt".to_string(), area: DiffArea::Unstaged })
}

#[test]
fn diff_cache_holds_lines_files_stats_and_new_file_preview() {
    let diff = vec![
        line(DiffLineKind::Header, "diff --git a/n.txt b/n.txt"),
        line(DiffLineKind::Header, "new file mode 100644"),
        line(DiffLineKind::Hunk, "@@ -0,0 +1,2 @@"),
        line(DiffLineKind::Add, "+one"),
        line(DiffLineKind::Add, "+two"),
    ];
    let repo = DiffRepo { id: 4, diff_rev: 9, diff_target: target(), diff: Loadable::Ready(diff) };
    let mut sel = RowSelection { anchor: Some(0), range: Some((0, 1)) };
    let mut preview = WorktreePreview { path: None, lines: Loadable::NotLoaded };
    let c = rebuild_diff_cache(Some(repo), &mut sel, &mut preview);
    assert_eq!(sel, RowSelection { anchor: None, range: None });
    assert_eq!(c.repo_id, Some(4));
    assert_eq!(c.rev, 9);
    assert_eq!(c.lines.len(), 5);
    assert_eq!(c.file_for_src_ix[4].as_deref(), Some("n.txt"));
    assert_eq!(c.file_stats[0], Some((2, 0)));
    assert_eq!(c.word_highlights.len(), 5);
    assert!(c.is_new_file);
    assert_eq!(preview.path.as_deref(), Some("n.txt"));
    assert_eq!(preview.lines, Loadable::Ready(vec!["one".to_string(), "two".to_string()]));
}

#[test]
fn diff_cache_is_empty_without_a_loaded_diff() {
    let mut sel = RowSelection { anchor: Some(0), range: None };
    let mut preview = WorktreePreview { path: Some("x".to_string()), lines: Loadable::Loading };
    let c = rebuild_diff_cache(None, &mut sel, &mut preview);
    assert_eq!(c.repo_id, None);
    assert!(c.lines.is_empty());
    let repo = DiffRepo { id: 4, diff_rev: 9, diff_target: target(), diff: Loadable::Loading };
    let c = rebuild_diff_cache(Some(repo), &mut sel, &mut preview);
    assert_eq!(c.repo_id, Some(4));
    assert!(c.lines.is_empty() && !c.is_new_file);
    assert_eq!(preview.path.as_deref(), Some("x"));
    assert_eq!(preview.lines, Loadable::Loading);
}
