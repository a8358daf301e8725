use gitgpui_view::branch_sidebar::Loadable;
use gitgpui_view::conflict_rows::{DiffLineKind, FileDiffRow, FileDiffRowKind};
use gitgpui_view::diff_target::{DiffArea, DiffTarget};
use gitgpui_view::file_diff_cache::{
    build_file_diff_rows, ensure_file_diff_cache, is_file_diff_view_active, rebuild_file_diff_cache,
    FileDiffCache, FileDiffRepo, FileDiffText,
};

fn row(kind: FileDiffRowKind, old: Option<&str>, new: Option<&str>, ol: Option<u32>, nl: Option<u32>) -> FileDiffRow {
    FileDiffRow {
        kind,
        old_line: ol,
        new_line: nl,
        old: old.map(|s| s.to_string()),
        new: new.map(|s| s.to_string()),
    }
}

fn empty_cache() -> FileDiffCache {
    FileDiffCache {
        repo_id: None,
        rev: 0,
        target: None,
        path: None,
        rows: Vec::new(),
        inline_rows: Vec::new(),
        inline_word_highlights: Vec::new(),
        split_word_highlights_old: Vec::new(),
        split_word_highlights_new: Vec::new(),
    }
}

fn target() -> Option<DiffTarget> {
    Some(DiffTarget::WorkingTree { path: "src/a.rs".to_string(), area: DiffArea::Unstaged })
}

fn repo(diff_file: Loadable<Option<FileDiffText>>) -> FileDiffRepo {
    FileDiffRepo { id: 7, diff_file_rev: 3, diff_target: target(), diff_file }
}

fn loaded() -> Loadable<Option<FileDiffText>> {
    Loadable::Ready(Some(FileDiffText {
        path: "src/a.rs".to_string(),
        old: Some("foo bar\n".to_string()),
        new: Some("foo baz\n".to_string()),
    }))
}

#[test]
fn file_diff_rows_expand_to_inline_rows_with_markers() {
    let rows = vec![
        row(FileDiffRowKind::Context, Some("same"), Some("same"), Some(1), Some(1)),
        row(FileDiffRowKind::Remove, Some("gone"), None, Some(2), None),
        row(FileDiffRowKind::Add, None, Some("new"), None, Some(2)),
        row(FileDiffRowKind::Modify, Some("foo bar"), Some("foo baz"), Some(3), Some(3)),
    ];
    let (inline, inline_h, old_h, new_h) = build_file_diff_rows(&rows);
    let texts: Vec<&str> = inline.iter().map(|l| l.text.as_str()).collect();
    assert_eq!(texts, vec![" same", "-gone", "+new", "-foo bar", "+foo baz"]);
    let kinds: Vec<DiffLineKind> = inline.iter().map(|l| l.kind).collect();
    assert_eq!(
        kinds,
        vec![DiffLineKind::Context, DiffLineKind::Remove, DiffLineKind::Add, DiffLineKind::Remove, DiffLineKind::Add]
    );
    assert_eq!(inline[0].old_line, Some(1));
    assert_eq!(inline[0].new_line, Some(1));
    assert_eq!(inline[3].new_line, None);
    assert_eq!(inline[4].old_line, None);
    assert_eq!(inline_h, vec![None, None, None, Some(vec![4..7]), Some(vec![4..7])]);
    assert_eq!(old_h, vec![None, None, None, Some(vec![4..7])]);
    assert_eq!(new_h, vec![None, None, None, Some(vec![4..7])]);
}

#[test]
fn identical_modified_row_has_no_highlights() {
    let rows = vec![row(FileDiffRowKind::Modify, Some("x y"), Some("x y"), Some(1), Some(1))];
    let (_, inline_h, old_h, new_h) = build_file_diff_rows(&rows);
    assert_eq!(inline_h, vec![None, None]);
    assert_eq!(old_h, vec![None]);
    assert_eq!(new_h, vec![None]);
}

#[test]
fn file_diff_cache_waits_for_the_file_then_builds_once() {
    let mut c = empty_cache();
    // While the file loads, the cache is marked for it and holds nothing.
    let waiting = repo(Loadable::Loading);
    assert!(!ensure_file_diff_cache(&mut c, Some(&waiting)));
    assert_eq!(c.repo_id, Some(7));
    assert_eq!(c.rev, 3);
    assert!(c.path.is_none());
    assert!(!is_file_diff_view_active(&c, Some(&waiting)));
    // Once loaded (a new revision), rows are asked for.
    let mut ready = repo(loaded());
    ready.diff_file_rev = 4;
    assert!(ensure_file_diff_cache(&mut c, Some(&ready)));
    let rows = vec![row(FileDiffRowKind::Modify, Some("foo bar"), Some("foo baz"), Some(1), Some(1))];
    rebuild_file_diff_cache(&mut c, &ready, rows);
    assert_eq!(c.path.as_deref(), Some("src/a.rs"));
    assert_eq!(c.inline_rows.len(), 2);
    assert!(is_file_diff_view_active(&c, Some(&ready)));
    // Asking again needs nothing.
    assert!(!ensure_file_diff_cache(&mut c, Some(&ready)));
    assert_eq!(c.inline_rows.len(), 2);
}

#[test]
fn file_diff_cache_clears_without_a_file_target() {
    let mut c = empty_cache();
    let ready = repo(loaded());
    assert!(ensure_file_diff_cache(&mut c, Some(&ready)));
    rebuild_file_diff_cache(&mut c, &ready, vec![row(FileDiffRowKind::Context, Some("a"), Some("a"), Some(1), Some(1))]);
    let whole_commit = FileDiffRepo {
        id: 7,
        diff_file_rev: 3,
        diff_target: Some(DiffTarget::Commit { commit_id: "abc".to_string(), path: None }),
        diff_file: loaded(),
    };
    assert!(!ensure_file_diff_cache(&mut c, Some(&whole_commit)));
    assert_eq!(c.repo_id, None);
    assert_eq!(c.rev, 0);
    assert!(c.target.is_none());
    assert!(c.rows.is_empty() && c.inline_rows.is_empty());
    c.repo_id = Some(1);
    assert!(!ensure_file_diff_cache(&mut c, None));
    assert_eq!(c.repo_id, None);
}
